//! How the terminals of a circuit are grouped into nodes.
//!
//! Every element has two terminals. The terminals are numbered along the
//! element list: the positive terminal of element `i` is terminal `2 * i`, its
//! negative terminal is terminal `2 * i + 1`.
use crate::component::Component;
use crate::elements::{contains_id, Element, ElementView};
use crate::node::{Node, NodeView};
use vstd::prelude::*;

verus! {

/// The values of a list of elements.
pub open spec fn circuit_of(elements: Seq<Element>) -> Seq<ElementView> {
    Seq::new(elements.len(), |i: int| elements[i]@)
}

/// The ids below `bound` that `member` holds of, in ascending order.
pub open spec fn ascending(member: spec_fn(int) -> bool, bound: nat) -> Seq<usize>
    decreases bound,
{
    if bound == 0 {
        Seq::empty()
    } else {
        let below = ascending(member, (bound - 1) as nat);
        if member(bound - 1) {
            below.push((bound - 1) as usize)
        } else {
            below
        }
    }
}

/// Whether a sequence of ids ascends strictly.
pub open spec fn strictly_ascending(ids: Seq<usize>) -> bool {
    forall|i: int, j: int| 0 <= i < j < ids.len() ==> ids[i] < ids[j]
}

/// An ascending list holds every id below the bound that is a member, each
/// once, and nothing else.
pub proof fn lemma_ascending(member: spec_fn(int) -> bool, bound: nat)
    requires
        bound <= usize::MAX,
    ensures
        strictly_ascending(ascending(member, bound)),
        forall|x: usize| #[trigger]
            ascending(member, bound).contains(x) <==> x < bound && member(x as int),
        ascending(member, bound).len() <= bound,
    decreases bound,
{
    if bound > 0 {
        let below = ascending(member, (bound - 1) as nat);
        lemma_ascending(member, (bound - 1) as nat);
        let all = ascending(member, bound);
        let top = (bound - 1) as usize;
        assert forall|x: usize| #[trigger] all.contains(x) <==> x < bound && member(x as int) by {
            if member(bound - 1) {
                assert(all == below.push(top));
                if all.contains(x) {
                    let k = choose|k: int| 0 <= k < all.len() && all[k] == x;
                    if k < below.len() {
                        assert(below[k] == x);
                        assert(below.contains(x));
                    }
                }
                if x < bound && member(x as int) {
                    if x == top {
                        assert(all[below.len() as int] == x);
                    } else {
                        assert(below.contains(x));
                        let k = choose|k: int| 0 <= k < below.len() && below[k] == x;
                        assert(all[k] == x);
                    }
                }
            }
        }
        assert(strictly_ascending(all)) by {
            if member(bound - 1) {
                assert forall|i: int, j: int| 0 <= i < j < all.len() implies all[i] < all[j] by {
                    assert(below.contains(below[i]));
                }
            }
        }
    }
}

/// The ids listed at a terminal: those at the positive side of its element for
/// an even terminal, those at the negative side for an odd one.
pub open spec fn connections(circuit: Seq<ElementView>, terminal: int) -> Seq<usize> {
    if terminal % 2 == 0 {
        circuit[terminal / 2].positive
    } else {
        circuit[terminal / 2].negative
    }
}

/// Whether the junction at a terminal holds an element: the element of the
/// terminal itself, and every element listed there.
pub open spec fn at_junction(circuit: Seq<ElementView>, terminal: int, element: int) -> bool {
    element == terminal / 2 || connections(circuit, terminal).contains(element as usize)
}

/// The elements at the junction of a terminal, in ascending order of id.
pub open spec fn junction(circuit: Seq<ElementView>, terminal: int) -> Seq<usize> {
    ascending(|element: int| at_junction(circuit, terminal, element), circuit.len())
}

/// Computes the junction at a terminal.
pub fn junction_members(elements: &Vec<Element>, terminal: usize) -> (members: Vec<usize>)
    requires
        terminal < 2 * elements@.len(),
    ensures
        members@ == junction(circuit_of(elements@), terminal as int),
{
    let ghost circuit = circuit_of(elements@);
    let ghost member = |element: int| at_junction(circuit, terminal as int, element);
    let own = terminal / 2;
    let listed = if terminal % 2 == 0 {
        &elements[own].positive
    } else {
        &elements[own].negative
    };
    assert(listed@ == connections(circuit, terminal as int));
    let mut members: Vec<usize> = Vec::new();
    let mut id: usize = 0;
    while id < elements.len()
        invariant
            id <= elements.len(),
            own == terminal / 2,
            listed@ == connections(circuit, terminal as int),
            member == |element: int| at_junction(circuit, terminal as int, element),
            members@ == ascending(member, id as nat),
        decreases elements.len() - id,
    {
        if id == own || contains_id(listed, id) {
            members.push(id);
        }
        id += 1;
    }
    members
}

/// Whether every id that the element lists is the id of an element of the
/// circuit.
pub open spec fn element_resolved(circuit: Seq<ElementView>, element: ElementView) -> bool {
    &&& forall|k: int| 0 <= k < element.positive.len() ==> element.positive[k] < circuit.len()
    &&& forall|k: int| 0 <= k < element.negative.len() ==> element.negative[k] < circuit.len()
}

/// Whether every id that is listed at a terminal of the circuit is the id of
/// one of its elements.
pub open spec fn resolved(circuit: Seq<ElementView>) -> bool {
    forall|i: int| 0 <= i < circuit.len() ==> element_resolved(circuit, #[trigger] circuit[i])
}

fn ids_below(ids: &Vec<usize>, bound: usize) -> (all: bool)
    ensures
        all == (forall|k: int| 0 <= k < ids@.len() ==> ids@[k] < bound),
{
    let mut i: usize = 0;
    while i < ids.len()
        invariant
            i <= ids.len(),
            forall|k: int| 0 <= k < i ==> ids@[k] < bound,
        decreases ids.len() - i,
    {
        if ids[i] >= bound {
            return false;
        }
        i += 1;
    }
    true
}

/// The position of the first element that lists an id that no element of the
/// circuit has, or `None` where every listed id is resolved.
pub fn first_unresolved(elements: &Vec<Element>) -> (found: Option<usize>)
    ensures
        found is None <==> resolved(circuit_of(elements@)),
        found matches Some(i) ==> {
            &&& i < elements@.len()
            &&& !element_resolved(circuit_of(elements@), elements@[i as int]@)
            &&& forall|j: int|
                0 <= j < i ==> element_resolved(circuit_of(elements@), #[trigger] elements@[j]@)
        },
{
    let ghost circuit = circuit_of(elements@);
    let mut i: usize = 0;
    while i < elements.len()
        invariant
            i <= elements.len(),
            circuit == circuit_of(elements@),
            forall|j: int| 0 <= j < i ==> element_resolved(circuit, #[trigger] circuit[j]),
        decreases elements.len() - i,
    {
        if !ids_below(&elements[i].positive, elements.len()) || !ids_below(
            &elements[i].negative,
            elements.len(),
        ) {
            assert(circuit[i as int] == elements@[i as int]@);
            assert(circuit.len() == elements@.len());
            assert(circuit[i as int].positive == elements@[i as int].positive@);
            assert(circuit[i as int].negative == elements@[i as int].negative@);
            assert(!element_resolved(circuit, circuit[i as int]));
            assert forall|j: int| 0 <= j < i implies element_resolved(
                circuit,
                #[trigger] elements@[j]@,
            ) by {
                assert(circuit[j] == elements@[j]@);
            }
            return Some(i);
        }
        assert(circuit[i as int] == elements@[i as int]@);
        i += 1;
    }
    None
}

/// Whether one of the listed elements is a ground.
pub open spec fn holds_ground(circuit: Seq<ElementView>, members: Seq<usize>) -> bool {
    exists|k: int|
        0 <= k < members.len() && (#[trigger] circuit[members[k] as int]).class
            == Component::Ground
}

/// The junctions that are found on the first `visited` terminals of the walk,
/// in the order in which they are found.
///
/// The walk starts at the last terminal of the circuit and ends at the first.
/// The junction at a terminal is found there unless it holds a ground, which
/// makes it the reference and no node, or was found before.
pub open spec fn discovered(circuit: Seq<ElementView>, visited: nat) -> Seq<Seq<usize>>
    decreases visited,
{
    if visited == 0 || visited > 2 * circuit.len() {
        Seq::empty()
    } else {
        let found = discovered(circuit, (visited - 1) as nat);
        let members = junction(circuit, 2 * circuit.len() - visited);
        if holds_ground(circuit, members) || found.contains(members) {
            found
        } else {
            found.push(members)
        }
    }
}

/// The nodes that stand for a list of junctions: the junction at position `i`
/// is the node with the number `i + 1`.
pub open spec fn numbered(junctions: Seq<Seq<usize>>) -> Seq<NodeView> {
    Seq::new(junctions.len(), |i: int| NodeView { id: (i + 1) as nat, members: junctions[i] })
}

/// The nodes of a circuit.
pub open spec fn nodes_of(circuit: Seq<ElementView>) -> Seq<NodeView> {
    numbered(discovered(circuit, 2 * circuit.len()))
}

/// Whether two lists hold the same ids in the same order.
pub fn same_ids(a: &Vec<usize>, b: &Vec<usize>) -> (same: bool)
    ensures
        same == (a@ == b@),
{
    if a.len() != b.len() {
        return false;
    }
    let mut i: usize = 0;
    while i < a.len()
        invariant
            i <= a.len(),
            a.len() == b.len(),
            forall|k: int| 0 <= k < i ==> a@[k] == b@[k],
        decreases a.len() - i,
    {
        if a[i] != b[i] {
            return false;
        }
        i += 1;
    }
    assert(a@ =~= b@);
    true
}

fn has_ground(elements: &Vec<Element>, members: &Vec<usize>) -> (found: bool)
    requires
        forall|k: int| 0 <= k < members@.len() ==> members@[k] < elements@.len(),
    ensures
        found == holds_ground(circuit_of(elements@), members@),
{
    let ghost circuit = circuit_of(elements@);
    let mut i: usize = 0;
    while i < members.len()
        invariant
            i <= members.len(),
            circuit == circuit_of(elements@),
            forall|k: int| 0 <= k < members@.len() ==> members@[k] < elements@.len(),
            forall|k: int|
                0 <= k < i ==> (#[trigger] circuit[members@[k] as int]).class != Component::Ground,
        decreases members.len() - i,
    {
        if elements[members[i]].class == Component::Ground {
            assert(circuit[members@[i as int] as int].class == Component::Ground);
            return true;
        }
        i += 1;
    }
    false
}

fn has_junction(nodes: &Vec<Node>, members: &Vec<usize>) -> (found: bool)
    ensures
        found == (exists|i: int| 0 <= i < nodes@.len() && (#[trigger] nodes@[i])@.members == members@),
{
    let mut i: usize = 0;
    while i < nodes.len()
        invariant
            i <= nodes.len(),
            forall|k: int| 0 <= k < i ==> (#[trigger] nodes@[k])@.members != members@,
        decreases nodes.len() - i,
    {
        if same_ids(&nodes[i].members, members) {
            return true;
        }
        i += 1;
    }
    false
}

fn visit(elements: &Vec<Element>, nodes: &mut Vec<Node>, terminal: usize, Ghost(visited): Ghost<nat>)
    requires
        2 * elements@.len() <= usize::MAX,
        terminal < 2 * elements@.len(),
        visited == 2 * elements@.len() - terminal - 1,
        crate::node::node_views(old(nodes)@) == numbered(discovered(circuit_of(elements@), visited)),
    ensures
        crate::node::node_views(final(nodes)@) == numbered(
            discovered(circuit_of(elements@), visited + 1),
        ),
{
    let ghost circuit = circuit_of(elements@);
    let ghost found = discovered(circuit, visited);
    let members = junction_members(elements, terminal);
    proof {
        lemma_ascending(|element: int| at_junction(circuit, terminal as int, element), circuit.len());
        lemma_discovered_len(circuit, visited);
        assert forall|k: int| 0 <= k < members@.len() implies members@[k] < elements@.len() by {
            assert(members@.contains(members@[k]));
        }
    }
    let ground = has_ground(elements, &members);
    let known = has_junction(nodes, &members);
    proof {
        let views = crate::node::node_views(nodes@);
        if known {
            let i = choose|i: int| 0 <= i < nodes@.len() && (#[trigger] nodes@[i])@.members == members@;
            assert(views[i].members == members@);
            assert(views.len() == found.len());
            assert(numbered(found)[i].members == found[i]);
            assert(found[i] == members@);
        }
        if found.contains(members@) {
            let i = choose|i: int| 0 <= i < found.len() && found[i] == members@;
            assert(views.len() == found.len());
            assert(numbered(found)[i].members == found[i]);
            assert(views[i] == nodes@[i]@);
            assert(nodes@[i]@.members == members@);
        }
        assert(known == found.contains(members@));
    }
    if !ground && !known {
        let ghost before = nodes@;
        assert(crate::node::node_views(before).len() == found.len());
        let id = nodes.len() + 1;
        nodes.push(Node { id, members });
        assert forall|k: int| 0 <= k < nodes@.len() implies crate::node::node_views(nodes@)[k]
            == numbered(found.push(members@))[k] by {
            if k < before.len() {
                assert(crate::node::node_views(before)[k] == numbered(found)[k]);
            }
        }
        assert(crate::node::node_views(nodes@) =~= numbered(found.push(members@)));
    }
}

/// No more junctions are found than terminals are visited.
pub proof fn lemma_discovered_len(circuit: Seq<ElementView>, visited: nat)
    ensures
        discovered(circuit, visited).len() <= visited,
        discovered(circuit, visited).len() <= 2 * circuit.len(),
    decreases visited,
{
    if visited > 0 {
        lemma_discovered_len(circuit, (visited - 1) as nat);
    }
}

/// Finds the nodes of a circuit.
pub fn discover_nodes(elements: &Vec<Element>) -> (nodes: Vec<Node>)
    requires
        2 * elements@.len() <= usize::MAX,
    ensures
        crate::node::node_views(nodes@) == nodes_of(circuit_of(elements@)),
{
    let ghost circuit = circuit_of(elements@);
    let mut nodes: Vec<Node> = Vec::new();
    let mut left: usize = elements.len();
    assert(crate::node::node_views(nodes@) =~= numbered(discovered(circuit, 0)));
    while left > 0
        invariant
            left <= elements.len(),
            2 * elements@.len() <= usize::MAX,
            circuit == circuit_of(elements@),
            crate::node::node_views(nodes@) == numbered(
                discovered(circuit, (2 * (elements@.len() - left)) as nat),
            ),
        decreases left,
    {
        left -= 1;
        visit(elements, &mut nodes, 2 * left + 1, Ghost((2 * (elements@.len() - left) - 2) as nat));
        visit(elements, &mut nodes, 2 * left, Ghost((2 * (elements@.len() - left) - 1) as nat));
    }
    nodes
}

/// Whether a list of ids is the junction at one of the terminals of the
/// circuit, and that junction holds no ground.
pub open spec fn is_node_junction(circuit: Seq<ElementView>, members: Seq<usize>) -> bool {
    &&& !holds_ground(circuit, members)
    &&& exists|terminal: int|
        0 <= terminal < 2 * circuit.len() && #[trigger] junction(circuit, terminal) == members
}

/// The junction at a terminal holds the element of the terminal, holds only
/// elements of the circuit, and lists them in ascending order.
pub proof fn lemma_junction(circuit: Seq<ElementView>, terminal: int)
    requires
        0 <= terminal < 2 * circuit.len(),
        circuit.len() <= usize::MAX,
    ensures
        junction(circuit, terminal).contains((terminal / 2) as usize),
        junction(circuit, terminal).len() > 0,
        strictly_ascending(junction(circuit, terminal)),
        forall|k: int|
            0 <= k < junction(circuit, terminal).len() ==> #[trigger] junction(circuit, terminal)[k]
                < circuit.len(),
        forall|x: usize| #[trigger]
            junction(circuit, terminal).contains(x) <==> x < circuit.len() && at_junction(
                circuit,
                terminal,
                x as int,
            ),
{
    let member = |element: int| at_junction(circuit, terminal, element);
    lemma_ascending(member, circuit.len());
    let members = junction(circuit, terminal);
    assert(member(terminal / 2));
    assert(members.contains((terminal / 2) as usize));
    assert forall|k: int| 0 <= k < members.len() implies #[trigger] members[k] < circuit.len() by {
        assert(members.contains(members[k]));
    }
}

/// What the walk has found after `visited` terminals: junctions of visited
/// terminals that hold no ground, each of them once; and the junction at every
/// visited terminal is among them unless it holds a ground.
pub proof fn lemma_discovered(circuit: Seq<ElementView>, visited: nat)
    requires
        visited <= 2 * circuit.len(),
    ensures
        forall|i: int|
            0 <= i < discovered(circuit, visited).len() ==> is_node_junction(
                circuit,
                #[trigger] discovered(circuit, visited)[i],
            ),
        forall|i: int, j: int|
            0 <= i < j < discovered(circuit, visited).len() ==> discovered(circuit, visited)[i]
                != discovered(circuit, visited)[j],
        forall|terminal: int|
            2 * circuit.len() - visited <= terminal < 2 * circuit.len() ==> holds_ground(
                circuit,
                #[trigger] junction(circuit, terminal),
            ) || discovered(circuit, visited).contains(junction(circuit, terminal)),
    decreases visited,
{
    if visited > 0 {
        let found = discovered(circuit, (visited - 1) as nat);
        let now = discovered(circuit, visited);
        let here = 2 * circuit.len() - visited;
        let members = junction(circuit, here);
        lemma_discovered(circuit, (visited - 1) as nat);
        assert forall|i: int| 0 <= i < now.len() implies is_node_junction(circuit, #[trigger] now[i]) by {
            if i < found.len() {
                assert(now[i] == found[i]);
            } else {
                assert(now[i] == members);
            }
        }
        assert forall|i: int, j: int| 0 <= i < j < now.len() implies now[i] != now[j] by {
            if j < found.len() {
                assert(now[i] == found[i] && now[j] == found[j]);
            } else {
                assert(now[i] == found[i]);
                assert(!found.contains(members));
            }
        }
        assert forall|terminal: int|
            2 * circuit.len() - visited <= terminal < 2 * circuit.len() implies holds_ground(
            circuit,
            #[trigger] junction(circuit, terminal),
        ) || now.contains(junction(circuit, terminal)) by {
            let wanted = junction(circuit, terminal);
            if terminal == here {
                if !holds_ground(circuit, members) && !found.contains(members) {
                    assert(now[found.len() as int] == members);
                }
            }
            if found.contains(wanted) {
                let i = choose|i: int| 0 <= i < found.len() && found[i] == wanted;
                assert(now[i] == wanted);
            }
        }
    }
}

/// Every terminal of a circuit belongs to one node and no more: the junction
/// at the terminal either holds a ground, and is then the reference and the
/// members of no node, or it is the members of exactly one node.
pub proof fn lemma_terminal_in_one_node(circuit: Seq<ElementView>, terminal: int)
    requires
        0 <= terminal < 2 * circuit.len(),
    ensures
        holds_ground(circuit, junction(circuit, terminal)) ==> forall|i: int|
            0 <= i < nodes_of(circuit).len() ==> (#[trigger] nodes_of(circuit)[i]).members
                != junction(circuit, terminal),
        !holds_ground(circuit, junction(circuit, terminal)) ==> exists|i: int|
            0 <= i < nodes_of(circuit).len() && (#[trigger] nodes_of(circuit)[i]).members
                == junction(circuit, terminal),
        forall|i: int, j: int|
            0 <= i < nodes_of(circuit).len() && 0 <= j < nodes_of(circuit).len() && nodes_of(
                circuit,
            )[i].members == junction(circuit, terminal) && nodes_of(circuit)[j].members
                == junction(circuit, terminal) ==> i == j,
{
    let found = discovered(circuit, 2 * circuit.len());
    let members = junction(circuit, terminal);
    lemma_discovered(circuit, 2 * circuit.len());
    assert forall|i: int| 0 <= i < nodes_of(circuit).len() implies (#[trigger] nodes_of(
        circuit,
    )[i]).members == found[i] by {}
    if holds_ground(circuit, members) {
        assert forall|i: int| 0 <= i < nodes_of(circuit).len() implies (#[trigger] nodes_of(
            circuit,
        )[i]).members != members by {
            assert(is_node_junction(circuit, found[i]));
        }
    } else {
        assert(found.contains(members));
        let i = choose|i: int| 0 <= i < found.len() && found[i] == members;
        assert(nodes_of(circuit)[i].members == members);
    }
}

/// The nodes of a circuit are numbered from 1 in the order in which the walk
/// finds them; each has a member, lists elements of the circuit in ascending
/// order, and holds no ground.
pub proof fn lemma_nodes_of(circuit: Seq<ElementView>)
    requires
        circuit.len() <= usize::MAX,
    ensures
        nodes_of(circuit).len() <= 2 * circuit.len(),
        forall|i: int|
            0 <= i < nodes_of(circuit).len() ==> {
                let node = #[trigger] nodes_of(circuit)[i];
                &&& node.id == i + 1
                &&& node.members.len() > 0
                &&& strictly_ascending(node.members)
                &&& !holds_ground(circuit, node.members)
                &&& forall|k: int| 0 <= k < node.members.len() ==> node.members[k] < circuit.len()
            },
{
    let found = discovered(circuit, 2 * circuit.len());
    lemma_discovered(circuit, 2 * circuit.len());
    lemma_discovered_len(circuit, 2 * circuit.len());
    assert forall|i: int| 0 <= i < nodes_of(circuit).len() implies {
        let node = #[trigger] nodes_of(circuit)[i];
        &&& node.id == i + 1
        &&& node.members.len() > 0
        &&& strictly_ascending(node.members)
        &&& !holds_ground(circuit, node.members)
        &&& forall|k: int| 0 <= k < node.members.len() ==> node.members[k] < circuit.len()
    } by {
        assert(is_node_junction(circuit, found[i]));
        let terminal = choose|terminal: int|
            0 <= terminal < 2 * circuit.len() && #[trigger] junction(circuit, terminal) == found[i];
        lemma_junction(circuit, terminal);
    }
}

} // verus!
