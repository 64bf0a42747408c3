//! How nodes that a voltage source joins are merged into super-nodes.
use crate::component::Component;
use crate::elements::{contains_id, Element, ElementView};
use crate::node::{node_views, Node, NodeView};
use crate::topology::{ascending, circuit_of, lemma_ascending, strictly_ascending};
use vstd::prelude::*;

verus! {

/// The ids below `bound` that one of two lists holds, in ascending order.
pub open spec fn merged(a: Seq<usize>, b: Seq<usize>, bound: nat) -> Seq<usize> {
    ascending(|id: int| a.contains(id as usize) || b.contains(id as usize), bound)
}

/// The position of the first of the first `count` groups that holds the
/// element, if one does.
pub open spec fn holder(groups: Seq<NodeView>, element: usize, count: nat) -> Option<int>
    decreases count,
{
    if count == 0 || count > groups.len() {
        None
    } else {
        match holder(groups, element, (count - 1) as nat) {
            Some(i) => Some(i),
            None => if groups[count - 1].members.contains(element) {
                Some(count - 1)
            } else {
                None
            },
        }
    }
}

/// The first `count` groups after the groups that hold `source` were merged.
///
/// A group that holds `source` is merged into the first group before it that
/// holds `source` too: that group keeps its number and gains the members of
/// the other. Every other group stays as it is, in its place.
pub open spec fn contracted(groups: Seq<NodeView>, source: usize, count: nat, bound: nat) -> Seq<
    NodeView,
>
    decreases count,
{
    if count == 0 || count > groups.len() {
        Seq::empty()
    } else {
        let before = contracted(groups, source, (count - 1) as nat, bound);
        let next = groups[count - 1];
        if !next.members.contains(source) {
            before.push(next)
        } else {
            match holder(before, source, before.len()) {
                None => before.push(next),
                Some(i) => before.update(
                    i,
                    NodeView { id: before[i].id, members: merged(before[i].members, next.members, bound) },
                ),
            }
        }
    }
}

/// The groups after the voltage sources among the first `done` elements of the
/// circuit were taken one by one, in the order of the circuit, and the groups
/// that hold the source were merged.
pub open spec fn super_nodes_after(circuit: Seq<ElementView>, nodes: Seq<NodeView>, done: nat) -> Seq<
    NodeView,
>
    decreases done,
{
    if done == 0 || done > circuit.len() {
        nodes
    } else {
        let before = super_nodes_after(circuit, nodes, (done - 1) as nat);
        if circuit[done - 1].class == Component::VoltageSrc {
            contracted(before, (done - 1) as usize, before.len(), circuit.len())
        } else {
            before
        }
    }
}

/// The super-nodes of a circuit with the given nodes.
pub open spec fn super_nodes_of(circuit: Seq<ElementView>, nodes: Seq<NodeView>) -> Seq<NodeView> {
    super_nodes_after(circuit, nodes, circuit.len())
}

/// Where a holder is found, it is one of the groups that were searched, it
/// holds the element, and no group before it does.
pub proof fn lemma_holder(groups: Seq<NodeView>, element: usize, count: nat)
    requires
        count <= groups.len(),
    ensures
        holder(groups, element, count) matches Some(i) ==> 0 <= i < count
            && groups[i].members.contains(element) && forall|j: int|
            0 <= j < i ==> !(#[trigger] groups[j]).members.contains(element),
        holder(groups, element, count) is None ==> forall|j: int|
            0 <= j < count ==> !(#[trigger] groups[j]).members.contains(element),
    decreases count,
{
    if count > 0 {
        lemma_holder(groups, element, (count - 1) as nat);
    }
}

fn merge_members(a: &Vec<usize>, b: &Vec<usize>, bound: usize) -> (members: Vec<usize>)
    ensures
        members@ == merged(a@, b@, bound as nat),
{
    let ghost member = |id: int| a@.contains(id as usize) || b@.contains(id as usize);
    let mut members: Vec<usize> = Vec::new();
    let mut id: usize = 0;
    while id < bound
        invariant
            id <= bound,
            member == |id: int| a@.contains(id as usize) || b@.contains(id as usize),
            members@ == ascending(member, id as nat),
        decreases bound - id,
    {
        if contains_id(a, id) || contains_id(b, id) {
            members.push(id);
        }
        id += 1;
    }
    members
}

fn find_holder(groups: &Vec<Node>, element: usize) -> (found: Option<usize>)
    ensures
        match found {
            Some(i) => holder(node_views(groups@), element, groups@.len()) == Some(i as int),
            None => holder(node_views(groups@), element, groups@.len()) is None,
        },
{
    let ghost views = node_views(groups@);
    let mut i: usize = 0;
    while i < groups.len()
        invariant
            i <= groups.len(),
            views == node_views(groups@),
            holder(views, element, i as nat) is None,
        decreases groups.len() - i,
    {
        if groups[i].contains(element) {
            assert(views[i as int] == groups@[i as int]@);
            assert(holder(views, element, (i + 1) as nat) == Some(i as int));
            proof {
                lemma_holder_stays(views, element, (i + 1) as nat, views.len());
            }
            return Some(i);
        }
        assert(views[i as int] == groups@[i as int]@);
        i += 1;
    }
    None
}

/// A holder that was found among the first groups is the holder among more.
pub proof fn lemma_holder_stays(groups: Seq<NodeView>, element: usize, count: nat, more: nat)
    requires
        count <= more <= groups.len(),
        holder(groups, element, count) is Some,
    ensures
        holder(groups, element, more) == holder(groups, element, count),
    decreases more,
{
    if more > count {
        lemma_holder_stays(groups, element, count, (more - 1) as nat);
    }
}

fn contract(groups: &Vec<Node>, source: usize, bound: usize) -> (out: Vec<Node>)
    ensures
        node_views(out@) == contracted(node_views(groups@), source, groups@.len(), bound as nat),
{
    let ghost views = node_views(groups@);
    let mut out: Vec<Node> = Vec::new();
    let mut i: usize = 0;
    assert(node_views(out@) =~= contracted(views, source, 0, bound as nat));
    while i < groups.len()
        invariant
            i <= groups.len(),
            views == node_views(groups@),
            node_views(out@) == contracted(views, source, i as nat, bound as nat),
        decreases groups.len() - i,
    {
        let ghost before = node_views(out@);
        assert(views[i as int] == groups@[i as int]@);
        let next = &groups[i];
        if !next.contains(source) {
            out.push(next.clone());
            assert(node_views(out@) =~= before.push(views[i as int]));
        } else {
            match find_holder(&out, source) {
                None => {
                    out.push(next.clone());
                    assert(node_views(out@) =~= before.push(views[i as int]));
                },
                Some(at) => {
                    proof {
                        lemma_holder(before, source, before.len());
                    }
                    let members = merge_members(&out[at].members, &next.members, bound);
                    let id = out[at].id;
                    assert(before[at as int] == out@[at as int]@);
                    out.set(at, Node { id, members });
                    assert(node_views(out@) =~= before.update(
                        at as int,
                        NodeView {
                            id: before[at as int].id,
                            members: merged(
                                before[at as int].members,
                                views[i as int].members,
                                bound as nat,
                            ),
                        },
                    ));
                },
            }
        }
        i += 1;
    }
    out
}

/// Merges the nodes that a voltage source joins.
pub fn contract_nodes(elements: &Vec<Element>, nodes: &Vec<Node>) -> (groups: Vec<Node>)
    ensures
        node_views(groups@) == super_nodes_of(circuit_of(elements@), node_views(nodes@)),
{
    let ghost circuit = circuit_of(elements@);
    let ghost start = node_views(nodes@);
    let mut groups: Vec<Node> = Vec::new();
    let mut k: usize = 0;
    while k < nodes.len()
        invariant
            k <= nodes.len(),
            groups@.len() == k,
            forall|j: int| 0 <= j < k ==> (#[trigger] groups@[j])@ == nodes@[j]@,
        decreases nodes.len() - k,
    {
        groups.push(nodes[k].clone());
        k += 1;
    }
    assert(node_views(groups@) =~= start);
    let mut done: usize = 0;
    while done < elements.len()
        invariant
            done <= elements.len(),
            circuit == circuit_of(elements@),
            node_views(groups@) == super_nodes_after(circuit, start, done as nat),
        decreases elements.len() - done,
    {
        assert(circuit[done as int] == elements@[done as int]@);
        if elements[done].class == Component::VoltageSrc {
            groups = contract(&groups, done, elements.len());
        }
        done += 1;
    }
    groups
}

/// Whether every id of `a` is an id of `b`.
pub open spec fn within(a: Seq<usize>, b: Seq<usize>) -> bool {
    forall|x: usize| a.contains(x) ==> b.contains(x)
}

/// Whether one of the groups holds all of the given members.
pub open spec fn placed(members: Seq<usize>, groups: Seq<NodeView>) -> bool {
    exists|j: int| 0 <= j < groups.len() && within(members, (#[trigger] groups[j]).members)
}

/// Whether one of the groups holds the element and lies within the given
/// members.
pub open spec fn sourced(element: usize, members: Seq<usize>, groups: Seq<NodeView>) -> bool {
    exists|i: int|
        0 <= i < groups.len() && (#[trigger] groups[i]).members.contains(element) && within(
            groups[i].members,
            members,
        )
}

/// Whether the coarse groups are unions of the fine groups: every fine group
/// lies within a coarse one, and every member of a coarse group comes from a
/// fine group within it.
pub open spec fn unites(fine: Seq<NodeView>, coarse: Seq<NodeView>) -> bool {
    &&& forall|i: int| 0 <= i < fine.len() ==> placed((#[trigger] fine[i]).members, coarse)
    &&& forall|j: int, x: usize|
        0 <= j < coarse.len() && (#[trigger] coarse[j]).members.contains(x) ==> #[trigger] sourced(
            x,
            coarse[j].members,
            fine,
        )
}

/// Whether every member of every group is below the bound.
pub open spec fn bounded(groups: Seq<NodeView>, bound: nat) -> bool {
    forall|i: int, k: int|
        0 <= i < groups.len() && 0 <= k < groups[i].members.len() ==> #[trigger] groups[i].members[k]
            < bound
}

/// The merged list holds what either list holds, as far as it is below the
/// bound.
pub proof fn lemma_merged(a: Seq<usize>, b: Seq<usize>, bound: nat)
    requires
        bound <= usize::MAX,
    ensures
        forall|x: usize| #[trigger]
            merged(a, b, bound).contains(x) <==> x < bound && (a.contains(x) || b.contains(x)),
        forall|k: int| 0 <= k < merged(a, b, bound).len() ==> #[trigger] merged(a, b, bound)[k] < bound,
{
    let member = |id: int| a.contains(id as usize) || b.contains(id as usize);
    lemma_ascending(member, bound);
    assert forall|k: int| 0 <= k < merged(a, b, bound).len() implies #[trigger] merged(a, b, bound)[k]
        < bound by {
        assert(merged(a, b, bound).contains(merged(a, b, bound)[k]));
    }
}

/// Merging the groups that hold a source unites the groups and keeps their
/// members below the bound.
pub proof fn lemma_contracted_unites(groups: Seq<NodeView>, source: usize, count: nat, bound: nat)
    requires
        count <= groups.len(),
        bound <= usize::MAX,
        bounded(groups, bound),
    ensures
        unites(groups.take(count as int), contracted(groups, source, count, bound)),
        bounded(contracted(groups, source, count, bound), bound),
    decreases count,
{
    let fine = groups.take(count as int);
    let coarse = contracted(groups, source, count, bound);
    if count > 0 {
        let fewer = groups.take(count - 1);
        let before = contracted(groups, source, (count - 1) as nat, bound);
        let next = groups[count - 1];
        lemma_contracted_unites(groups, source, (count - 1) as nat, bound);
        assert(fine[count - 1] == next);
        assert forall|i: int| 0 <= i < fewer.len() implies fewer[i] == fine[i] by {}
        assert forall|k: int| 0 <= k < next.members.len() implies #[trigger] next.members[k] < bound by {
            assert(groups[count - 1].members[k] < bound);
        }
        let merge_at = if next.members.contains(source) {
            holder(before, source, before.len())
        } else {
            None
        };
        match merge_at {
            None => {
                assert(coarse == before.push(next));
                assert forall|i: int| 0 <= i < fine.len() implies placed(
                    (#[trigger] fine[i]).members,
                    coarse,
                ) by {
                    if i < count - 1 {
                        assert(placed(fewer[i].members, before));
                        let j = choose|j: int|
                            0 <= j < before.len() && within(
                                fewer[i].members,
                                (#[trigger] before[j]).members,
                            );
                        assert(coarse[j] == before[j]);
                    } else {
                        assert(coarse[before.len() as int] == next);
                    }
                }
                assert forall|j: int, x: usize|
                    0 <= j < coarse.len() && (#[trigger] coarse[j]).members.contains(
                        x,
                    ) implies #[trigger] sourced(x, coarse[j].members, fine) by {
                    if j < before.len() {
                        assert(coarse[j] == before[j]);
                        assert(sourced(x, before[j].members, fewer));
                        let i = choose|i: int|
                            0 <= i < fewer.len() && (#[trigger] fewer[i]).members.contains(x)
                                && within(fewer[i].members, before[j].members);
                        assert(fine[i] == fewer[i]);
                    } else {
                        assert(coarse[j] == next);
                        assert(fine[count - 1].members.contains(x));
                    }
                }
                assert forall|i: int, k: int|
                    0 <= i < coarse.len() && 0 <= k < coarse[i].members.len() implies
                    #[trigger] coarse[i].members[k] < bound by {
                    if i < before.len() {
                        assert(coarse[i] == before[i]);
                        assert(before[i].members[k] < bound);
                    }
                }
            },
            Some(at) => {
                lemma_holder(before, source, before.len());
                let union = merged(before[at].members, next.members, bound);
                lemma_merged(before[at].members, next.members, bound);
                assert(coarse == before.update(at, NodeView { id: before[at].id, members: union }));
                assert(within(before[at].members, union)) by {
                    assert forall|x: usize| before[at].members.contains(x) implies union.contains(
                        x,
                    ) by {
                        let k = choose|k: int|
                            0 <= k < before[at].members.len() && before[at].members[k] == x;
                        assert(before[at].members[k] < bound);
                    }
                }
                assert(within(next.members, union)) by {
                    assert forall|x: usize| next.members.contains(x) implies union.contains(x) by {
                        let k = choose|k: int| 0 <= k < next.members.len() && next.members[k] == x;
                        assert(next.members[k] < bound);
                    }
                }
                assert forall|i: int| 0 <= i < fine.len() implies placed(
                    (#[trigger] fine[i]).members,
                    coarse,
                ) by {
                    if i < count - 1 {
                        assert(placed(fewer[i].members, before));
                        let j = choose|j: int|
                            0 <= j < before.len() && within(
                                fewer[i].members,
                                (#[trigger] before[j]).members,
                            );
                        if j == at {
                            assert(within(fine[i].members, coarse[at].members));
                        } else {
                            assert(coarse[j] == before[j]);
                        }
                    } else {
                        assert(within(fine[i].members, coarse[at].members));
                    }
                }
                assert forall|j: int, x: usize|
                    0 <= j < coarse.len() && (#[trigger] coarse[j]).members.contains(
                        x,
                    ) implies #[trigger] sourced(x, coarse[j].members, fine) by {
                    if j != at {
                        assert(coarse[j] == before[j]);
                        assert(sourced(x, before[j].members, fewer));
                        let i = choose|i: int|
                            0 <= i < fewer.len() && (#[trigger] fewer[i]).members.contains(x)
                                && within(fewer[i].members, before[j].members);
                        assert(fine[i] == fewer[i]);
                    } else if before[at].members.contains(x) {
                        assert(sourced(x, before[at].members, fewer));
                        let i = choose|i: int|
                            0 <= i < fewer.len() && (#[trigger] fewer[i]).members.contains(x)
                                && within(fewer[i].members, before[at].members);
                        assert(fine[i] == fewer[i]);
                        assert(within(fine[i].members, union));
                    } else {
                        assert(next.members.contains(x));
                        assert(fine[count - 1].members.contains(x));
                    }
                }
                assert forall|i: int, k: int|
                    0 <= i < coarse.len() && 0 <= k < coarse[i].members.len() implies
                    #[trigger] coarse[i].members[k] < bound by {
                    if i != at {
                        assert(coarse[i] == before[i]);
                        assert(before[i].members[k] < bound);
                    }
                }
            },
        }
    }
}

/// Uniting is transitive.
pub proof fn lemma_unites_transitive(fine: Seq<NodeView>, middle: Seq<NodeView>, coarse: Seq<NodeView>)
    requires
        unites(fine, middle),
        unites(middle, coarse),
    ensures
        unites(fine, coarse),
{
    assert forall|i: int| 0 <= i < fine.len() implies placed((#[trigger] fine[i]).members, coarse) by {
        assert(placed(fine[i].members, middle));
        let j = choose|j: int|
            0 <= j < middle.len() && within(fine[i].members, (#[trigger] middle[j]).members);
        assert(placed(middle[j].members, coarse));
        let k = choose|k: int|
            0 <= k < coarse.len() && within(middle[j].members, (#[trigger] coarse[k]).members);
        assert(within(fine[i].members, coarse[k].members));
    }
    assert forall|k: int, x: usize|
        0 <= k < coarse.len() && (#[trigger] coarse[k]).members.contains(x) implies #[trigger] sourced(
        x,
        coarse[k].members,
        fine,
    ) by {
        assert(sourced(x, coarse[k].members, middle));
        let j = choose|j: int|
            0 <= j < middle.len() && (#[trigger] middle[j]).members.contains(x) && within(
                middle[j].members,
                coarse[k].members,
            );
        assert(sourced(x, middle[j].members, fine));
        let i = choose|i: int|
            0 <= i < fine.len() && (#[trigger] fine[i]).members.contains(x) && within(
                fine[i].members,
                middle[j].members,
            );
        assert(within(fine[i].members, coarse[k].members));
    }
}

/// Building super-nodes loses no member and invents none: every node lies
/// within a super-node, and every member of a super-node is a member of a node
/// that lies within it.
pub proof fn lemma_super_nodes_unite(circuit: Seq<ElementView>, nodes: Seq<NodeView>, done: nat)
    requires
        done <= circuit.len() <= usize::MAX,
        bounded(nodes, circuit.len()),
    ensures
        unites(nodes, super_nodes_after(circuit, nodes, done)),
        bounded(super_nodes_after(circuit, nodes, done), circuit.len()),
    decreases done,
{
    if done == 0 {
        assert forall|i: int| 0 <= i < nodes.len() implies placed((#[trigger] nodes[i]).members, nodes) by {
            assert(within(nodes[i].members, nodes[i].members));
        }
        assert forall|j: int, x: usize|
            0 <= j < nodes.len() && (#[trigger] nodes[j]).members.contains(x) implies #[trigger] sourced(
            x,
            nodes[j].members,
            nodes,
        ) by {
            assert(within(nodes[j].members, nodes[j].members));
        }
    } else {
        let before = super_nodes_after(circuit, nodes, (done - 1) as nat);
        lemma_super_nodes_unite(circuit, nodes, (done - 1) as nat);
        if circuit[done - 1].class == Component::VoltageSrc {
            lemma_contracted_unites(before, (done - 1) as usize, before.len(), circuit.len());
            assert(before.take(before.len() as int) =~= before);
            lemma_unites_transitive(
                nodes,
                before,
                contracted(before, (done - 1) as usize, before.len(), circuit.len()),
            );
        }
    }
}

/// Whether every group lists its members in strictly ascending order, so that
/// no member occurs twice.
pub open spec fn sorted(groups: Seq<NodeView>) -> bool {
    forall|i: int| 0 <= i < groups.len() ==> strictly_ascending((#[trigger] groups[i]).members)
}

/// Merging keeps the members of every group in ascending order.
pub proof fn lemma_contracted_sorted(groups: Seq<NodeView>, source: usize, count: nat, bound: nat)
    requires
        count <= groups.len(),
        bound <= usize::MAX,
        sorted(groups),
    ensures
        sorted(contracted(groups, source, count, bound)),
    decreases count,
{
    if count > 0 {
        let before = contracted(groups, source, (count - 1) as nat, bound);
        let next = groups[count - 1];
        lemma_contracted_sorted(groups, source, (count - 1) as nat, bound);
        let after = contracted(groups, source, count, bound);
        if next.members.contains(source) && holder(before, source, before.len()) is Some {
            let at = holder(before, source, before.len())->Some_0;
            lemma_holder(before, source, before.len());
            lemma_ascending(
                |id: int|
                    before[at].members.contains(id as usize) || next.members.contains(id as usize),
                bound,
            );
            assert forall|i: int| 0 <= i < after.len() implies strictly_ascending(
                (#[trigger] after[i]).members,
            ) by {
                if i != at {
                    assert(after[i] == before[i]);
                }
            }
        } else {
            assert(after == before.push(next));
            assert forall|i: int| 0 <= i < after.len() implies strictly_ascending(
                (#[trigger] after[i]).members,
            ) by {
                if i < before.len() {
                    assert(after[i] == before[i]);
                }
            }
        }
    }
}

/// The members of every super-node are in ascending order where those of
/// every node are.
pub proof fn lemma_super_nodes_sorted(circuit: Seq<ElementView>, nodes: Seq<NodeView>, done: nat)
    requires
        done <= circuit.len() <= usize::MAX,
        sorted(nodes),
    ensures
        sorted(super_nodes_after(circuit, nodes, done)),
    decreases done,
{
    if done > 0 {
        let before = super_nodes_after(circuit, nodes, (done - 1) as nat);
        lemma_super_nodes_sorted(circuit, nodes, (done - 1) as nat);
        if circuit[done - 1].class == Component::VoltageSrc {
            lemma_contracted_sorted(before, (done - 1) as usize, before.len(), circuit.len());
        }
    }
}

/// Whether no two of the groups hold the same element.
pub open spec fn held_once(groups: Seq<NodeView>, element: usize) -> bool {
    forall|i: int, j: int|
        0 <= i < groups.len() && 0 <= j < groups.len() && (#[trigger] groups[i]).members.contains(
            element,
        ) && (#[trigger] groups[j]).members.contains(element) ==> i == j
}

/// Where at most one group holds the source, merging changes nothing.
pub proof fn lemma_contracted_alone(groups: Seq<NodeView>, source: usize, count: nat, bound: nat)
    requires
        count <= groups.len(),
        held_once(groups, source),
    ensures
        contracted(groups, source, count, bound) == groups.take(count as int),
    decreases count,
{
    if count > 0 {
        let before = contracted(groups, source, (count - 1) as nat, bound);
        lemma_contracted_alone(groups, source, (count - 1) as nat, bound);
        let next = groups[count - 1];
        if next.members.contains(source) {
            lemma_holder(before, source, before.len());
            if holder(before, source, before.len()) is Some {
                let i = holder(before, source, before.len())->Some_0;
                assert(before[i] == groups[i]);
            }
        }
        assert(before.push(next) =~= groups.take(count as int));
    } else {
        assert(groups.take(0) =~= Seq::<NodeView>::empty());
    }
}

/// A circuit in which no voltage source lies in two nodes has its nodes for
/// super-nodes: a node that nothing joins to another stays as it is.
pub proof fn lemma_super_nodes_alone(circuit: Seq<ElementView>, nodes: Seq<NodeView>, done: nat)
    requires
        done <= circuit.len(),
        forall|source: int|
            0 <= source < circuit.len() && (#[trigger] circuit[source]).class
                == Component::VoltageSrc ==> held_once(nodes, source as usize),
    ensures
        super_nodes_after(circuit, nodes, done) == nodes,
    decreases done,
{
    if done > 0 {
        lemma_super_nodes_alone(circuit, nodes, (done - 1) as nat);
        if circuit[done - 1].class == Component::VoltageSrc {
            lemma_contracted_alone(nodes, (done - 1) as usize, nodes.len(), circuit.len());
            assert(nodes.take(nodes.len() as int) =~= nodes);
        }
    }
}

} // verus!
