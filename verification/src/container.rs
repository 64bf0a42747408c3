//! The container of one analysis: the elements of a circuit and the nodes
//! that were found for them.
use crate::component::Component;
use crate::elements::{Element, ElementView};
use crate::node::{node_views, Node, NodeView};
use crate::supernode::{
    bounded, contract_nodes, lemma_super_nodes_alone, lemma_super_nodes_sorted,
    lemma_super_nodes_unite, sorted, super_nodes_of,
};
use crate::topology::{
    ascending, circuit_of, discover_nodes, element_resolved, first_unresolved, lemma_ascending,
    lemma_nodes_of, nodes_of, resolved,
};
use crate::validation::{
    failures, get_all_internal_status_errors, lemma_multiple_issues_view, Issue, Status,
    StatusError, Validation, ValidationResult,
};
use vstd::prelude::*;
use vstd::std_specs::convert::FromSpecImpl;
use vstd::string::*;

verus! {

/// Whether the nodes of a container have been built.
#[derive(Debug, Clone, Copy, PartialEq, Eq, Structural)]
pub enum Topology {
    /// No nodes have been built yet.
    Unbuilt,
    /// The nodes have been built. They are not rebuilt by themselves when
    /// elements are added afterwards.
    Built,
}

/// The elements of a circuit, with the nodes and the super-nodes that were
/// built for them.
pub struct Container {
    elements: Vec<Element>,
    nodes: Vec<Node>,
    super_nodes: Vec<Node>,
    state: Topology,
}

/// Whether the group at every position `i` has the number `i + 1`, has a
/// member, and lists only ids below the bound.
pub open spec fn well_placed(groups: Seq<NodeView>, bound: nat) -> bool {
    forall|i: int|
        0 <= i < groups.len() ==> (#[trigger] groups[i]).id == i + 1 && groups[i].members.len() > 0
            && forall|k: int| 0 <= k < groups[i].members.len() ==> groups[i].members[k] < bound
}

/// The ids of the voltage sources of a circuit, in ascending order.
pub open spec fn voltage_sources(circuit: Seq<ElementView>) -> Seq<usize> {
    ascending(|id: int| circuit[id].class == Component::VoltageSrc, circuit.len())
}

/// The issue that reports the element at the given position for listing an
/// element that the circuit does not have.
pub open spec fn unresolved_issue(circuit: Seq<ElementView>, at: int) -> Issue {
    Issue::KnownIssue("Unresolved connection: "@ + circuit[at].pretty_text())
}

/// Whether the element at the given position is the first that lists an id
/// that no element of the circuit has.
pub open spec fn is_first_unresolved(circuit: Seq<ElementView>, at: int) -> bool {
    &&& 0 <= at < circuit.len()
    &&& !element_resolved(circuit, circuit[at])
    &&& forall|j: int| 0 <= j < at ==> element_resolved(circuit, #[trigger] circuit[j])
}

impl Container {
    /// What holds of every container: the id of an element is its position,
    /// the nodes are numbered from 1 in their order, every node has a member,
    /// the members of the nodes and of the super-nodes are ids of elements,
    /// in ascending order, and there are no nodes before they were built.
    pub closed spec fn wf(&self) -> bool {
        &&& forall|i: int| 0 <= i < self.elements@.len() ==> (#[trigger] self.elements@[i]).id == i
        &&& well_placed(node_views(self.nodes@), self.elements@.len())
        &&& sorted(node_views(self.nodes@))
        &&& bounded(node_views(self.super_nodes@), self.elements@.len())
        &&& sorted(node_views(self.super_nodes@))
        &&& self.state == Topology::Unbuilt ==> self.nodes@.len() == 0 && self.super_nodes@.len() == 0
    }

    /// The elements, in the order in which they were added.
    pub closed spec fn element_list(&self) -> Seq<Element> {
        self.elements@
    }

    /// The values of the elements.
    pub open spec fn circuit(&self) -> Seq<ElementView> {
        circuit_of(self.element_list())
    }

    /// The nodes, in the order in which they were found.
    pub closed spec fn node_list(&self) -> Seq<NodeView> {
        node_views(self.nodes@)
    }

    /// The super-nodes.
    pub closed spec fn super_node_list(&self) -> Seq<NodeView> {
        node_views(self.super_nodes@)
    }

    /// Whether the nodes have been built.
    pub closed spec fn topology(&self) -> Topology {
        self.state
    }

    /// A container without elements.
    pub fn new() -> (c: Container)
        ensures
            c.wf(),
            c.circuit().len() == 0,
            c.node_list().len() == 0,
            c.super_node_list().len() == 0,
            c.topology() == Topology::Unbuilt,
    {
        Container {
            elements: Vec::new(),
            nodes: Vec::new(),
            super_nodes: Vec::new(),
            state: Topology::Unbuilt,
        }
    }

    /// Adds an element, which gets the next free id. Nodes that were built
    /// before stay as they are.
    pub fn add_element_core(&mut self, element: Element)
        requires
            old(self).wf(),
        ensures
            final(self).wf(),
            final(self).circuit() == old(self).circuit().push(
                ElementView { id: old(self).circuit().len(), ..element@ },
            ),
            final(self).node_list() == old(self).node_list(),
            final(self).super_node_list() == old(self).super_node_list(),
            final(self).topology() == old(self).topology(),
    {
        let mut element = element;
        element.id = self.elements.len();
        self.elements.push(element);
        assert(self.circuit() =~= old(self).circuit().push(
            ElementView { id: old(self).circuit().len(), ..element@ },
        ));
    }

    /// The elements. The id of an element is its position in the list.
    pub fn get_elements(&self) -> (elements: &Vec<Element>)
        requires
            self.wf(),
        ensures
            elements@ == self.element_list(),
            forall|i: int| 0 <= i < elements@.len() ==> (#[trigger] elements@[i]).id == i,
    {
        &self.elements
    }

    /// The nodes. They are numbered from 1 in their order, every node has a
    /// member, and the members are ids of elements of the container, each
    /// listed once.
    pub fn nodes(&self) -> (nodes: &Vec<Node>)
        requires
            self.wf(),
        ensures
            node_views(nodes@) == self.node_list(),
            well_placed(self.node_list(), self.circuit().len()),
            sorted(self.node_list()),
    {
        &self.nodes
    }

    /// The super-nodes. The members are ids of elements of the container,
    /// each listed once.
    pub fn super_nodes(&self) -> (nodes: &Vec<Node>)
        requires
            self.wf(),
        ensures
            node_views(nodes@) == self.super_node_list(),
            bounded(self.super_node_list(), self.circuit().len()),
            sorted(self.super_node_list()),
    {
        &self.super_nodes
    }

    /// Whether the nodes have been built.
    pub fn is_built(&self) -> (built: bool)
        requires
            self.wf(),
        ensures
            built == (self.topology() == Topology::Built),
            !built ==> self.node_list().len() == 0 && self.super_node_list().len() == 0,
    {
        self.state == Topology::Built
    }

    /// The ids of the voltage sources, in ascending order.
    pub fn get_voltage_sources(&self) -> (sources: Vec<usize>)
        ensures
            sources@ == voltage_sources(self.circuit()),
            forall|k: int| 0 <= k < sources@.len() ==> sources@[k] < self.circuit().len(),
    {
        let ghost circuit = self.circuit();
        let ghost member = |id: int| circuit[id].class == Component::VoltageSrc;
        let mut sources: Vec<usize> = Vec::new();
        let mut id: usize = 0;
        while id < self.elements.len()
            invariant
                id <= self.elements.len(),
                circuit == self.circuit(),
                member == |id: int| circuit[id].class == Component::VoltageSrc,
                sources@ == ascending(member, id as nat),
            decreases self.elements.len() - id,
        {
            assert(circuit[id as int] == self.elements@[id as int]@);
            if self.elements[id].class == Component::VoltageSrc {
                sources.push(id);
            }
            id += 1;
        }
        proof {
            lemma_ascending(member, id as nat);
            assert forall|k: int| 0 <= k < sources@.len() implies sources@[k] < self.circuit().len() by {
                assert(sources@.contains(sources@[k]));
            }
        }
        sources
    }

    /// Builds the nodes from the elements, in place of the nodes that were
    /// built before.
    ///
    /// Fails, and changes nothing, where an element lists an id that no
    /// element of the container has; the error names the first such element.
    pub fn create_nodes(&mut self) -> (r: Result<(), StatusError>)
        requires
            old(self).wf(),
            2 * old(self).circuit().len() <= usize::MAX,
        ensures
            final(self).wf(),
            final(self).element_list() == old(self).element_list(),
            final(self).super_node_list() == old(self).super_node_list(),
            r is Ok <==> resolved(old(self).circuit()),
            r is Ok ==> final(self).node_list() == nodes_of(old(self).circuit()),
            r is Ok ==> final(self).topology() == Topology::Built,
            r is Err ==> final(self).node_list() == old(self).node_list(),
            r is Err ==> final(self).topology() == old(self).topology(),
            r matches Err(e) ==> exists|at: int| #[trigger]
                is_first_unresolved(old(self).circuit(), at) && e@ == unresolved_issue(
                    old(self).circuit(),
                    at,
                ),
    {
        match first_unresolved(&self.elements) {
            Some(at) => {
                let mut message = String::from_str("Unresolved connection: ");
                message.append(self.elements[at].label().as_str());
                let e = StatusError::KnownIssue(message);
                assert(e@ == unresolved_issue(self.circuit(), at as int));
                assert forall|j: int| 0 <= j < at implies element_resolved(
                    self.circuit(),
                    #[trigger] self.circuit()[j],
                ) by {
                    assert(self.circuit()[j] == self.elements@[j]@);
                }
                assert(is_first_unresolved(self.circuit(), at as int));
                Err(e)
            },
            None => {
                let nodes = discover_nodes(&self.elements);
                proof {
                    lemma_nodes_of(self.circuit());
                }
                self.nodes = nodes;
                self.state = Topology::Built;
                Ok(())
            },
        }
    }

    /// Builds the super-nodes from the nodes, in place of the super-nodes that
    /// were built before: the nodes that a voltage source joins are merged.
    pub fn create_super_nodes(&mut self)
        requires
            old(self).wf(),
        ensures
            final(self).wf(),
            final(self).element_list() == old(self).element_list(),
            final(self).node_list() == old(self).node_list(),
            final(self).topology() == old(self).topology(),
            final(self).super_node_list() == super_nodes_of(old(self).circuit(), old(self).node_list()),
    {
        let groups = contract_nodes(&self.elements, &self.nodes);
        let count = self.elements.len();
        proof {
            assert(self.circuit().len() == count);
            lemma_super_nodes_unite(self.circuit(), self.node_list(), self.circuit().len());
            lemma_super_nodes_sorted(self.circuit(), self.node_list(), self.circuit().len());
            if self.state == Topology::Unbuilt {
                lemma_super_nodes_alone(self.circuit(), self.node_list(), self.circuit().len());
            }
        }
        self.super_nodes = groups;
    }
}

/// The circuit with every element numbered by its position.
pub open spec fn renumbered(circuit: Seq<ElementView>) -> Seq<ElementView> {
    Seq::new(circuit.len(), |i: int| ElementView { id: i as nat, ..circuit[i] })
}

impl FromSpecImpl<Vec<Element>> for Container {
    open spec fn obeys_from_spec() -> bool {
        false
    }

    open spec fn from_spec(elements: Vec<Element>) -> Container {
        arbitrary()
    }
}

impl From<Vec<Element>> for Container {
    /// The container of the given elements, numbered in their order, with no
    /// nodes built.
    fn from(elements: Vec<Element>) -> (c: Container)
        ensures
            c.wf(),
            c.circuit() == renumbered(circuit_of(elements@)),
            c.node_list().len() == 0,
            c.super_node_list().len() == 0,
            c.topology() == Topology::Unbuilt,
    {
        let mut container = Container::new();
        let mut i: usize = 0;
        assert(container.circuit() =~= renumbered(circuit_of(elements@)).take(0));
        while i < elements.len()
            invariant
                i <= elements.len(),
                container.wf(),
                container.circuit() == renumbered(circuit_of(elements@)).take(i as int),
                container.node_list().len() == 0,
                container.super_node_list().len() == 0,
                container.topology() == Topology::Unbuilt,
            decreases elements.len() - i,
        {
            container.add_element_core(elements[i].clone());
            assert(container.circuit() =~= renumbered(circuit_of(elements@)).take(i + 1));
            i += 1;
        }
        assert(renumbered(circuit_of(elements@)).take(i as int) =~= renumbered(circuit_of(elements@)));
        container
    }
}

/// What the checks of the first `count` elements of a circuit find wrong, in
/// the order of the elements.
pub open spec fn circuit_failures(circuit: Seq<ElementView>, count: nat) -> Seq<Issue>
    decreases count,
{
    if count == 0 || count > circuit.len() {
        Seq::empty()
    } else {
        let before = circuit_failures(circuit, (count - 1) as nat);
        match circuit[count - 1].verdict() {
            Err(issue) => before.push(issue),
            Ok(_) => before,
        }
    }
}

/// What a check of a circuit finds: it is valid where each of its elements
/// is; otherwise all that was found is reported together.
pub open spec fn circuit_verdict(circuit: Seq<ElementView>) -> Result<Status, Issue> {
    let found = circuit_failures(circuit, circuit.len());
    if found.len() == 0 {
        Ok(Status::Valid)
    } else {
        Err(Issue::MultipleIssues(found))
    }
}

proof fn lemma_failures(elements: Seq<Element>, count: nat)
    requires
        count <= elements.len(),
    ensures
        failures(elements, count) == circuit_failures(circuit_of(elements), count),
    decreases count,
{
    if count > 0 {
        lemma_failures(elements, (count - 1) as nat);
    }
}

impl Validation for Container {
    /// A container is valid where its circuit is. No element can occur twice
    /// in a container, because the container numbers its elements.
    open spec fn verdict(&self) -> Result<Status, Issue> {
        circuit_verdict(self.circuit())
    }

    fn validate(&self) -> (r: ValidationResult) {
        let errors = get_all_internal_status_errors(&self.elements);
        proof {
            lemma_failures(self.elements@, self.elements@.len());
        }
        if errors.len() == 0 {
            Ok(Status::Valid)
        } else {
            proof {
                lemma_multiple_issues_view(errors);
            }
            Err(StatusError::MultipleIssues(errors))
        }
    }
}

} // verus!
