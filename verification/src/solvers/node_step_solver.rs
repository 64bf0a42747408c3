//! The solver that shows how a circuit is reduced for nodal analysis.
//!
//! It lists the nodes with the elements that meet there, and then the
//! super-nodes that are left when the nodes that a voltage source joins are
//! merged.
use crate::algebra::{nat_text, push_nat, terms_view, Expr, Operation};
use crate::container::{is_first_unresolved, unresolved_issue, Container};
use crate::elements::{Element, ElementView};
use crate::node::{node_views, Node, NodeView};
use crate::solvers::solver::{step_views, Solver, Step, StepView};
use crate::supernode::{bounded, super_nodes_of};
use crate::topology::{circuit_of, nodes_of, resolved};
use crate::validation::issue_text;
use vstd::prelude::*;
use vstd::string::*;

verus! {

/// The variables that stand for the first `count` members of a group: each is
/// labelled with the display label of the element and has its value.
pub open spec fn member_terms(circuit: Seq<ElementView>, members: Seq<usize>, count: nat) -> Seq<Expr>
    decreases count,
{
    if count == 0 || count > members.len() {
        Seq::empty()
    } else {
        let element = circuit[members[count - 1] as int];
        member_terms(circuit, members, (count - 1) as nat).push(
            Expr::Variable(element.pretty_text(), element.value),
        )
    }
}

/// The step that shows a group: its prefix and its number as the label, and its
/// members under it.
pub open spec fn group_step(circuit: Seq<ElementView>, prefix: Seq<char>, group: NodeView) -> StepView {
    StepView {
        label: prefix + nat_text(group.id),
        sub_steps: member_terms(circuit, group.members, group.members.len()),
    }
}

/// The steps that show the first `count` groups.
pub open spec fn group_steps(
    circuit: Seq<ElementView>,
    prefix: Seq<char>,
    groups: Seq<NodeView>,
    count: nat,
) -> Seq<StepView>
    decreases count,
{
    if count == 0 || count > groups.len() {
        Seq::empty()
    } else {
        group_steps(circuit, prefix, groups, (count - 1) as nat).push(
            group_step(circuit, prefix, groups[count - 1]),
        )
    }
}

/// The steps of the reduction: a step for every node, then a step for every
/// super-node.
pub open spec fn reduction_steps(
    circuit: Seq<ElementView>,
    nodes: Seq<NodeView>,
    super_nodes: Seq<NodeView>,
) -> Seq<StepView> {
    group_steps(circuit, "Node: "@, nodes, nodes.len()) + group_steps(
        circuit,
        "Super-node: "@,
        super_nodes,
        super_nodes.len(),
    )
}

/// Why no reduction is shown for a circuit.
pub open spec fn reduction_refused(circuit: Seq<ElementView>, message: Seq<char>) -> bool {
    if 2 * circuit.len() > usize::MAX {
        message == "Too many elements"@
    } else {
        exists|at: int| #[trigger]
            is_first_unresolved(circuit, at) && message == issue_text(unresolved_issue(circuit, at))
    }
}

/// The solver that shows the reduction of a circuit to its super-nodes.
pub struct NodeStepSolver {
    container: Container,
}

fn show_group(elements: &Vec<Element>, prefix: &str, group: &Node) -> (step: Step)
    requires
        forall|k: int| 0 <= k < group.members@.len() ==> group.members@[k] < elements@.len(),
    ensures
        step@ == group_step(circuit_of(elements@), prefix@, group@),
{
    let ghost circuit = circuit_of(elements@);
    let mut label = String::from_str(prefix);
    push_nat(&mut label, group.id as u64);
    let mut sub_steps: Vec<Operation> = Vec::new();
    let mut k: usize = 0;
    assert(terms_view(sub_steps@) =~= member_terms(circuit, group.members@, 0));
    while k < group.members.len()
        invariant
            k <= group.members.len(),
            circuit == circuit_of(elements@),
            forall|k: int| 0 <= k < group.members@.len() ==> group.members@[k] < elements@.len(),
            terms_view(sub_steps@) == member_terms(circuit, group.members@, k as nat),
        decreases group.members.len() - k,
    {
        let element = &elements[group.members[k]];
        assert(circuit[group.members@[k as int] as int] == element@);
        let ghost before = terms_view(sub_steps@);
        sub_steps.push(Operation::Variable(element.label(), element.value));
        assert(terms_view(sub_steps@) =~= before.push(
            Expr::Variable(element@.pretty_text(), element@.value),
        ));
        k += 1;
    }
    Step { label, sub_steps }
}

fn show_groups(elements: &Vec<Element>, prefix: &str, groups: &Vec<Node>, steps: &mut Vec<Step>)
    requires
        bounded(node_views(groups@), elements@.len()),
    ensures
        step_views(final(steps)@) == step_views(old(steps)@) + group_steps(
            circuit_of(elements@),
            prefix@,
            node_views(groups@),
            groups@.len(),
        ),
{
    let ghost circuit = circuit_of(elements@);
    let ghost views = node_views(groups@);
    let mut i: usize = 0;
    assert(step_views(steps@) =~= step_views(old(steps)@) + group_steps(circuit, prefix@, views, 0));
    while i < groups.len()
        invariant
            i <= groups.len(),
            circuit == circuit_of(elements@),
            views == node_views(groups@),
            bounded(views, elements@.len()),
            step_views(steps@) == step_views(old(steps)@) + group_steps(
                circuit,
                prefix@,
                views,
                i as nat,
            ),
        decreases groups.len() - i,
    {
        assert(views[i as int] == groups@[i as int]@);
        assert forall|k: int| 0 <= k < groups@[i as int].members@.len() implies groups@[i as int].members@[k]
            < elements@.len() by {
            assert(views[i as int].members[k] < elements@.len());
        }
        let ghost before = step_views(steps@);
        let step = show_group(elements, prefix, &groups[i]);
        steps.push(step);
        assert(step_views(steps@) =~= before.push(group_step(circuit, prefix@, views[i as int])));
        assert(step_views(steps@) =~= step_views(old(steps)@) + group_steps(
            circuit,
            prefix@,
            views,
            (i + 1) as nat,
        ));
        i += 1;
    }
}

impl NodeStepSolver {
    /// The container of the solver, with its nodes and super-nodes built.
    pub closed spec fn container(&self) -> Container {
        self.container
    }
}

impl Solver for NodeStepSolver {
    /// The container of the solver is well formed.
    open spec fn ready(&self) -> bool {
        self.container().wf()
    }

    /// Builds the nodes and the super-nodes of the container.
    fn new(container: Container) -> (r: Result<Self, String>)
        ensures
            r is Ok <==> 2 * container.circuit().len() <= usize::MAX && resolved(container.circuit()),
            r matches Ok(solver) ==> {
                let circuit = container.circuit();
                &&& solver.container().circuit() == circuit
                &&& solver.container().node_list() == nodes_of(circuit)
                &&& solver.container().super_node_list() == super_nodes_of(circuit, nodes_of(circuit))
            },
            r matches Err(message) ==> reduction_refused(container.circuit(), message@),
    {
        let mut container = container;
        if container.get_elements().len() > usize::MAX / 2 {
            return Err(String::from_str("Too many elements"));
        }
        match container.create_nodes() {
            Err(e) => {
                return Err(e.to_text());
            },
            Ok(()) => {},
        }
        container.create_super_nodes();
        Ok(NodeStepSolver { container })
    }

    /// The steps of the reduction.
    fn solve(&self) -> (r: Result<Vec<Step>, String>)
        ensures
            r matches Ok(steps) && step_views(steps@) == reduction_steps(
                self.container().circuit(),
                self.container().node_list(),
                self.container().super_node_list(),
            ),
    {
        let elements = self.container.get_elements();
        let nodes = self.container.nodes();
        let groups = self.container.super_nodes();
        let mut steps: Vec<Step> = Vec::new();
        assert(bounded(node_views(nodes@), elements@.len())) by {
            let views = node_views(nodes@);
            assert forall|i: int, k: int|
                0 <= i < views.len() && 0 <= k < views[i].members.len() implies #[trigger] views[i].members[k]
                < elements@.len() by {
                assert(views[i].members.len() > 0);
            }
        }
        show_groups(elements, "Node: ", nodes, &mut steps);
        show_groups(elements, "Super-node: ", groups, &mut steps);
        assert(step_views(steps@) =~= reduction_steps(
            self.container().circuit(),
            self.container().node_list(),
            self.container().super_node_list(),
        ));
        Ok(steps)
    }
}

} // verus!
