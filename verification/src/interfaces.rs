//! What a caller from outside asks of the library: to load a circuit, to list
//! its nodes, and to solve it.
use crate::component::Component;
use crate::container::{
    circuit_verdict, is_first_unresolved, renumbered, unresolved_issue, Container, Topology,
};
use crate::elements::{Element, ElementView};
use crate::matrix::grid;
use crate::node::node_views;
use crate::solvers::node_matrix_solver::{
    a_cell, matrix_steps, solvable, unknowns, x_cell, z_cell, NodeSolver,
};
use crate::solvers::node_step_solver::{reduction_steps, NodeStepSolver};
use crate::solvers::solver::{step_views, Solver, Step};
use crate::supernode::super_nodes_of;
use crate::topology::{circuit_of, lemma_ascending, lemma_nodes_of, nodes_of, resolved};
use crate::util::{
    basic_circuit, basic_supermesh_circuit, basic_supernode_circuit, create_basic_container,
    create_basic_supermesh_container, create_basic_supernode_container, create_mna_container,
    create_mna_container_2, lemma_examples_resolved, mna_circuit, mna_circuit_2,
};
use crate::validation::{issue_text, Issue, StatusError, Validation};
use vstd::prelude::*;
use vstd::std_specs::convert::FromSpecImpl;
use vstd::string::*;

verus! {

/// The elements of a circuit, as a caller hands them over.
pub struct ContainerSetup {
    /// The elements, in the order of their ids.
    pub elements: Vec<Element>,
}

impl ContainerSetup {
    /// The circuit that the setup describes: its elements, numbered in their
    /// order.
    pub open spec fn circuit(&self) -> Seq<ElementView> {
        renumbered(circuit_of(self.elements@))
    }
}

impl FromSpecImpl<ContainerSetup> for Container {
    open spec fn obeys_from_spec() -> bool {
        false
    }

    open spec fn from_spec(setup: ContainerSetup) -> Container {
        arbitrary()
    }
}

impl From<ContainerSetup> for Container {
    /// The container of the elements of the setup, with no nodes built.
    fn from(setup: ContainerSetup) -> (c: Container)
        ensures
            c.wf(),
            c.circuit() == setup.circuit(),
            c.node_list().len() == 0,
            c.super_node_list().len() == 0,
            c.topology() == Topology::Unbuilt,
    {
        Container::from(setup.elements)
    }
}

/// Whether a circuit is accepted for nodal analysis: it is valid, its
/// terminals can be numbered, and every listed id is the id of an element.
pub open spec fn accepted(circuit: Seq<ElementView>) -> bool {
    &&& circuit_verdict(circuit) is Ok
    &&& 2 * circuit.len() <= usize::MAX
    &&& resolved(circuit)
}

/// Whether `issue` is what stands in the way of a circuit that is not
/// accepted: what its check found; else that it has too many elements; else
/// the first element that lists an id that no element has.
pub open spec fn rejected(circuit: Seq<ElementView>, issue: Issue) -> bool {
    match circuit_verdict(circuit) {
        Err(found) => issue == found,
        Ok(_) => if 2 * circuit.len() > usize::MAX {
            issue == Issue::KnownIssue("Too many elements"@)
        } else {
            !resolved(circuit) && exists|at: int| #[trigger]
                is_first_unresolved(circuit, at) && issue == unresolved_issue(circuit, at)
        },
    }
}

/// Builds the nodes of a valid container.
fn build_nodes(container: &mut Container) -> (r: Result<(), StatusError>)
    requires
        old(container).wf(),
        circuit_verdict(old(container).circuit()) is Ok,
    ensures
        final(container).wf(),
        final(container).circuit() == old(container).circuit(),
        r is Ok <==> accepted(old(container).circuit()),
        r is Ok ==> final(container).node_list() == nodes_of(old(container).circuit()),
        r is Ok ==> final(container).topology() == Topology::Built,
        r is Ok ==> final(container).super_node_list() == old(container).super_node_list(),
        r matches Err(e) ==> rejected(old(container).circuit(), e@),
{
    if container.get_elements().len() > usize::MAX / 2 {
        return Err(StatusError::KnownIssue(String::from_str("Too many elements")));
    }
    container.create_nodes()
}

/// Validates a container and builds its nodes and its super-nodes.
pub fn prepare(container: &mut Container) -> (r: Result<(), StatusError>)
    requires
        old(container).wf(),
    ensures
        final(container).wf(),
        final(container).circuit() == old(container).circuit(),
        r is Ok <==> accepted(old(container).circuit()),
        r is Ok ==> {
            let circuit = old(container).circuit();
            &&& final(container).topology() == Topology::Built
            &&& final(container).node_list() == nodes_of(circuit)
            &&& final(container).super_node_list() == super_nodes_of(circuit, nodes_of(circuit))
        },
        r matches Err(e) ==> rejected(old(container).circuit(), e@),
{
    match container.validate() {
        Err(e) => {
            return Err(e);
        },
        Ok(_) => {},
    }
    match build_nodes(container) {
        Err(e) => {
            return Err(e);
        },
        Ok(()) => {},
    }
    container.create_super_nodes();
    Ok(())
}

/// Loads a circuit and checks it. This shows whether a circuit arrives as it
/// was sent.
pub fn load_wasm_container(setup: ContainerSetup) -> (r: Result<String, StatusError>)
    ensures
        match circuit_verdict(setup.circuit()) {
            Ok(_) => r matches Ok(message) && message@ == "Loaded Successfully"@,
            Err(issue) => r matches Err(e) && e@ == issue,
        },
{
    let container = Container::from(setup);
    match container.validate() {
        Err(e) => Err(e),
        Ok(_) => Ok(String::from_str("Loaded Successfully")),
    }
}

/// The members of every node of a circuit, in the order of the nodes.
pub fn get_tools(setup: ContainerSetup) -> (r: Result<Vec<Vec<usize>>, StatusError>)
    ensures
        r is Ok <==> accepted(setup.circuit()),
        r matches Ok(members) ==> {
            &&& members@.len() == nodes_of(setup.circuit()).len()
            &&& forall|i: int|
                0 <= i < members@.len() ==> (#[trigger] members@[i])@ == nodes_of(
                    setup.circuit(),
                )[i].members
        },
        r matches Err(e) ==> rejected(setup.circuit(), e@),
{
    let mut container = Container::from(setup);
    match prepare(&mut container) {
        Err(e) => {
            return Err(e);
        },
        Ok(()) => {},
    }
    let nodes = container.nodes();
    let ghost views = container.node_list();
    let mut members: Vec<Vec<usize>> = Vec::new();
    let mut i: usize = 0;
    while i < nodes.len()
        invariant
            i <= nodes.len(),
            views == node_views(nodes@),
            members@.len() == i,
            forall|k: int| 0 <= k < i ==> (#[trigger] members@[k])@ == views[k].members,
        decreases nodes.len() - i,
    {
        assert(views[i as int] == nodes@[i as int]@);
        members.push(nodes[i].member_ids());
        i += 1;
    }
    Ok(members)
}

/// The message that refuses to solve a circuit by its meshes.
pub open spec fn mesh_refusal(matrix: bool) -> Seq<char> {
    (if matrix {
        "Matrix"@
    } else {
        "Step"@
    }) + " Solver not implemented for meshes"@
}

/// Whether a container holds the circuit with its nodes and super-nodes built.
pub open spec fn is_prepared(container: Container, circuit: Seq<ElementView>) -> bool {
    &&& container.wf()
    &&& container.circuit() == circuit
    &&& container.topology() == Topology::Built
    &&& container.node_list() == nodes_of(circuit)
    &&& container.super_node_list() == super_nodes_of(circuit, nodes_of(circuit))
}

/// Whether `r` is what the strategy `S` answers for a container: the message
/// with which it refuses to make a solver, or what the solver that it makes
/// returns for its steps.
pub open spec fn answers<S: Solver>(container: Container, r: Result<Vec<Step>, String>) -> bool {
    ||| exists|message: String|
        r == Err::<Vec<Step>, String>(message) && #[trigger] call_ensures(
            S::new,
            (container,),
            Err::<S, String>(message),
        )
    ||| exists|solver: S|
        call_ensures(S::new, (container,), Ok::<S, String>(solver)) && #[trigger] call_ensures(
            S::solve,
            (&solver,),
            r,
        )
}

/// Solves a circuit with the strategy `S`.
///
/// The circuit is checked first, and what the check finds is reported. A
/// solution by meshes (`nodal` is false) is not implemented for any strategy:
/// it is refused with a message that names the strategy, which is the matrix
/// strategy where `matrix` is true. For a nodal solution the nodes and the
/// super-nodes are built and the solver is made and asked for its steps: what
/// it returns, steps or a message, is what is returned.
pub fn solve<S: Solver>(matrix: bool, nodal: bool, setup: ContainerSetup) -> (r: Result<
    Vec<Step>,
    String,
>)
    ensures
        circuit_verdict(setup.circuit()) matches Err(issue) ==> (r matches Err(message)
            && message@ == issue_text(issue)),
        circuit_verdict(setup.circuit()) is Ok && !nodal ==> (r matches Err(message) && message@
            == mesh_refusal(matrix)),
        nodal && !accepted(setup.circuit()) ==> (r matches Err(message) && exists|issue: Issue| #[trigger]
            rejected(setup.circuit(), issue) && message@ == issue_text(issue)),
        nodal && accepted(setup.circuit()) ==> exists|prepared: Container| #[trigger]
            is_prepared(prepared, setup.circuit()) && answers::<S>(prepared, r),
{
    let mut container = Container::from(setup);
    match container.validate() {
        Err(e) => {
            assert(rejected(container.circuit(), e@));
            return Err(e.to_text());
        },
        Ok(_) => {},
    }
    if !nodal {
        let mut message = String::from_str(if matrix {
            "Matrix"
        } else {
            "Step"
        });
        message.append(" Solver not implemented for meshes");
        return Err(message);
    }
    match build_nodes(&mut container) {
        Err(e) => {
            assert(rejected(container.circuit(), e@));
            return Err(e.to_text());
        },
        Ok(()) => {},
    }
    container.create_super_nodes();
    let ghost prepared = container;
    assert(is_prepared(prepared, setup.circuit()));
    match S::new(container) {
        Err(message) => Err(message),
        Ok(solver) => {
            let r = solver.solve();
            assert(answers::<S>(prepared, r));
            r
        },
    }
}

/// The system matrix of the worked example can be allocated.
pub proof fn lemma_mna_solvable()
    ensures
        solvable(mna_circuit()),
{
    let circuit = mna_circuit();
    lemma_examples_resolved();
    assert(circuit.len() == 6);
    lemma_nodes_of(circuit);
    lemma_ascending(|id: int| circuit[id].class == Component::VoltageSrc, circuit.len());
    assert(unknowns(circuit) <= 18);
    assert(unknowns(circuit) * unknowns(circuit) <= 324) by (nonlinear_arith)
        requires
            unknowns(circuit) <= 18,
    ;
}

/// The steps of the matrix solution of the worked example.
pub fn return_solved_matrix_example() -> (r: Result<Vec<Step>, String>)
    ensures
        r matches Ok(steps) && {
            let circuit = mna_circuit();
            let nodes = nodes_of(circuit);
            let size = unknowns(circuit);
            step_views(steps@) == matrix_steps(
                grid(size, size, |row: int, col: int| a_cell(circuit, nodes, row, col)),
                grid(size, 1, |row: int, col: int| x_cell(circuit, nodes, row)),
                grid(size, 1, |row: int, col: int| z_cell(circuit, nodes, row)),
            )
        },
{
    proof {
        lemma_mna_solvable();
    }
    let mut container = create_mna_container();
    match container.create_nodes() {
        Err(e) => {
            return Err(e.to_text());
        },
        Ok(()) => {},
    }
    container.create_super_nodes();
    match NodeSolver::new(container) {
        Err(message) => Err(message),
        Ok(solver) => solver.solve(),
    }
}

/// The steps of the reduction of the worked example.
pub fn return_solved_step_example() -> (r: Result<Vec<Step>, String>)
    ensures
        r matches Ok(steps) && {
            let circuit = mna_circuit();
            step_views(steps@) == reduction_steps(
                circuit,
                nodes_of(circuit),
                super_nodes_of(circuit, nodes_of(circuit)),
            )
        },
{
    proof {
        lemma_examples_resolved();
        assert(mna_circuit().len() == 6);
    }
    let mut container = create_mna_container();
    match container.create_nodes() {
        Err(e) => {
            return Err(e.to_text());
        },
        Ok(()) => {},
    }
    container.create_super_nodes();
    match NodeStepSolver::new(container) {
        Err(message) => Err(message),
        Ok(solver) => solver.solve(),
    }
}

/// The circuit of the example with the given number; the first example for a
/// number that no example has.
pub open spec fn test_circuit(container_id: i32) -> Seq<ElementView> {
    if container_id == 1 {
        basic_supernode_circuit()
    } else if container_id == 2 {
        basic_supermesh_circuit()
    } else if container_id == 3 {
        mna_circuit()
    } else if container_id == 4 {
        mna_circuit_2()
    } else {
        basic_circuit()
    }
}

/// The container of the example with the given number, with no nodes built.
pub fn test_container(container_id: i32) -> (c: Container)
    ensures
        c.wf(),
        c.topology() == Topology::Unbuilt,
        c.circuit() == test_circuit(container_id),
{
    match container_id {
        0 => create_basic_container(),
        1 => create_basic_supernode_container(),
        2 => create_basic_supermesh_container(),
        3 => create_mna_container(),
        4 => create_mna_container_2(),
        _ => create_basic_container(),
    }
}

/// The steps of the reduction of the example with the given number.
pub fn solve_test_container(container_id: i32) -> (r: Result<Vec<Step>, String>)
    ensures
        r matches Ok(steps) && {
            let circuit = test_circuit(container_id);
            step_views(steps@) == reduction_steps(
                circuit,
                nodes_of(circuit),
                super_nodes_of(circuit, nodes_of(circuit)),
            )
        },
{
    proof {
        lemma_examples_resolved();
        assert(basic_circuit().len() == 4);
        assert(basic_supernode_circuit().len() == 4);
        assert(basic_supermesh_circuit().len() == 5);
        assert(mna_circuit().len() == 6);
        assert(mna_circuit_2().len() == 5);
    }
    let container = test_container(container_id);
    match NodeStepSolver::new(container) {
        Err(message) => Err(message),
        Ok(solver) => solver.solve(),
    }
}

} // verus!
