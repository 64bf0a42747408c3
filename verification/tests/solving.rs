use circuit_solver::algebra::Operation;
use circuit_solver::component::Component;
use circuit_solver::elements::Element;
use circuit_solver::interfaces::{
    get_tools, load_wasm_container, return_solved_matrix_example, return_solved_step_example,
    solve, solve_test_container, test_container, ContainerSetup,
};
use circuit_solver::solvers::node_matrix_solver::NodeSolver;
use circuit_solver::solvers::node_step_solver::NodeStepSolver;
use circuit_solver::solvers::solver::{Solver, Step};
use circuit_solver::util::create_mna_container;
use circuit_solver::validation::StatusError;

fn mna_setup() -> ContainerSetup {
    ContainerSetup {
        elements: create_mna_container().get_elements().clone(),
    }
}

fn texts(step: &Step) -> Vec<String> {
    step.sub_steps.iter().map(|op| op.equation_repr()).collect()
}

#[test]
fn matrix_solver_lists_six_steps() {
    let solver = NodeSolver::new(create_mna_container()).unwrap();
    let steps = solver.solve().unwrap();
    let labels: Vec<&str> = steps.iter().map(|s| s.label.as_str()).collect();
    assert_eq!(
        labels,
        vec![
            "A Matrix",
            "Z Matrix",
            "X Matrix",
            "Inverse A Matrix",
            "Final Equation",
            "Final Equation"
        ]
    );
    assert_eq!(
        texts(&steps[1]),
        vec!["\\begin{bmatrix}0\\\\0\\\\0\\\\32\\\\20\\\\\\end{bmatrix}".to_string()]
    );
    assert_eq!(
        texts(&steps[2]),
        vec![
            "\\begin{bmatrix}Node: 1\\\\Node: 2\\\\Node: 3\\\\SRC(V)4: 32 V\\\\SRC(V)5: 20 V\\\\\\end{bmatrix}"
                .to_string()
        ]
    );
    assert!(steps[4].sub_steps.is_empty());
}

#[test]
fn inverse_step_is_a_placeholder() {
    let solver = NodeSolver::new(create_mna_container()).unwrap();
    let steps = solver.solve().unwrap();
    assert_eq!(steps[3].label, "Inverse A Matrix");
    assert_eq!(steps[3].sub_steps.len(), 1);
    assert!(matches!(&steps[3].sub_steps[0], Operation::Text(t) if t == "TODO"));
}

#[test]
fn final_equation_is_built_from_the_matrix_texts() {
    let solver = NodeSolver::new(create_mna_container()).unwrap();
    let steps = solver.solve().unwrap();
    let a = solver.a_matrix.equation_repr();
    let x = solver.x_matrix.equation_repr();
    let z = solver.z_matrix.equation_repr();
    assert_eq!(texts(&steps[5]), vec![format!("{} = {}^{{-1}} * {}", x, a, z)]);
    assert_eq!(
        a,
        "\\begin{bmatrix}1/R1 &  &  & -1 & 0\\\\ & 1/R2 + 1/R3 & -1/R2 & 1 & 0\\\\ & -1/R2 & 1/R2 & 0 & 1\\\\-1 & 1 & 0 & 0 & 0\\\\0 & 0 & 1 & 0 & 0\\\\\\end{bmatrix}"
    );
}

#[test]
fn solved_example_is_the_matrix_solution_of_the_example() {
    let steps = return_solved_matrix_example().unwrap();
    let solver = NodeSolver::new(create_mna_container()).unwrap();
    let expected = solver.solve().unwrap();
    assert_eq!(steps.len(), expected.len());
    for (step, wanted) in steps.iter().zip(expected.iter()) {
        assert_eq!(step.label, wanted.label);
        assert_eq!(texts(step), texts(wanted));
    }
}

#[test]
fn mesh_solution_is_refused() {
    let matrix = solve::<NodeSolver>(true, false, mna_setup());
    assert_eq!(
        matrix.err(),
        Some("Matrix Solver not implemented for meshes".to_string())
    );
    let step = solve::<NodeSolver>(false, false, mna_setup());
    assert_eq!(
        step.err(),
        Some("Step Solver not implemented for meshes".to_string())
    );
}

#[test]
fn nodal_solution_by_matrix() {
    let steps = solve::<NodeSolver>(true, true, mna_setup()).unwrap();
    assert_eq!(steps.len(), 6);
    assert_eq!(steps[0].label, "A Matrix");
}

#[test]
fn invalid_circuit_is_not_solved() {
    let setup = ContainerSetup {
        elements: vec![Element::new(Component::Resistor, 5, vec![], vec![])],
    };
    let r = solve::<NodeSolver>(true, true, setup);
    assert_eq!(
        r.err(),
        Some("Multiple Issues: [KnownIssue(\"Not connected: R0: 5 Ω\")]".to_string())
    );
}

#[test]
fn unresolved_connection_is_reported() {
    let setup = ContainerSetup {
        elements: vec![
            Element::new(Component::Ground, 0, vec![1], vec![]),
            Element::new(Component::Resistor, 5, vec![0], vec![7]),
        ],
    };
    let r = solve::<NodeSolver>(true, true, setup);
    assert_eq!(
        r.err(),
        Some("Known Issue: Unresolved connection: R1: 5 Ω".to_string())
    );
}

#[test]
fn solver_refuses_unresolved_connection() {
    let c = circuit_solver::container::Container::from(vec![
        Element::new(Component::Ground, 0, vec![1], vec![]),
        Element::new(Component::VoltageSrc, 5, vec![0], vec![9]),
    ]);
    let r = NodeSolver::new(c);
    assert_eq!(
        r.err(),
        Some("Known Issue: Unresolved connection: SRC(V)1: 5 V".to_string())
    );
}

#[test]
fn loading_checks_the_circuit() {
    assert_eq!(
        load_wasm_container(mna_setup()).unwrap(),
        "Loaded Successfully"
    );
    let bad = ContainerSetup {
        elements: vec![Element::new(Component::Resistor, 5, vec![0], vec![])],
    };
    match load_wasm_container(bad) {
        Err(StatusError::MultipleIssues(list)) => {
            assert_eq!(list.len(), 1);
            assert_eq!(
                list[0].to_text(),
                "Known Issue: Connected to itself: R0: 5 Ω"
            );
        }
        _ => panic!("the circuit was loaded"),
    }
}

#[test]
fn tools_are_the_members_of_the_nodes() {
    assert_eq!(
        get_tools(mna_setup()).unwrap(),
        vec![vec![2, 5], vec![2, 3, 4], vec![1, 4]]
    );
}

#[test]
fn test_containers_by_number() {
    assert_eq!(test_container(0).get_elements().len(), 4);
    assert_eq!(test_container(1).get_elements()[2].class, Component::VoltageSrc);
    assert_eq!(test_container(2).get_elements()[3].class, Component::CurrentSrc);
    assert_eq!(test_container(3).get_elements().len(), 6);
    assert_eq!(test_container(4).get_elements().len(), 5);
    assert_eq!(test_container(17).get_elements().len(), 4);
    assert_eq!(test_container(-1).get_elements().len(), 4);
}

#[test]
fn reduction_lists_nodes_and_super_nodes() {
    let solver = NodeStepSolver::new(create_mna_container()).unwrap();
    let steps = solver.solve().unwrap();
    let labels: Vec<&str> = steps.iter().map(|s| s.label.as_str()).collect();
    assert_eq!(
        labels,
        vec!["Node: 1", "Node: 2", "Node: 3", "Super-node: 1", "Super-node: 2"]
    );
    assert_eq!(texts(&steps[0]), vec!["R2: 4 Ω", "SRC(V)5: 20 V"]);
    assert_eq!(texts(&steps[2]), vec!["R1: 2 Ω", "SRC(V)4: 32 V"]);
    assert_eq!(
        texts(&steps[4]),
        vec!["R1: 2 Ω", "R2: 4 Ω", "R3: 8 Ω", "SRC(V)4: 32 V"]
    );
}

#[test]
fn step_examples() {
    let example = return_solved_step_example().unwrap();
    assert_eq!(example.len(), 5);
    let third = solve_test_container(3).unwrap();
    assert_eq!(third.len(), example.len());
    for (step, wanted) in third.iter().zip(example.iter()) {
        assert_eq!(step.label, wanted.label);
        assert_eq!(texts(step), texts(wanted));
    }
    let first = solve_test_container(1).unwrap();
    let labels: Vec<&str> = first.iter().map(|s| s.label.as_str()).collect();
    assert_eq!(labels, vec!["Node: 1", "Node: 2", "Super-node: 1"]);
    assert_eq!(solve_test_container(0).unwrap().len(), 4);
    let steps = solve::<NodeStepSolver>(false, true, mna_setup()).unwrap();
    assert_eq!(steps.len(), 5);
}
