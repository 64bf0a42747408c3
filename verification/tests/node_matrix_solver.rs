use circuit_solver::solvers::node_matrix_solver::{
    form_a_matrix, form_b_matrix, form_c_matrix, form_d_matrix, form_g_matrix, form_x_matrix,
    form_z_matrix, NodeSolver,
};
use circuit_solver::solvers::solver::Solver;
use circuit_solver::util::{create_mna_container, create_mna_container_2};

fn table(rows: &[&[&str]]) -> Vec<Vec<String>> {
    rows.iter()
        .map(|row| row.iter().map(|cell| cell.to_string()).collect())
        .collect()
}

#[test]
fn test_node_solver() {
    let mut c = create_mna_container();
    c.create_nodes().unwrap();
    let _solver: NodeSolver = Solver::new(c).unwrap();
}

#[test]
fn test_a_matrix() {
    let expected = table(&[
        &["1/R1", "", "", "-1", "0"],
        &["", "1/R2 + 1/R3", "-1/R2", "1", "0"],
        &["", "-1/R2", "1/R2", "0", "1"],
        &["-1", "1", "0", "0", "0"],
        &["0", "0", "1", "0", "0"],
    ]);

    let mut c = create_mna_container();
    c.create_nodes().unwrap();
    let solver: NodeSolver = Solver::new(c).unwrap();

    assert_eq!(solver.a_matrix.render(), expected);
}

#[test]
fn test_g_matrix() {
    let expected = table(&[
        &["1/R1", "", ""],
        &["", "1/R2 + 1/R3", "-1/R2"],
        &["", "-1/R2", "1/R2"],
    ]);

    let mut c = create_mna_container();
    c.create_nodes().unwrap();
    let n = c.nodes().len();

    assert_eq!(form_g_matrix(&c, n).render(), expected);
}

#[test]
fn test_b_matrix() {
    let expected = table(&[&["-1", "0"], &["1", "0"], &["0", "1"]]);

    let mut c = create_mna_container();
    c.create_nodes().unwrap();
    let n = c.nodes().len();
    let m = c.get_voltage_sources().len();

    assert_eq!(form_b_matrix(&c, n, m).render(), expected);
}

#[test]
fn test_c_matrix() {
    let expected = table(&[&["-1", "1", "0"], &["0", "0", "1"]]);

    let mut c = create_mna_container();
    c.create_nodes().unwrap();
    let n = c.nodes().len();
    let m = c.get_voltage_sources().len();

    assert_eq!(form_c_matrix(&c, n, m).render(), expected);
}

#[test]
fn test_d_matrix() {
    let expected = table(&[&["0", "0"], &["0", "0"]]);

    let mut c = create_mna_container();
    c.create_nodes().unwrap();
    let _n = c.nodes().len();
    let m = c.get_voltage_sources().len();

    assert_eq!(form_d_matrix(&c, m).render(), expected);
}

#[test]
fn test_x_matrix() {
    let expected = table(&[
        &["Node: 1"],
        &["Node: 2"],
        &["Node: 3"],
        &["SRC(V)4: 32 V"],
        &["SRC(V)5: 20 V"],
    ]);

    let mut c = create_mna_container();
    c.create_nodes().unwrap();
    let solver: NodeSolver = Solver::new(c).unwrap();

    assert_eq!(solver.x_matrix.render(), expected);
}

#[test]
fn test_z_matrix() {
    let expected = table(&[&["0"], &["0"], &["0"], &["32"], &["20"]]);

    let mut c = create_mna_container();
    c.create_nodes().unwrap();
    let solver: NodeSolver = Solver::new(c).unwrap();

    assert_eq!(solver.z_matrix.render(), expected);
}

#[test]
fn system_matrix_has_one_row_per_unknown() {
    let mut c = create_mna_container();
    c.create_nodes().unwrap();
    let n = c.nodes().len();
    let m = c.get_voltage_sources().len();
    assert_eq!((n, m), (3, 2));
    let a = form_a_matrix(&c, n, m);
    let x = form_x_matrix(&c, n, m);
    let z = form_z_matrix(&c, n, m);
    assert_eq!((a.rows(), a.cols()), (5, 5));
    assert_eq!((x.rows(), x.cols()), (5, 1));
    assert_eq!((z.rows(), z.cols()), (5, 1));
}

#[test]
fn quadrants_of_the_system_matrix_are_the_four_matrices() {
    let mut c = create_mna_container();
    c.create_nodes().unwrap();
    let n = c.nodes().len();
    let m = c.get_voltage_sources().len();
    let a = form_a_matrix(&c, n, m).render();
    let g = form_g_matrix(&c, n).render();
    let b = form_b_matrix(&c, n, m).render();
    let cc = form_c_matrix(&c, n, m).render();
    let d = form_d_matrix(&c, m).render();
    for row in 0..n + m {
        for col in 0..n + m {
            let expected = if row < n && col < n {
                &g[row][col]
            } else if row < n {
                &b[row][col - n]
            } else if col < n {
                &cc[row - n][col]
            } else {
                &d[row - n][col - n]
            };
            assert_eq!(&a[row][col], expected);
        }
    }
}

#[test]
fn c_is_b_transposed() {
    let mut c = create_mna_container_2();
    c.create_nodes().unwrap();
    let n = c.nodes().len();
    let m = c.get_voltage_sources().len();
    let b = form_b_matrix(&c, n, m).render();
    let t = form_c_matrix(&c, n, m).render();
    assert_eq!(t.len(), m);
    for row in 0..m {
        assert_eq!(t[row].len(), n);
        for col in 0..n {
            assert_eq!(t[row][col], b[col][row]);
        }
    }
}

#[test]
fn current_sources_fill_the_right_hand_side() {
    let mut c = create_mna_container_2();
    c.create_nodes().unwrap();
    let n = c.nodes().len();
    let m = c.get_voltage_sources().len();
    assert_eq!((n, m), (2, 1));
    // The walk finds the node of the voltage source first, then the node of
    // the current source.
    assert_eq!(c.nodes()[0].members, vec![3, 4]);
    assert_eq!(c.nodes()[1].members, vec![1, 2, 3]);
    assert_eq!(
        form_z_matrix(&c, n, m).render(),
        table(&[&["0"], &["3"], &["12"]])
    );
    assert_eq!(
        form_x_matrix(&c, n, m).render(),
        table(&[&["Node: 1"], &["Node: 2"], &["SRC(V)4: 12 V"]])
    );
    assert_eq!(
        form_g_matrix(&c, n).render(),
        table(&[&["1/R2 + 1/R3", "-1/R3"], &["-1/R3", "1/R3"]])
    );
    assert_eq!(form_b_matrix(&c, n, m).render(), table(&[&["0"], &["-1"]]));
}

#[test]
fn last_found_node_has_the_first_row() {
    let mut c = create_mna_container();
    c.create_nodes().unwrap();
    let nodes = c.nodes();
    assert_eq!(nodes.len(), 3);
    assert_eq!(nodes[2].id, 3);
    // The node that was found last holds the resistor of id 1 alone.
    assert_eq!(nodes[2].members, vec![1, 4]);
    let g = form_g_matrix(&c, 3).render();
    assert_eq!(g[0][0], "1/R1");
    assert_eq!(g[2][2], "1/R2");
}
