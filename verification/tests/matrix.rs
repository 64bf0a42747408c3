use circuit_solver::matrix::Matrix;

#[test]
fn zeros_have_the_shape_and_zero_cells() {
    let m = Matrix::zeros(2, 3);
    assert_eq!((m.rows(), m.cols()), (2, 3));
    assert_eq!(
        m.render(),
        vec![vec!["0", "0", "0"], vec!["0", "0", "0"]]
    );
    assert_eq!(m.get(1, 2).map(|c| c.equation_repr()), Some("0".to_string()));
    assert!(m.get(2, 0).is_none());
    assert!(m.get(0, 3).is_none());
}

#[test]
fn empty_matrices_keep_their_width() {
    let m = Matrix::zeros(0, 4);
    assert_eq!((m.rows(), m.cols()), (0, 4));
    assert!(m.render().is_empty());
    assert_eq!(m.equation_repr(), "\\begin{bmatrix}\\end{bmatrix}");
    let n = Matrix::zeros(2, 0);
    assert_eq!((n.rows(), n.cols()), (2, 0));
    assert_eq!(n.equation_repr(), "\\begin{bmatrix}\\\\\\\\\\end{bmatrix}");
    assert!(Matrix::fits(0, usize::MAX / 4));
    assert!(!Matrix::fits(usize::MAX, 2));
    assert!(!Matrix::fits(0, usize::MAX));
}

#[test]
fn matrix_text_is_laid_out_in_rows() {
    let m = Matrix::zeros(2, 2);
    assert_eq!(m.equation_repr(), "\\begin{bmatrix}0 & 0\\\\0 & 0\\\\\\end{bmatrix}");
    assert_eq!(m.clone().equation_repr(), m.equation_repr());
}

#[test]
fn cells_of_the_worked_example_can_be_read_one_by_one() {
    let mut c = circuit_solver::util::create_mna_container();
    c.create_nodes().unwrap();
    let a = circuit_solver::solvers::node_matrix_solver::form_a_matrix(&c, 3, 2);
    assert_eq!(a.get(1, 1).map(|c| c.equation_repr()), Some("1/R2 + 1/R3".to_string()));
    assert_eq!(a.get(0, 3).map(|c| c.equation_repr()), Some("-1".to_string()));
    assert_eq!(a.get(3, 0).map(|c| c.equation_repr()), Some("-1".to_string()));
    assert_eq!(a.get(4, 2).map(|c| c.equation_repr()), Some("1".to_string()));
    assert!(a.get(5, 0).is_none());
    let copy = a.clone();
    assert_eq!(copy.render(), a.render());
    assert_eq!((copy.rows(), copy.cols()), (5, 5));
}
