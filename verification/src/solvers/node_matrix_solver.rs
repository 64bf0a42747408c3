//! The matrices of modified nodal analysis, and the solver that shows them.
//!
//! For a circuit with `n` nodes and `m` voltage sources the unknowns are the
//! `n` node voltages and the `m` currents through the sources. In the
//! matrices that relate nodes to each other and to sources, the node at
//! position `i` of the container has row and column `n - 1 - i`: the node that
//! was found last comes first.
use crate::algebra::{
    expr_text, lemma_sum_view, lemma_zero_text, nat_text, terms_view, Expr, Operation,
};
use crate::component::Component;
use crate::container::{
    is_first_unresolved, unresolved_issue, voltage_sources, well_placed, Container, Topology,
};
use crate::elements::{contains_id, Element, ElementView};
use crate::matrix::{
    lemma_grid_cells, lemma_is_grid, lemma_shape_fits_within, matrix_cells, matrix_text, Matrix,
};
use crate::node::{node_views, Node, NodeView};
use crate::solvers::solver::{step_views, Solver, Step, StepView};
use crate::topology::{circuit_of, nodes_of, resolved};
use crate::util::PrettyPrint;
use crate::validation::issue_text;
use vstd::prelude::*;
use vstd::string::*;

verus! {

/// The reciprocal of the resistance of a resistor, with the resistor as a
/// labelled variable.
pub open spec fn conductance(resistor: ElementView) -> Expr {
    Expr::Divide(
        Some(Box::new(Expr::Value(1))),
        Some(Box::new(Expr::Variable(resistor.basic_text(), resistor.value))),
    )
}

/// The conductances of the resistors among the first `count` members, in the
/// order of the members.
pub open spec fn conductance_terms(circuit: Seq<ElementView>, members: Seq<usize>, count: nat) -> Seq<
    Expr,
>
    decreases count,
{
    if count == 0 || count > members.len() {
        Seq::empty()
    } else {
        let before = conductance_terms(circuit, members, (count - 1) as nat);
        let element = circuit[members[count - 1] as int];
        if element.class == Component::Resistor {
            before.push(conductance(element))
        } else {
            before
        }
    }
}

/// The negated conductances of the resistors among the first `count` members
/// that are members of `other` too, in the order of the members.
pub open spec fn bridge_terms(
    circuit: Seq<ElementView>,
    members: Seq<usize>,
    other: Seq<usize>,
    count: nat,
) -> Seq<Expr>
    decreases count,
{
    if count == 0 || count > members.len() {
        Seq::empty()
    } else {
        let before = bridge_terms(circuit, members, other, (count - 1) as nat);
        let element = circuit[members[count - 1] as int];
        if element.class == Component::Resistor && other.contains(members[count - 1]) {
            before.push(Expr::Negate(Some(Box::new(conductance(element)))))
        } else {
            before
        }
    }
}

/// The values of the current sources among the first `count` members, as
/// literals, in the order of the members.
pub open spec fn current_terms(circuit: Seq<ElementView>, members: Seq<usize>, count: nat) -> Seq<
    Expr,
>
    decreases count,
{
    if count == 0 || count > members.len() {
        Seq::empty()
    } else {
        let before = current_terms(circuit, members, (count - 1) as nat);
        let element = circuit[members[count - 1] as int];
        if element.class == Component::CurrentSrc {
            before.push(Expr::Value(element.value))
        } else {
            before
        }
    }
}

/// The cell of the conductance matrix in the given row and column.
///
/// On the diagonal it is the sum of the conductances of the resistors at the
/// node of the row. Off the diagonal it is the sum of the negated conductances
/// of the resistors that lie at the node of the row and at the node of the
/// column; where no resistor does, that is the empty sum.
pub open spec fn g_cell(circuit: Seq<ElementView>, nodes: Seq<NodeView>, row: int, col: int) -> Expr {
    let first = nodes[nodes.len() - 1 - row].members;
    let second = nodes[nodes.len() - 1 - col].members;
    if row == col {
        Expr::Sum(conductance_terms(circuit, first, first.len()))
    } else {
        Expr::Sum(bridge_terms(circuit, first, second, first.len()))
    }
}

/// How a node stands to a voltage source: 0 where the source is no member of
/// the node; otherwise -1 where the first member of the node is listed at the
/// positive terminal of the source, and 1 where it is not.
pub open spec fn incidence(circuit: Seq<ElementView>, node: NodeView, source: usize) -> Expr {
    if !node.members.contains(source) {
        Expr::Value(0)
    } else if circuit[source as int].positive.contains(node.members[0]) {
        Expr::Value(-1)
    } else {
        Expr::Value(1)
    }
}

/// The cell of the incidence matrix in the row of a node and the column of a
/// voltage source.
pub open spec fn b_cell(circuit: Seq<ElementView>, nodes: Seq<NodeView>, row: int, col: int) -> Expr {
    incidence(circuit, nodes[nodes.len() - 1 - row], voltage_sources(circuit)[col])
}

/// The cell of the transposed incidence matrix in the row of a voltage source
/// and the column of a node.
pub open spec fn c_cell(circuit: Seq<ElementView>, nodes: Seq<NodeView>, row: int, col: int) -> Expr {
    b_cell(circuit, nodes, col, row)
}

/// The cell of the system matrix: the conductance matrix in the upper left,
/// the incidence matrix in the upper right, its transpose in the lower left,
/// and zeros in the lower right.
pub open spec fn a_cell(circuit: Seq<ElementView>, nodes: Seq<NodeView>, row: int, col: int) -> Expr {
    let n = nodes.len() as int;
    if row < n && col < n {
        g_cell(circuit, nodes, row, col)
    } else if row < n {
        b_cell(circuit, nodes, row, col - n)
    } else if col < n {
        c_cell(circuit, nodes, row - n, col)
    } else {
        Expr::Value(0)
    }
}

/// The cell of the right-hand side in the given row.
///
/// The row of the node at position `row` holds the sum of the values of the
/// current sources at the node, and the literal zero where there is none. The
/// rows after the nodes hold the values of the voltage sources.
pub open spec fn z_cell(circuit: Seq<ElementView>, nodes: Seq<NodeView>, row: int) -> Expr {
    let n = nodes.len() as int;
    if row < n {
        let terms = current_terms(circuit, nodes[row].members, nodes[row].members.len());
        if terms.len() == 0 {
            Expr::Value(0)
        } else {
            Expr::Sum(terms)
        }
    } else {
        Expr::Value(circuit[voltage_sources(circuit)[row - n] as int].value)
    }
}

/// The cell of the vector of unknowns in the given row: a variable that is
/// labelled with the node at position `row`, or with the voltage source of a
/// row after the nodes. Its value is the placeholder 0.
pub open spec fn x_cell(circuit: Seq<ElementView>, nodes: Seq<NodeView>, row: int) -> Expr {
    let n = nodes.len() as int;
    if row < n {
        Expr::Variable("Node: "@ + nat_text(nodes[row].id), 0)
    } else {
        Expr::Variable(circuit[voltage_sources(circuit)[row - n] as int].pretty_text(), 0)
    }
}

/// Whether the matrices can be built for a container: its nodes were built,
/// and `n` and `m` are the numbers of its nodes and of its voltage sources.
pub open spec fn assembles(container: &Container, n: usize, m: usize) -> bool {
    &&& container.wf()
    &&& container.topology() == Topology::Built
    &&& n == container.node_list().len()
    &&& m == voltage_sources(container.circuit()).len()
}

fn reciprocal(resistor: &Element) -> (r: Operation)
    ensures
        r@ == conductance(resistor@),
{
    proof {
        reveal_with_fuel(crate::algebra::operation_view, 3);
        reveal_with_fuel(crate::algebra::operand_view, 3);
    }
    Operation::Divide(Some(Box::new(Operation::Value(1))), Some(Box::new(resistor.variable())))
}

fn node_conductances(elements: &Vec<Element>, members: &Vec<usize>) -> (terms: Vec<Operation>)
    requires
        forall|k: int| 0 <= k < members@.len() ==> members@[k] < elements@.len(),
    ensures
        terms_view(terms@) == conductance_terms(circuit_of(elements@), members@, members@.len()),
{
    let ghost circuit = circuit_of(elements@);
    let mut terms: Vec<Operation> = Vec::new();
    let mut k: usize = 0;
    assert(terms_view(terms@) =~= conductance_terms(circuit, members@, 0));
    while k < members.len()
        invariant
            k <= members.len(),
            circuit == circuit_of(elements@),
            forall|k: int| 0 <= k < members@.len() ==> members@[k] < elements@.len(),
            terms_view(terms@) == conductance_terms(circuit, members@, k as nat),
        decreases members.len() - k,
    {
        let element = &elements[members[k]];
        assert(circuit[members@[k as int] as int] == element@);
        if element.class == Component::Resistor {
            let ghost before = terms_view(terms@);
            let term = reciprocal(element);
            terms.push(term);
            assert(terms_view(terms@) =~= before.push(conductance(element@)));
        }
        k += 1;
    }
    terms
}

fn node_bridges(elements: &Vec<Element>, members: &Vec<usize>, other: &Vec<usize>) -> (terms: Vec<
    Operation,
>)
    requires
        forall|k: int| 0 <= k < members@.len() ==> members@[k] < elements@.len(),
    ensures
        terms_view(terms@) == bridge_terms(circuit_of(elements@), members@, other@, members@.len()),
{
    let ghost circuit = circuit_of(elements@);
    let mut terms: Vec<Operation> = Vec::new();
    let mut k: usize = 0;
    assert(terms_view(terms@) =~= bridge_terms(circuit, members@, other@, 0));
    while k < members.len()
        invariant
            k <= members.len(),
            circuit == circuit_of(elements@),
            forall|k: int| 0 <= k < members@.len() ==> members@[k] < elements@.len(),
            terms_view(terms@) == bridge_terms(circuit, members@, other@, k as nat),
        decreases members.len() - k,
    {
        let element = &elements[members[k]];
        assert(circuit[members@[k as int] as int] == element@);
        if element.class == Component::Resistor && contains_id(other, members[k]) {
            let ghost before = terms_view(terms@);
            let term = Operation::Negate(Some(Box::new(reciprocal(element))));
            proof {
                reveal_with_fuel(crate::algebra::operation_view, 2);
                reveal_with_fuel(crate::algebra::operand_view, 2);
            }
            terms.push(term);
            assert(terms_view(terms@) =~= before.push(
                Expr::Negate(Some(Box::new(conductance(element@)))),
            ));
        }
        k += 1;
    }
    terms
}

fn node_currents(elements: &Vec<Element>, members: &Vec<usize>) -> (terms: Vec<Operation>)
    requires
        forall|k: int| 0 <= k < members@.len() ==> members@[k] < elements@.len(),
    ensures
        terms_view(terms@) == current_terms(circuit_of(elements@), members@, members@.len()),
{
    let ghost circuit = circuit_of(elements@);
    let mut terms: Vec<Operation> = Vec::new();
    let mut k: usize = 0;
    assert(terms_view(terms@) =~= current_terms(circuit, members@, 0));
    while k < members.len()
        invariant
            k <= members.len(),
            circuit == circuit_of(elements@),
            forall|k: int| 0 <= k < members@.len() ==> members@[k] < elements@.len(),
            terms_view(terms@) == current_terms(circuit, members@, k as nat),
        decreases members.len() - k,
    {
        let element = &elements[members[k]];
        assert(circuit[members@[k as int] as int] == element@);
        if element.class == Component::CurrentSrc {
            let ghost before = terms_view(terms@);
            terms.push(Operation::Value(element.value));
            assert(terms_view(terms@) =~= before.push(Expr::Value(element@.value)));
        }
        k += 1;
    }
    terms
}

/// The conductance matrix of the circuit: `n` rows and `n` columns.
pub fn form_g_matrix(container: &Container, n: usize) -> (g: Matrix)
    requires
        assembles(container, n, voltage_sources(container.circuit()).len() as usize),
        Matrix::shape_fits(n as nat, n as nat),
    ensures
        g.is_grid(
            n as nat,
            n as nat,
            |row: int, col: int| g_cell(container.circuit(), container.node_list(), row, col),
        ),
{
    let ghost circuit = container.circuit();
    let ghost views = container.node_list();
    let ghost cell = |row: int, col: int| g_cell(circuit, views, row, col);
    let mut matrix = Matrix::zeros(n, n);
    let nodes = container.nodes();
    let elements = container.get_elements();
    proof {
        lemma_grid_cells(matrix, n as nat, n as nat, |i: int, j: int| Expr::Value(0));
    }
    let mut i: usize = 0;
    while i < n
        invariant
            i <= n,
            n == views.len(),
            views == node_views(nodes@),
            circuit == circuit_of(elements@),
            well_placed(views, circuit.len()),
            matrix.shaped(n as nat, n as nat),
            forall|row: int, col: int|
                n - i <= row < n && 0 <= col < n ==> #[trigger] matrix.cell(row, col) == g_cell(
                    circuit,
                    views,
                    row,
                    col,
                ),
        decreases n - i,
    {
        let mut j: usize = 0;
        while j < n
            invariant
                i < n,
                j <= n,
                n == views.len(),
                views == node_views(nodes@),
                circuit == circuit_of(elements@),
                well_placed(views, circuit.len()),
                matrix.shaped(n as nat, n as nat),
                forall|row: int, col: int|
                    0 <= col < n && (n - i <= row < n || (row == n - 1 - i && n - j <= col))
                        ==> #[trigger] matrix.cell(row, col) == g_cell(circuit, views, row, col),
            decreases n - j,
        {
            assert(views[i as int] == nodes@[i as int]@);
            assert(views[j as int] == nodes@[j as int]@);
            let terms = if i == j {
                node_conductances(elements, &nodes[i].members)
            } else {
                node_bridges(elements, &nodes[i].members, &nodes[j].members)
            };
            let sum = Operation::Sum(terms);
            proof {
                lemma_sum_view(terms);
                assert(sum@ == g_cell(circuit, views, n - 1 - i, n - 1 - j));
            }
            matrix.put(n - i - 1, n - j - 1, sum);
            j += 1;
        }
        i += 1;
    }
    proof {
        lemma_is_grid(matrix, n as nat, n as nat, cell);
    }
    matrix
}

/// The incidence matrix of the circuit: a row for every node and a column for
/// every voltage source.
pub fn form_b_matrix(container: &Container, n: usize, m: usize) -> (b: Matrix)
    requires
        assembles(container, n, m),
        Matrix::shape_fits(n as nat, m as nat),
    ensures
        b.is_grid(
            n as nat,
            m as nat,
            |row: int, col: int| b_cell(container.circuit(), container.node_list(), row, col),
        ),
{
    let ghost circuit = container.circuit();
    let ghost views = container.node_list();
    let ghost cell = |row: int, col: int| b_cell(circuit, views, row, col);
    let mut matrix = Matrix::zeros(n, m);
    let nodes = container.nodes();
    let elements = container.get_elements();
    let sources = container.get_voltage_sources();
    proof {
        lemma_grid_cells(matrix, n as nat, m as nat, |i: int, j: int| Expr::Value(0));
    }
    let mut i: usize = 0;
    while i < n
        invariant
            i <= n,
            n == views.len(),
            m == sources@.len(),
            views == node_views(nodes@),
            circuit == circuit_of(elements@),
            sources@ == voltage_sources(circuit),
            forall|k: int| 0 <= k < sources@.len() ==> sources@[k] < elements@.len(),
            well_placed(views, circuit.len()),
            matrix.shaped(n as nat, m as nat),
            forall|row: int, col: int|
                0 <= row < n && 0 <= col < m ==> #[trigger] matrix.cell(row, col) == (if n - i
                    <= row {
                    b_cell(circuit, views, row, col)
                } else {
                    Expr::Value(0)
                }),
        decreases n - i,
    {
        let mut j: usize = 0;
        while j < m
            invariant
                i < n,
                j <= m,
                n == views.len(),
                m == sources@.len(),
                views == node_views(nodes@),
                circuit == circuit_of(elements@),
                sources@ == voltage_sources(circuit),
                forall|k: int| 0 <= k < sources@.len() ==> sources@[k] < elements@.len(),
                well_placed(views, circuit.len()),
                matrix.shaped(n as nat, m as nat),
                forall|row: int, col: int|
                    0 <= row < n && 0 <= col < m ==> #[trigger] matrix.cell(row, col) == (if n - i
                        <= row || (row == n - 1 - i && col < j) {
                        b_cell(circuit, views, row, col)
                    } else {
                        Expr::Value(0)
                    }),
            decreases m - j,
        {
            assert(views[i as int] == nodes@[i as int]@);
            let node = &nodes[i];
            let source = sources[j];
            assert(circuit[source as int] == elements@[source as int]@);
            if node.contains(source) {
                let sign = if contains_id(&elements[source].positive, node.members[0]) {
                    Operation::Value(-1)
                } else {
                    Operation::Value(1)
                };
                assert(sign@ == b_cell(circuit, views, n - 1 - i, j as int));
                matrix.put(n - i - 1, j, sign);
            }
            j += 1;
        }
        i += 1;
    }
    proof {
        lemma_is_grid(matrix, n as nat, m as nat, cell);
    }
    matrix
}

/// The transposed incidence matrix of the circuit: a row for every voltage
/// source and a column for every node.
pub fn form_c_matrix(container: &Container, n: usize, m: usize) -> (c: Matrix)
    requires
        assembles(container, n, m),
        Matrix::shape_fits(n as nat, m as nat),
    ensures
        c.is_grid(
            m as nat,
            n as nat,
            |row: int, col: int| c_cell(container.circuit(), container.node_list(), row, col),
        ),
{
    let ghost circuit = container.circuit();
    let ghost views = container.node_list();
    let mut matrix = form_b_matrix(container, n, m);
    let ghost b = matrix;
    matrix.swap_axes(0, 1);
    proof {
        lemma_grid_cells(b, n as nat, m as nat, |row: int, col: int| b_cell(circuit, views, row, col));
        lemma_grid_cells(matrix, m as nat, n as nat, |i: int, j: int| b.cell(j, i));
        lemma_is_grid(matrix, m as nat, n as nat, |row: int, col: int| c_cell(circuit, views, row, col));
    }
    matrix
}

/// The matrix that relates the voltage sources to each other: `m` rows and
/// `m` columns of zeros.
pub fn form_d_matrix(_container: &Container, m: usize) -> (d: Matrix)
    requires
        Matrix::shape_fits(m as nat, m as nat),
    ensures
        d.is_grid(m as nat, m as nat, |row: int, col: int| Expr::Value(0)),
{
    Matrix::zeros(m, m)
}

/// The system matrix of the circuit, put together from the conductance
/// matrix, the incidence matrix, its transpose and the zero matrix.
pub fn form_a_matrix(container: &Container, n: usize, m: usize) -> (a: Matrix)
    requires
        assembles(container, n, m),
        n + m <= usize::MAX,
        Matrix::shape_fits((n + m) as nat, (n + m) as nat),
    ensures
        a.is_grid(
            (n + m) as nat,
            (n + m) as nat,
            |row: int, col: int| a_cell(container.circuit(), container.node_list(), row, col),
        ),
{
    let ghost circuit = container.circuit();
    let ghost views = container.node_list();
    let size = n + m;
    proof {
        lemma_shape_fits_within(n as nat, n as nat, size as nat, size as nat);
        lemma_shape_fits_within(n as nat, m as nat, size as nat, size as nat);
        lemma_shape_fits_within(m as nat, m as nat, size as nat, size as nat);
    }
    let mut matrix = Matrix::zeros(size, size);
    let g = form_g_matrix(container, n);
    let b = form_b_matrix(container, n, m);
    let c = form_c_matrix(container, n, m);
    let d = form_d_matrix(container, m);
    proof {
        lemma_grid_cells(matrix, size as nat, size as nat, |i: int, j: int| Expr::Value(0));
        lemma_grid_cells(g, n as nat, n as nat, |row: int, col: int| g_cell(circuit, views, row, col));
        lemma_grid_cells(b, n as nat, m as nat, |row: int, col: int| b_cell(circuit, views, row, col));
        lemma_grid_cells(c, m as nat, n as nat, |row: int, col: int| c_cell(circuit, views, row, col));
        lemma_grid_cells(d, m as nat, m as nat, |row: int, col: int| Expr::Value(0));
    }
    let ghost empty = matrix;
    matrix.assign_block(0, n, 0, n, &g);
    let ghost first = matrix;
    proof {
        lemma_grid_cells(
            first,
            size as nat,
            size as nat,
            |i: int, j: int|
                if 0 <= i < n && 0 <= j < n {
                    g.cell(i - 0, j - 0)
                } else {
                    empty.cell(i, j)
                },
        );
    }
    matrix.assign_block(0, n, n, size, &b);
    let ghost second = matrix;
    proof {
        lemma_grid_cells(
            second,
            size as nat,
            size as nat,
            |i: int, j: int|
                if 0 <= i < n && n <= j < size {
                    b.cell(i - 0, j - n)
                } else {
                    first.cell(i, j)
                },
        );
    }
    matrix.assign_block(n, size, 0, n, &c);
    let ghost third = matrix;
    proof {
        lemma_grid_cells(
            third,
            size as nat,
            size as nat,
            |i: int, j: int|
                if n <= i < size && 0 <= j < n {
                    c.cell(i - n, j - 0)
                } else {
                    second.cell(i, j)
                },
        );
    }
    matrix.assign_block(n, size, n, size, &d);
    proof {
        lemma_grid_cells(
            matrix,
            size as nat,
            size as nat,
            |i: int, j: int|
                if n <= i < size && n <= j < size {
                    d.cell(i - n, j - n)
                } else {
                    third.cell(i, j)
                },
        );
        lemma_is_grid(
            matrix,
            size as nat,
            size as nat,
            |row: int, col: int| a_cell(circuit, views, row, col),
        );
    }
    matrix
}

/// The right-hand side of the system: a column with a row for every node and
/// then a row for every voltage source.
pub fn form_z_matrix(container: &Container, n: usize, m: usize) -> (z: Matrix)
    requires
        assembles(container, n, m),
        n + m <= usize::MAX,
        Matrix::shape_fits((n + m) as nat, 1),
    ensures
        z.is_grid(
            (n + m) as nat,
            1,
            |row: int, col: int| z_cell(container.circuit(), container.node_list(), row),
        ),
{
    let ghost circuit = container.circuit();
    let ghost views = container.node_list();
    let size = n + m;
    let mut matrix = Matrix::zeros(size, 1);
    let nodes = container.nodes();
    let elements = container.get_elements();
    let sources = container.get_voltage_sources();
    proof {
        lemma_grid_cells(matrix, size as nat, 1, |i: int, j: int| Expr::Value(0));
    }
    let mut i: usize = 0;
    while i < n
        invariant
            i <= n,
            size == n + m,
            n == views.len(),
            views == node_views(nodes@),
            circuit == circuit_of(elements@),
            well_placed(views, circuit.len()),
            matrix.shaped(size as nat, 1),
            forall|row: int|
                0 <= row < size ==> #[trigger] matrix.cell(row, 0) == (if row < i {
                    z_cell(circuit, views, row)
                } else {
                    Expr::Value(0)
                }),
        decreases n - i,
    {
        assert(views[i as int] == nodes@[i as int]@);
        let terms = node_currents(elements, &nodes[i].members);
        if terms.len() > 0 {
            let sum = Operation::Sum(terms);
            proof {
                lemma_sum_view(terms);
                assert(terms_view(terms@).len() == terms@.len());
            }
            matrix.put(i, 0, sum);
        } else {
            assert(terms_view(terms@).len() == terms@.len());
        }
        i += 1;
    }
    let mut j: usize = 0;
    while j < m
        invariant
            j <= m,
            size == n + m,
            n == views.len(),
            m == sources@.len(),
            circuit == circuit_of(elements@),
            sources@ == voltage_sources(circuit),
            forall|k: int| 0 <= k < sources@.len() ==> sources@[k] < elements@.len(),
            matrix.shaped(size as nat, 1),
            forall|row: int|
                0 <= row < size ==> #[trigger] matrix.cell(row, 0) == (if row < n + j {
                    z_cell(circuit, views, row)
                } else {
                    Expr::Value(0)
                }),
        decreases m - j,
    {
        let source = &elements[sources[j]];
        assert(circuit[sources@[j as int] as int] == source@);
        matrix.put(n + j, 0, Operation::Value(source.value));
        j += 1;
    }
    proof {
        lemma_is_grid(matrix, size as nat, 1, |row: int, col: int| z_cell(circuit, views, row));
    }
    matrix
}

/// The unknowns of the system: a column with a row for every node voltage and
/// then a row for the current through every voltage source.
pub fn form_x_matrix(container: &Container, n: usize, m: usize) -> (x: Matrix)
    requires
        assembles(container, n, m),
        n + m <= usize::MAX,
        Matrix::shape_fits((n + m) as nat, 1),
    ensures
        x.is_grid(
            (n + m) as nat,
            1,
            |row: int, col: int| x_cell(container.circuit(), container.node_list(), row),
        ),
{
    let ghost circuit = container.circuit();
    let ghost views = container.node_list();
    let size = n + m;
    let mut matrix = Matrix::zeros(size, 1);
    let nodes = container.nodes();
    let elements = container.get_elements();
    let sources = container.get_voltage_sources();
    proof {
        lemma_grid_cells(matrix, size as nat, 1, |i: int, j: int| Expr::Value(0));
    }
    let mut i: usize = 0;
    while i < n
        invariant
            i <= n,
            size == n + m,
            n == views.len(),
            views == node_views(nodes@),
            matrix.shaped(size as nat, 1),
            forall|row: int|
                0 <= row < i ==> #[trigger] matrix.cell(row, 0) == x_cell(circuit, views, row),
        decreases n - i,
    {
        assert(views[i as int] == nodes@[i as int]@);
        matrix.put(i, 0, Operation::Variable(nodes[i].pretty_string(), 0));
        i += 1;
    }
    let mut j: usize = 0;
    while j < m
        invariant
            j <= m,
            size == n + m,
            n == views.len(),
            m == sources@.len(),
            circuit == circuit_of(elements@),
            sources@ == voltage_sources(circuit),
            forall|k: int| 0 <= k < sources@.len() ==> sources@[k] < elements@.len(),
            matrix.shaped(size as nat, 1),
            forall|row: int|
                0 <= row < n + j ==> #[trigger] matrix.cell(row, 0) == x_cell(circuit, views, row),
        decreases m - j,
    {
        let source = &elements[sources[j]];
        assert(circuit[sources@[j as int] as int] == source@);
        matrix.put(n + j, 0, Operation::Variable(source.label(), 0));
        j += 1;
    }
    proof {
        lemma_is_grid(matrix, size as nat, 1, |row: int, col: int| x_cell(circuit, views, row));
    }
    matrix
}

/// The number of unknowns of a circuit: its nodes and its voltage sources.
pub open spec fn unknowns(circuit: Seq<ElementView>) -> nat {
    nodes_of(circuit).len() + voltage_sources(circuit).len()
}

/// Whether the matrices of a circuit can be built: its terminals can be
/// numbered, every listed id is the id of an element, and the system matrix
/// can be allocated.
pub open spec fn solvable(circuit: Seq<ElementView>) -> bool {
    &&& 2 * circuit.len() <= usize::MAX
    &&& resolved(circuit)
    &&& Matrix::shape_fits(unknowns(circuit), unknowns(circuit))
}

/// Why no solver is made for a circuit that is not solvable.
pub open spec fn refused(circuit: Seq<ElementView>, message: Seq<char>) -> bool {
    if 2 * circuit.len() > usize::MAX {
        message == "Too many elements"@
    } else if !resolved(circuit) {
        exists|at: int| #[trigger]
            is_first_unresolved(circuit, at) && message == issue_text(unresolved_issue(circuit, at))
    } else {
        message == "Too many unknowns"@
    }
}

/// The step that shows a matrix: a variable that is labelled with the text of
/// the matrix.
pub open spec fn matrix_step(label: Seq<char>, cells: Seq<Seq<Expr>>) -> StepView {
    StepView { label, sub_steps: seq![Expr::Variable(matrix_text(cells), 0)] }
}

/// The text of the equation that gives the unknowns: the text of `x`, then of
/// `a` with the mark of the inverse, then of `z`.
pub open spec fn equation_text(a: Seq<Seq<Expr>>, x: Seq<Seq<Expr>>, z: Seq<Seq<Expr>>) -> Seq<char> {
    matrix_text(x) + " = "@ + matrix_text(a) + "^{-1} * "@ + matrix_text(z)
}

/// The steps that show the system `a * x = z`: the three matrices, a
/// placeholder for the inverse of `a`, which is not computed, and the equation
/// of the solution, after an empty step of the same label.
pub open spec fn matrix_steps(a: Seq<Seq<Expr>>, x: Seq<Seq<Expr>>, z: Seq<Seq<Expr>>) -> Seq<
    StepView,
> {
    seq![
        matrix_step("A Matrix"@, a),
        matrix_step("Z Matrix"@, z),
        matrix_step("X Matrix"@, x),
        StepView { label: "Inverse A Matrix"@, sub_steps: seq![Expr::Text("TODO"@)] },
        StepView { label: "Final Equation"@, sub_steps: Seq::empty() },
        StepView { label: "Final Equation"@, sub_steps: seq![Expr::Text(equation_text(a, x, z))] },
    ]
}

/// Whatever the matrices hold, the step of the inverse is the placeholder:
/// no inverted matrix is ever shown.
pub proof fn lemma_inverse_is_placeholder(a: Seq<Seq<Expr>>, x: Seq<Seq<Expr>>, z: Seq<Seq<Expr>>)
    ensures
        matrix_steps(a, x, z).len() == 6,
        matrix_steps(a, x, z)[3] == (StepView {
            label: "Inverse A Matrix"@,
            sub_steps: seq![Expr::Text("TODO"@)],
        }),
{
}

/// The solver that shows the matrix equation of a circuit.
pub struct NodeSolver {
    /// The container of the circuit, with its nodes built.
    pub container: Container,
    /// The system matrix.
    pub a_matrix: Matrix,
    /// The unknowns.
    pub x_matrix: Matrix,
    /// The right-hand side.
    pub z_matrix: Matrix,
}

fn single(label: &str, sub_step: Operation) -> (step: Step)
    ensures
        step@ == (StepView { label: label@, sub_steps: seq![sub_step@] }),
{
    let mut sub_steps: Vec<Operation> = Vec::new();
    sub_steps.push(sub_step);
    let step = Step { label: String::from_str(label), sub_steps };
    assert(step@.sub_steps =~= seq![sub_step@]);
    step
}

impl Solver for NodeSolver {
    /// Nothing is asked of the matrices of a solver: it shows what they hold.
    open spec fn ready(&self) -> bool {
        true
    }

    /// Builds the nodes of the container and the matrices of its circuit.
    ///
    /// The first `n` rows and columns belong to the nodes and the last `m` to
    /// the voltage sources.
    fn new(container: Container) -> (r: Result<Self, String>)
        ensures
            r is Ok <==> solvable(container.circuit()),
            r matches Ok(solver) ==> {
                let circuit = container.circuit();
                let nodes = nodes_of(circuit);
                let size = unknowns(circuit);
                &&& solver.container.wf()
                &&& solver.container.circuit() == circuit
                &&& solver.container.node_list() == nodes
                &&& solver.a_matrix.is_grid(
                    size,
                    size,
                    |row: int, col: int| a_cell(circuit, nodes, row, col),
                )
                &&& solver.x_matrix.is_grid(size, 1, |row: int, col: int| x_cell(circuit, nodes, row))
                &&& solver.z_matrix.is_grid(size, 1, |row: int, col: int| z_cell(circuit, nodes, row))
            },
            r matches Err(message) ==> refused(container.circuit(), message@),
    {
        let ghost circuit = container.circuit();
        let mut container = container;
        if container.get_elements().len() > usize::MAX / 2 {
            return Err(String::from_str("Too many elements"));
        }
        match container.create_nodes() {
            Err(e) => {
                return Err(e.to_text());
            },
            Ok(()) => {},
        }
        let n = container.nodes().len();
        let m = container.get_voltage_sources().len();
        match n.checked_add(m) {
            None => {
                assert(!Matrix::shape_fits(unknowns(circuit), unknowns(circuit))) by (nonlinear_arith)
                    requires
                        unknowns(circuit) > usize::MAX,
                        usize::MAX >= isize::MAX,
                ;
                Err(String::from_str("Too many unknowns"))
            },
            Some(size) => {
                if !Matrix::fits(size, size) {
                    return Err(String::from_str("Too many unknowns"));
                }
                proof {
                    if size > 0 {
                        lemma_shape_fits_within(size as nat, 1, size as nat, size as nat);
                    }
                }
                let a_matrix = form_a_matrix(&container, n, m);
                let x_matrix = form_x_matrix(&container, n, m);
                let z_matrix = form_z_matrix(&container, n, m);
                Ok(NodeSolver { container, a_matrix, x_matrix, z_matrix })
            },
        }
    }

    /// The steps that show the system of the circuit. The inverse of the
    /// system matrix is never computed: its step is a placeholder.
    fn solve(&self) -> (r: Result<Vec<Step>, String>)
        ensures
            r matches Ok(steps) && step_views(steps@) == matrix_steps(
                matrix_cells(self.a_matrix),
                matrix_cells(self.x_matrix),
                matrix_cells(self.z_matrix),
            ),
    {
        let a_text = self.a_matrix.equation_repr();
        let x_text = self.x_matrix.equation_repr();
        let z_text = self.z_matrix.equation_repr();
        let inverse_text = self.a_matrix.clone().equation_repr();
        let mut equation = x_text.clone();
        equation.append(" = ");
        equation.append(inverse_text.as_str());
        equation.append("^{-1} * ");
        equation.append(z_text.as_str());
        let mut steps: Vec<Step> = Vec::new();
        steps.push(single("A Matrix", Operation::Variable(a_text, 0)));
        steps.push(single("Z Matrix", Operation::Variable(z_text, 0)));
        steps.push(single("X Matrix", Operation::Variable(x_text, 0)));
        steps.push(single("Inverse A Matrix", Operation::Text(String::from_str("TODO"))));
        let empty = Step { label: String::from_str("Final Equation"), sub_steps: Vec::new() };
        assert(empty@.sub_steps =~= Seq::empty());
        steps.push(empty);
        steps.push(single("Final Equation", Operation::Text(equation)));
        assert(step_views(steps@) =~= matrix_steps(
            matrix_cells(self.a_matrix),
            matrix_cells(self.x_matrix),
            matrix_cells(self.z_matrix),
        ));
        Ok(steps)
    }
}

/// The system matrix has a row and a column for every unknown, and its four
/// quadrants are the conductance matrix, the incidence matrix, its transpose
/// and the zero matrix, cell by cell.
pub proof fn lemma_quadrants(
    circuit: Seq<ElementView>,
    nodes: Seq<NodeView>,
    a: Matrix,
    g: Matrix,
    b: Matrix,
    c: Matrix,
    d: Matrix,
)
    requires
        a.is_grid(
            nodes.len() + voltage_sources(circuit).len(),
            nodes.len() + voltage_sources(circuit).len(),
            |row: int, col: int| a_cell(circuit, nodes, row, col),
        ),
        g.is_grid(nodes.len(), nodes.len(), |row: int, col: int| g_cell(circuit, nodes, row, col)),
        b.is_grid(
            nodes.len(),
            voltage_sources(circuit).len(),
            |row: int, col: int| b_cell(circuit, nodes, row, col),
        ),
        c.is_grid(
            voltage_sources(circuit).len(),
            nodes.len(),
            |row: int, col: int| c_cell(circuit, nodes, row, col),
        ),
        d.is_grid(
            voltage_sources(circuit).len(),
            voltage_sources(circuit).len(),
            |row: int, col: int| Expr::Value(0),
        ),
    ensures
        a.shaped(
            nodes.len() + voltage_sources(circuit).len(),
            nodes.len() + voltage_sources(circuit).len(),
        ),
        forall|i: int, j: int|
            0 <= i < nodes.len() && 0 <= j < nodes.len() ==> #[trigger] a.cell(i, j) == g.cell(i, j),
        forall|i: int, j: int|
            0 <= i < nodes.len() && 0 <= j < voltage_sources(circuit).len() ==> a.cell(
                i,
                nodes.len() + j,
            ) == #[trigger] b.cell(i, j),
        forall|i: int, j: int|
            0 <= i < voltage_sources(circuit).len() && 0 <= j < nodes.len() ==> a.cell(
                nodes.len() + i,
                j,
            ) == #[trigger] c.cell(i, j),
        forall|i: int, j: int|
            0 <= i < voltage_sources(circuit).len() && 0 <= j < voltage_sources(circuit).len()
                ==> a.cell(nodes.len() + i, nodes.len() + j) == #[trigger] d.cell(i, j),
{
}

/// The right-hand side and the vector of unknowns have a row for every
/// unknown and a single column.
pub proof fn lemma_columns(circuit: Seq<ElementView>, nodes: Seq<NodeView>, x: Matrix, z: Matrix)
    requires
        x.is_grid(
            nodes.len() + voltage_sources(circuit).len(),
            1,
            |row: int, col: int| x_cell(circuit, nodes, row),
        ),
        z.is_grid(
            nodes.len() + voltage_sources(circuit).len(),
            1,
            |row: int, col: int| z_cell(circuit, nodes, row),
        ),
    ensures
        x.shaped(nodes.len() + voltage_sources(circuit).len(), 1),
        z.shaped(nodes.len() + voltage_sources(circuit).len(), 1),
{
}

/// The transposed incidence matrix holds in every cell what the incidence
/// matrix holds in the mirrored cell, and so it shows the same text there.
pub proof fn lemma_transpose(circuit: Seq<ElementView>, nodes: Seq<NodeView>, b: Matrix, c: Matrix)
    requires
        b.is_grid(
            nodes.len(),
            voltage_sources(circuit).len(),
            |row: int, col: int| b_cell(circuit, nodes, row, col),
        ),
        c.is_grid(
            voltage_sources(circuit).len(),
            nodes.len(),
            |row: int, col: int| c_cell(circuit, nodes, row, col),
        ),
    ensures
        c.height() == b.width(),
        c.width() == b.height(),
        forall|i: int, j: int|
            0 <= i < c.height() && 0 <= j < c.width() ==> #[trigger] c.cell(i, j) == b.cell(j, i)
                && expr_text(c.cell(i, j)) == expr_text(b.cell(j, i)),
{
}

/// Every cell of the matrix that relates the voltage sources to each other is
/// the literal zero and shows the text `0`, whatever the circuit holds.
pub proof fn lemma_d_is_zero(d: Matrix, m: nat)
    requires
        d.is_grid(m, m, |row: int, col: int| Expr::Value(0)),
    ensures
        forall|i: int, j: int|
            0 <= i < m && 0 <= j < m ==> #[trigger] d.cell(i, j) == Expr::Value(0) && expr_text(
                d.cell(i, j),
            ) == "0"@,
{
    lemma_zero_text();
}

/// Rows and columns run against the order of the nodes: the node at position
/// `at` has row and column `n - 1 - at` of the conductance matrix and row
/// `n - 1 - at` of the incidence matrix. The node that was found last has the
/// first row and the first column.
pub proof fn lemma_node_order(circuit: Seq<ElementView>, nodes: Seq<NodeView>, at: int)
    requires
        0 <= at < nodes.len(),
    ensures
        g_cell(circuit, nodes, nodes.len() - 1 - at, nodes.len() - 1 - at) == Expr::Sum(
            conductance_terms(circuit, nodes[at].members, nodes[at].members.len()),
        ),
        forall|other: int|
            0 <= other < nodes.len() && other != at ==> #[trigger] g_cell(
                circuit,
                nodes,
                nodes.len() - 1 - at,
                nodes.len() - 1 - other,
            ) == Expr::Sum(
                bridge_terms(
                    circuit,
                    nodes[at].members,
                    nodes[other].members,
                    nodes[at].members.len(),
                ),
            ),
        forall|col: int| #[trigger]
            b_cell(circuit, nodes, nodes.len() - 1 - at, col) == incidence(
                circuit,
                nodes[at],
                voltage_sources(circuit)[col],
            ),
        at == nodes.len() - 1 ==> g_cell(circuit, nodes, 0, 0) == Expr::Sum(
            conductance_terms(circuit, nodes[at].members, nodes[at].members.len()),
        ),
{
}

} // verus!
