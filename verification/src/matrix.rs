//! Two-dimensional arrays of expressions, stored in an `ndarray` array.
use crate::algebra::{expr_text, joined_text, Expr, Operation};
use vstd::prelude::*;
use vstd::string::*;

verus! {

/// A matrix of expressions.
///
/// The cells live in an `ndarray::Array2`, which the verifier does not look
/// into: what a matrix holds is known through [`matrix_cells`] and
/// [`matrix_width`], and only from the contracts of the methods below that
/// call `ndarray`.
#[verifier::external_body]
pub struct Matrix {
    cells: ndarray::Array2<Operation>,
}

/// The values of the cells of a matrix, row by row.
pub uninterp spec fn matrix_cells(m: Matrix) -> Seq<Seq<Expr>>;

/// The number of columns of a matrix, which is known also where it has no row.
pub uninterp spec fn matrix_width(m: Matrix) -> nat;

/// The grid with `rows` rows and `cols` columns that holds `cell(i, j)` in row
/// `i` and column `j`.
pub open spec fn grid(rows: nat, cols: nat, cell: spec_fn(int, int) -> Expr) -> Seq<Seq<Expr>> {
    Seq::new(rows, |i: int| Seq::new(cols, |j: int| cell(i, j)))
}

/// The text of the first `count` rows: the cells of a row are joined by
/// `" & "`, and every row ends with two backslashes.
pub open spec fn rows_text(cells: Seq<Seq<Expr>>, count: nat) -> Seq<char>
    decreases count,
{
    if count == 0 || count > cells.len() {
        Seq::empty()
    } else {
        rows_text(cells, (count - 1) as nat) + joined_text(
            cells[count - 1],
            cells[count - 1].len(),
            " & "@,
        ) + "\\\\"@
    }
}

/// The canonical text of a grid of expressions: its rows between the opening
/// and the closing mark of a bracketed matrix.
pub open spec fn matrix_text(cells: Seq<Seq<Expr>>) -> Seq<char> {
    "\\begin{bmatrix}"@ + rows_text(cells, cells.len()) + "\\end{bmatrix}"@
}

impl Matrix {
    /// The number of rows.
    pub open spec fn height(&self) -> nat {
        matrix_cells(*self).len()
    }

    /// The number of columns.
    pub open spec fn width(&self) -> nat {
        matrix_width(*self)
    }

    /// The value in row `i` and column `j`.
    pub open spec fn cell(&self, i: int, j: int) -> Expr {
        matrix_cells(*self)[i][j]
    }

    /// Every row has as many cells as the matrix has columns.
    pub open spec fn rectangular(&self) -> bool {
        forall|i: int|
            0 <= i < self.height() ==> (#[trigger] matrix_cells(*self)[i]).len() == self.width()
    }

    /// The matrix has the given shape and holds `cell(i, j)` in row `i` and
    /// column `j`.
    pub open spec fn is_grid(&self, rows: nat, cols: nat, cell: spec_fn(int, int) -> Expr) -> bool {
        &&& self.width() == cols
        &&& matrix_cells(*self) == grid(rows, cols, cell)
    }

    /// The matrix has the given shape, and every row has as many cells as the
    /// matrix has columns.
    pub open spec fn shaped(&self, rows: nat, cols: nat) -> bool {
        &&& self.height() == rows
        &&& self.width() == cols
        &&& self.rectangular()
    }

    /// Calls `ndarray::ArrayBase::from_elem` with the shape `(rows, cols)`.
    ///
    /// `from_elem` panics where the product of the non-zero axis lengths
    /// exceeds `isize::MAX`, which `requires` leaves out. The array it returns
    /// has that shape and a clone of `cell` in every position.
    #[verifier::external_body]
    pub(crate) fn filled(rows: usize, cols: usize, cell: Operation) -> (m: Matrix)
        requires
            (if rows == 0 { 1 } else { rows as int }) * (if cols == 0 { 1 } else { cols as int })
                <= isize::MAX,
        ensures
            m.is_grid(rows as nat, cols as nat, |i: int, j: int| cell@),
    {
        Matrix { cells: ndarray::Array2::from_elem((rows, cols), cell) }
    }

    /// Calls `ndarray::ArrayBase::nrows`, the length of the first axis. In a
    /// two-dimensional array every row has the length of the second axis.
    #[verifier::external_body]
    pub(crate) fn nrows(&self) -> (n: usize)
        ensures
            n == matrix_cells(*self).len(),
            forall|i: int|
                0 <= i < n ==> (#[trigger] matrix_cells(*self)[i]).len() == matrix_width(*self),
    {
        self.cells.nrows()
    }

    /// Calls `ndarray::ArrayBase::ncols`, the length of the second axis. In a
    /// two-dimensional array every row has that length.
    #[verifier::external_body]
    pub(crate) fn ncols(&self) -> (n: usize)
        ensures
            n == matrix_width(*self),
            forall|i: int|
                0 <= i < matrix_cells(*self).len() ==> (#[trigger] matrix_cells(*self)[i]).len()
                    == n,
    {
        self.cells.ncols()
    }

    /// Indexes the `ndarray` array with `[row, col]`, which panics outside the
    /// shape and otherwise refers to the cell in that row and column.
    #[verifier::external_body]
    pub(crate) fn at(&self, row: usize, col: usize) -> (cell: &Operation)
        requires
            row < self.height(),
            col < self.width(),
        ensures
            cell@ == self.cell(row as int, col as int),
    {
        &self.cells[[row, col]]
    }

    /// Assigns through the mutable index `[row, col]` of the `ndarray` array,
    /// which panics outside the shape and otherwise replaces that one cell.
    #[verifier::external_body]
    pub(crate) fn set(&mut self, row: usize, col: usize, cell: Operation)
        requires
            row < old(self).height(),
            col < old(self).width(),
        ensures
            matrix_width(*final(self)) == matrix_width(*old(self)),
            matrix_cells(*final(self)) == matrix_cells(*old(self)).update(
                row as int,
                matrix_cells(*old(self))[row as int].update(col as int, cell@),
            ),
    {
        self.cells[[row, col]] = cell;
    }

    /// Calls `ndarray::ArrayBase::slice_axis_mut` on the rows and on the
    /// columns, then `assign` on the window that is left.
    ///
    /// Slicing panics where a bound lies outside the axis; `assign` copies
    /// element by element where the shapes agree, and would broadcast or
    /// panic where they do not: `requires` leaves those inputs out. Cells
    /// outside the window keep their values.
    #[verifier::external_body]
    pub(crate) fn assign_block(
        &mut self,
        row_start: usize,
        row_end: usize,
        col_start: usize,
        col_end: usize,
        block: &Matrix,
    )
        requires
            row_start <= row_end <= old(self).height(),
            col_start <= col_end <= old(self).width(),
            block.height() == row_end - row_start,
            block.width() == col_end - col_start,
        ensures
            final(self).is_grid(
                old(self).height(),
                old(self).width(),
                |i: int, j: int|
                    if row_start <= i < row_end && col_start <= j < col_end {
                        block.cell(i - row_start, j - col_start)
                    } else {
                        old(self).cell(i, j)
                    },
            ),
    {
        let mut band = self.cells.slice_axis_mut(ndarray::Axis(0), ndarray::Slice::from(row_start..row_end));
        band.slice_axis_mut(ndarray::Axis(1), ndarray::Slice::from(col_start..col_end)).assign(&block.cells);
    }

    /// Calls `clone` of the `ndarray` array, which clones every cell into an
    /// array of the same shape.
    #[verifier::external_body]
    fn duplicate(&self) -> (m: Matrix)
        ensures
            matrix_width(m) == matrix_width(*self),
            matrix_cells(m) == matrix_cells(*self),
    {
        Matrix { cells: self.cells.clone() }
    }

    /// Calls `ndarray::ArrayBase::swap_axes`, which panics where an axis is
    /// not 0 or 1. Swapping the two axes transposes the matrix; swapping an
    /// axis with itself changes nothing.
    #[verifier::external_body]
    pub(crate) fn swap_axes(&mut self, ax: usize, bx: usize)
        requires
            ax < 2,
            bx < 2,
        ensures
            ax == bx ==> matrix_width(*final(self)) == matrix_width(*old(self)) && matrix_cells(
                *final(self),
            ) == matrix_cells(*old(self)),
            ax != bx ==> final(self).is_grid(
                old(self).width(),
                old(self).height(),
                |i: int, j: int| old(self).cell(j, i),
            ),
    {
        self.cells.swap_axes(ax, bx);
    }
}

impl Matrix {
    /// Whether a matrix of this shape can be allocated: the product of its
    /// non-zero side lengths is at most `isize::MAX`.
    pub open spec fn shape_fits(rows: nat, cols: nat) -> bool {
        (if rows == 0 { 1 } else { rows as int }) * (if cols == 0 { 1 } else { cols as int })
            <= isize::MAX
    }

    /// Replaces one cell and leaves the others as they are.
    pub(crate) fn put(&mut self, row: usize, col: usize, cell: Operation)
        requires
            old(self).rectangular(),
            row < old(self).height(),
            col < old(self).width(),
        ensures
            final(self).shaped(old(self).height(), old(self).width()),
            final(self).cell(row as int, col as int) == cell@,
            forall|i: int, j: int|
                0 <= i < old(self).height() && 0 <= j < old(self).width() && !(i == row && j == col)
                    ==> #[trigger] final(self).cell(i, j) == old(self).cell(i, j),
    {
        self.set(row, col, cell);
    }

    /// Whether a matrix of the given shape can be allocated.
    pub fn fits(rows: usize, cols: usize) -> (ok: bool)
        ensures
            ok == Self::shape_fits(rows as nat, cols as nat),
    {
        let tall: usize = if rows == 0 {
            1
        } else {
            rows
        };
        let wide: usize = if cols == 0 {
            1
        } else {
            cols
        };
        match tall.checked_mul(wide) {
            Some(cells) => cells <= isize::MAX as usize,
            None => false,
        }
    }

    /// The matrix of the given shape whose cells are all the literal zero.
    pub fn zeros(rows: usize, cols: usize) -> (m: Matrix)
        requires
            Self::shape_fits(rows as nat, cols as nat),
        ensures
            m.is_grid(rows as nat, cols as nat, |i: int, j: int| Expr::Value(0)),
    {
        Matrix::filled(rows, cols, Operation::Value(0))
    }

    /// The number of rows.
    pub fn rows(&self) -> (n: usize)
        ensures
            n == self.height(),
    {
        self.nrows()
    }

    /// The number of columns.
    pub fn cols(&self) -> (n: usize)
        ensures
            n == self.width(),
            self.rectangular(),
    {
        self.ncols()
    }

    /// A copy of the cell in the given row and column, or `None` where the
    /// matrix has no such cell.
    pub fn get(&self, row: usize, col: usize) -> (cell: Option<Operation>)
        ensures
            cell is Some <==> row < self.height() && col < self.width(),
            cell matches Some(c) ==> c@ == self.cell(row as int, col as int),
    {
        if row < self.nrows() && col < self.ncols() {
            Some(self.at(row, col).clone())
        } else {
            None
        }
    }

    /// The canonical text of every cell, row by row.
    pub fn render(&self) -> (texts: Vec<Vec<String>>)
        ensures
            texts@.len() == self.height(),
            forall|i: int| 0 <= i < self.height() ==> (#[trigger] texts@[i])@.len() == self.width(),
            forall|i: int, j: int|
                0 <= i < self.height() && 0 <= j < self.width() ==> (#[trigger] texts@[i]@[j])@
                    == expr_text(self.cell(i, j)),
    {
        let rows = self.nrows();
        let cols = self.ncols();
        let mut texts: Vec<Vec<String>> = Vec::new();
        let mut i: usize = 0;
        while i < rows
            invariant
                i <= rows,
                rows == self.height(),
                cols == self.width(),
                texts@.len() == i,
                forall|r: int| 0 <= r < i ==> (#[trigger] texts@[r])@.len() == cols,
                forall|r: int, c: int|
                    0 <= r < i && 0 <= c < cols ==> (#[trigger] texts@[r]@[c])@ == expr_text(
                        self.cell(r, c),
                    ),
            decreases rows - i,
        {
            let mut line: Vec<String> = Vec::new();
            let mut j: usize = 0;
            while j < cols
                invariant
                    i < rows,
                    j <= cols,
                    rows == self.height(),
                    cols == self.width(),
                    line@.len() == j,
                    forall|c: int| 0 <= c < j ==> (#[trigger] line@[c])@ == expr_text(self.cell(i as int, c)),
                decreases cols - j,
            {
                line.push(self.at(i, j).equation_repr());
                j += 1;
            }
            texts.push(line);
            i += 1;
        }
        texts
    }
}

impl Matrix {
    /// The canonical text of the matrix.
    pub fn equation_repr(&self) -> (s: String)
        ensures
            s@ == matrix_text(matrix_cells(*self)),
    {
        let rows = self.nrows();
        let cols = self.ncols();
        let ghost cells = matrix_cells(*self);
        let mut out = String::new();
        out.append("\\begin{bmatrix}");
        let mut i: usize = 0;
        while i < rows
            invariant
                i <= rows,
                rows == self.height(),
                cols == self.width(),
                self.rectangular(),
                cells == matrix_cells(*self),
                out@ == "\\begin{bmatrix}"@ + rows_text(cells, i as nat),
            decreases rows - i,
        {
            let ghost before = out@;
            let mut j: usize = 0;
            while j < cols
                invariant
                    i < rows,
                    j <= cols,
                    rows == self.height(),
                    cols == self.width(),
                    self.rectangular(),
                    cells == matrix_cells(*self),
                    out@ == before + joined_text(cells[i as int], j as nat, " & "@),
                decreases cols - j,
            {
                if j > 0 {
                    out.append(" & ");
                }
                self.at(i, j).push_text(&mut out);
                assert(out@ =~= before + joined_text(cells[i as int], (j + 1) as nat, " & "@));
                j += 1;
            }
            out.append("\\\\");
            assert(out@ =~= "\\begin{bmatrix}"@ + rows_text(cells, (i + 1) as nat));
            i += 1;
        }
        out.append("\\end{bmatrix}");
        out
    }
}

/// Where a shape can be allocated, so can every shape that is no taller and no
/// wider.
pub proof fn lemma_shape_fits_within(rows: nat, cols: nat, most_rows: nat, most_cols: nat)
    requires
        rows <= most_rows,
        cols <= most_cols,
        Matrix::shape_fits(most_rows, most_cols),
    ensures
        Matrix::shape_fits(rows, cols),
{
    let a = if rows == 0 { 1 } else { rows as int };
    let b = if cols == 0 { 1 } else { cols as int };
    let c = if most_rows == 0 { 1 } else { most_rows as int };
    let d = if most_cols == 0 { 1 } else { most_cols as int };
    assert(a * b <= c * d) by (nonlinear_arith)
        requires
            0 < a <= c,
            0 < b <= d,
    ;
}

/// A matrix of the given shape that holds `cell(i, j)` in every row `i` and
/// column `j` is the grid of `cell`.
pub proof fn lemma_is_grid(m: Matrix, rows: nat, cols: nat, cell: spec_fn(int, int) -> Expr)
    requires
        m.shaped(rows, cols),
        forall|i: int, j: int| 0 <= i < rows && 0 <= j < cols ==> m.cell(i, j) == cell(i, j),
    ensures
        m.is_grid(rows, cols, cell),
{
    assert forall|i: int| 0 <= i < rows implies matrix_cells(m)[i] == grid(rows, cols, cell)[i] by {
        assert forall|j: int| 0 <= j < cols implies matrix_cells(m)[i][j] == grid(rows, cols, cell)[i][j] by {
            assert(m.cell(i, j) == cell(i, j));
        }
        assert(matrix_cells(m)[i] =~= grid(rows, cols, cell)[i]);
    }
    assert(matrix_cells(m) =~= grid(rows, cols, cell));
}

/// The grid of `cell` has the given shape and holds `cell(i, j)` in every row
/// `i` and column `j`.
pub proof fn lemma_grid_cells(m: Matrix, rows: nat, cols: nat, cell: spec_fn(int, int) -> Expr)
    requires
        m.is_grid(rows, cols, cell),
    ensures
        m.shaped(rows, cols),
        forall|i: int, j: int| 0 <= i < rows && 0 <= j < cols ==> m.cell(i, j) == cell(i, j),
{
}

impl Clone for Matrix {
    /// A matrix of the same shape with a copy of every cell.
    fn clone(&self) -> (m: Matrix)
        ensures
            m.width() == self.width(),
            matrix_cells(m) == matrix_cells(*self),
    {
        self.duplicate()
    }
}

} // verus!
