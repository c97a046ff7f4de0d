//! The outside `grid::Grid` container, as both automata use it. A grid's
//! contents are named as a sequence of rows together with its column count;
//! the wrappers below state what each call does to them.
use vstd::prelude::*;
use grid::Grid;
use crate::lifelikecolor::Cell;

verus! {

#[verifier::external_type_specification]
#[verifier::external_body]
#[verifier::reject_recursive_types(T)]
pub struct ExGrid<T>(Grid<T>);

/// The rows of a grid of booleans, each row a sequence of its cells.
pub uninterp spec fn bool_cells(g: Grid<bool>) -> Seq<Seq<bool>>;

/// The number of columns of a grid of booleans.
pub uninterp spec fn bool_cols(g: Grid<bool>) -> nat;

/// The grid holds `rows * cols` cells read row by row from `v`; an empty
/// grid has neither rows nor columns.
pub open spec fn chunked<T>(cells: Seq<Seq<T>>, ncols: nat, v: Seq<T>, cols: nat) -> bool {
    if cols == 0 || v.len() == 0 {
        cells.len() == 0 && ncols == 0
    } else {
        &&& cells.len() == v.len() / cols
        &&& ncols == cols
        &&& forall|r: int| 0 <= r < cells.len() ==> #[trigger] cells[r].len() == cols
        &&& forall|r: int, c: int|
            0 <= r < cells.len() && 0 <= c < cols ==> #[trigger] cells[r][c] == v[r * cols + c]
    }
}

/// The grid has `rows` rows of `cols` copies of `x`, or is empty where
/// either dimension is zero.
pub open spec fn filled<T>(cells: Seq<Seq<T>>, ncols: nat, rows: nat, cols: nat, x: T) -> bool {
    if rows == 0 || cols == 0 {
        cells.len() == 0 && ncols == 0
    } else {
        cells == Seq::new(rows, |r: int| Seq::new(cols, |c: int| x)) && ncols == cols
    }
}

/// Relies on grid::Grid::from_vec: splits `v` into rows of `cols` cells,
/// and panics unless `cols` divides the length (a zero `cols` only with an
/// empty `v`).
#[verifier::external_body]
pub(crate) fn bool_grid_from_vec(v: Vec<bool>, cols: usize) -> (g: Grid<bool>)
    requires
        cols == 0 ==> v@.len() == 0,
        cols > 0 ==> v@.len() % (cols as nat) == 0,
    ensures
        chunked(bool_cells(g), bool_cols(g), v@, cols as nat),
{
    Grid::from_vec(v, cols)
}

/// Relies on grid::Grid::init: `rows` rows of `cols` clones of `x`; an
/// empty grid where either is zero. It panics if `rows * cols` overflows.
#[verifier::external_body]
pub(crate) fn bool_grid_init(rows: usize, cols: usize, x: bool) -> (g: Grid<bool>)
    requires
        rows * cols <= usize::MAX,
    ensures
        filled(bool_cells(g), bool_cols(g), rows as nat, cols as nat, x),
{
    Grid::init(rows, cols, x)
}

/// Relies on grid::Grid::get: the cell at `(row, col)`, or `None` where
/// either index is out of range.
#[verifier::external_body]
pub(crate) fn bool_grid_get(g: &Grid<bool>, row: usize, col: usize) -> (r: Option<bool>)
    ensures
        r == (if row < bool_cells(*g).len() && col < bool_cols(*g) {
            Some(bool_cells(*g)[row as int][col as int])
        } else {
            None
        }),
{
    g.get(row, col).copied()
}

/// Relies on grid::Grid's `IndexMut<(usize, usize)>`: writes one cell and
/// leaves the others; it panics on an index out of range.
#[verifier::external_body]
pub(crate) fn bool_grid_set(g: &mut Grid<bool>, row: usize, col: usize, x: bool)
    requires
        row < bool_cells(*old(g)).len(),
        col < bool_cols(*old(g)),
    ensures
        bool_cells(*final(g)) == bool_cells(*old(g)).update(
            row as int,
            bool_cells(*old(g))[row as int].update(col as int, x),
        ),
        bool_cols(*final(g)) == bool_cols(*old(g)),
{
    g[(row, col)] = x;
}

/// Relies on grid::Grid::size: (rows, cols).
#[verifier::external_body]
pub(crate) fn bool_grid_size(g: &Grid<bool>) -> (r: (usize, usize))
    ensures
        r.0 == bool_cells(*g).len(),
        r.1 == bool_cols(*g),
{
    g.size()
}

/// The rows of a grid of colored cells, each row a sequence of its cells.
pub uninterp spec fn cell_cells(g: Grid<Cell>) -> Seq<Seq<Cell>>;

/// The number of columns of a grid of colored cells.
pub uninterp spec fn cell_cols(g: Grid<Cell>) -> nat;

/// Relies on grid::Grid::from_vec: splits `v` into rows of `cols` cells,
/// and panics unless `cols` divides the length (a zero `cols` only with an
/// empty `v`).
#[verifier::external_body]
pub(crate) fn cell_grid_from_vec(v: Vec<Cell>, cols: usize) -> (g: Grid<Cell>)
    requires
        cols == 0 ==> v@.len() == 0,
        cols > 0 ==> v@.len() % (cols as nat) == 0,
    ensures
        chunked(cell_cells(g), cell_cols(g), v@, cols as nat),
{
    Grid::from_vec(v, cols)
}

/// Relies on grid::Grid's `Clone`: a deep copy of the dimensions and of
/// every cell (`Cell` is `Copy`).
#[verifier::external_body]
pub(crate) fn cell_grid_clone(g: &Grid<Cell>) -> (r: Grid<Cell>)
    ensures
        cell_cells(r) == cell_cells(*g),
        cell_cols(r) == cell_cols(*g),
{
    g.clone()
}

/// Relies on grid::Grid::get: the cell at `(row, col)`, or `None` where
/// either index is out of range.
#[verifier::external_body]
pub(crate) fn cell_grid_get(g: &Grid<Cell>, row: usize, col: usize) -> (r: Option<Cell>)
    ensures
        r == (if row < cell_cells(*g).len() && col < cell_cols(*g) {
            Some(cell_cells(*g)[row as int][col as int])
        } else {
            None
        }),
{
    g.get(row, col).copied()
}

/// Relies on grid::Grid's `IndexMut<(usize, usize)>`: writes one cell and
/// leaves the others; it panics on an index out of range.
#[verifier::external_body]
pub(crate) fn cell_grid_set(g: &mut Grid<Cell>, row: usize, col: usize, x: Cell)
    requires
        row < cell_cells(*old(g)).len(),
        col < cell_cols(*old(g)),
    ensures
        cell_cells(*final(g)) == cell_cells(*old(g)).update(
            row as int,
            cell_cells(*old(g))[row as int].update(col as int, x),
        ),
        cell_cols(*final(g)) == cell_cols(*old(g)),
{
    g[(row, col)] = x;
}

/// Relies on grid::Grid::size: (rows, cols).
#[verifier::external_body]
pub(crate) fn cell_grid_size(g: &Grid<Cell>) -> (r: (usize, usize))
    ensures
        r.0 == cell_cells(*g).len(),
        r.1 == cell_cols(*g),
{
    g.size()
}

} // verus!
