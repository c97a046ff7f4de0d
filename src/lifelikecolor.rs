//! The colored life-like automaton: a live cell carries a color, a surviving
//! cell keeps it, and a newborn cell takes the mix of the colors of the live
//! neighbors that caused its birth.
use vstd::prelude::*;
use vstd::arithmetic::div_mod::{lemma_div_multiples_vanish, lemma_mod_multiples_basic};
use vstd::arithmetic::mul::lemma_mul_is_commutative;
use grid::Grid;
use color_art::Color;
use crate::color::{color_from_name, named_color};
use crate::board::{
    add_and_cast, contains_usize, count_set_usize, in_bounds, live_cells, live_in_row,
    live_upto, live_upto_rows, moore, moore_offset, next_board, rectangular,
    Unsupported,
};
use crate::grid_ops::{
    cell_cells, cell_cols, cell_grid_clone, cell_grid_from_vec, cell_grid_get, cell_grid_set,
    cell_grid_size,
};

verus! {

/// One cell of the colored automaton.
#[derive(Debug, Clone, Copy)]
pub enum Cell {
    Alive(Color),
    Dead,
}

/// Which cells of a colored board are alive.
pub open spec fn alive_board(b: Seq<Seq<Cell>>) -> Seq<Seq<bool>> {
    Seq::new(b.len(), |r: int| Seq::new(b[r].len(), |c: int| b[r][c] is Alive))
}

/// The in-bounds cells among the first `k` Moore neighbors of `(r, c)`, in
/// the order of the offsets.
pub open spec fn neighbors_upto(b: Seq<Seq<Cell>>, r: int, c: int, k: nat) -> Seq<Cell>
    decreases k,
{
    if k == 0 {
        Seq::empty()
    } else {
        let prev = neighbors_upto(b, r, c, (k - 1) as nat);
        let (dr, dc) = moore(k - 1);
        if in_bounds(b, r + dr, c + dc) {
            prev.push(b[r + dr][c + dc])
        } else {
            prev
        }
    }
}

/// The in-bounds Moore neighbors of `(r, c)`.
pub open spec fn neighbors(b: Seq<Seq<Cell>>, r: int, c: int) -> Seq<Cell> {
    neighbors_upto(b, r, c, 8)
}

/// How many cells of `s` are alive.
pub open spec fn count_alive(s: Seq<Cell>) -> nat
    decreases s.len(),
{
    if s.len() == 0 {
        0
    } else {
        count_alive(s.drop_last()) + if s.last() is Alive {
            1nat
        } else {
            0nat
        }
    }
}

/// The colors of the live cells of `s`, in order.
pub open spec fn hues(s: Seq<Cell>) -> Seq<Color>
    decreases s.len(),
{
    if s.len() == 0 {
        Seq::empty()
    } else {
        let rest = hues(s.drop_last());
        match s.last() {
            Cell::Alive(h) => rest.push(h),
            Cell::Dead => rest,
        }
    }
}

/// `color` is what `mix` may return for a vector holding `parents`.
pub open spec fn mixed_from<F: Fn(Vec<Color>) -> Color>(mix: F, parents: Seq<Color>, color: Color) -> bool {
    exists|v: Vec<Color>| v@ == parents && #[trigger] call_ensures(mix, (v,), color)
}

/// The color of a cell born with no live neighbor, which has no color to
/// inherit: red, hue 0.
pub open spec fn orphan_color() -> Color {
    named_color("red"@)
}

/// `x` is what `cell` becomes beside the cells `nbrs`: a live cell survives,
/// color and all, when its live-neighbor count is in `survival`; a dead cell
/// is born when the count is in `birth`. A newborn takes the mix of its live
/// neighbors' colors, or red where none is alive (the mixer is never handed
/// an empty set).
pub open spec fn cell_next<F: Fn(Vec<Color>) -> Color>(
    cell: Cell,
    nbrs: Seq<Cell>,
    x: Cell,
    birth: Set<nat>,
    survival: Set<nat>,
    mix: F,
) -> bool {
    let n = count_alive(nbrs);
    match cell {
        Cell::Alive(_) => x == if survival.contains(n) {
            cell
        } else {
            Cell::Dead
        },
        Cell::Dead => if birth.contains(n) {
            if n > 0 {
                x is Alive && mixed_from(mix, hues(nbrs), x->Alive_0)
            } else {
                x == Cell::Alive(orphan_color())
            }
        } else {
            x is Dead
        },
    }
}

/// Counting the live cells among the neighbors of a colored board counts the
/// live neighbors on its board of liveness.
pub proof fn lemma_count_alive_neighbors(b: Seq<Seq<Cell>>, r: int, c: int, k: nat)
    ensures
        count_alive(neighbors_upto(b, r, c, k)) == live_upto(alive_board(b), r, c, k),
    decreases k,
{
    if k > 0 {
        lemma_count_alive_neighbors(b, r, c, (k - 1) as nat);
        let prev = neighbors_upto(b, r, c, (k - 1) as nat);
        let (dr, dc) = moore(k - 1);
        if in_bounds(b, r + dr, c + dc) {
            assert(prev.push(b[r + dr][c + dc]).drop_last() =~= prev);
        }
    }
}

impl Cell {
    /// The next state of this cell beside `neighbors`, under the given rule;
    /// `mix` is called only on a non-empty set of colors.
    pub fn from_neighbors<F: Fn(Vec<Color>) -> Color>(
        &self,
        neighbors: Vec<Cell>,
        survival: &Vec<usize>,
        birth: &Vec<usize>,
        mix: &F,
    ) -> (r: Cell)
        requires
            forall|v: Vec<Color>| v@.len() > 0 ==> #[trigger] call_requires(*mix, (v,)),
        ensures
            cell_next(*self, neighbors@, r, count_set_usize(birth@), count_set_usize(survival@), *mix),
    {
        let mut count: usize = 0;
        let mut colors: Vec<Color> = Vec::new();
        let mut i: usize = 0;
        while i < neighbors.len()
            invariant
                i <= neighbors@.len(),
                count == count_alive(neighbors@.take(i as int)),
                count <= i,
                colors@ == hues(neighbors@.take(i as int)),
            decreases neighbors.len() - i,
        {
            assert(neighbors@.take((i + 1) as int).drop_last() =~= neighbors@.take(i as int));
            match neighbors[i] {
                Cell::Alive(color) => {
                    count += 1;
                    colors.push(color);
                },
                Cell::Dead => {},
            }
            i += 1;
        }
        assert(neighbors@.take(i as int) =~= neighbors@);
        match self {
            Cell::Alive(_) => {
                if contains_usize(survival, count) {
                    *self
                } else {
                    Cell::Dead
                }
            },
            Cell::Dead => {
                if contains_usize(birth, count) {
                    if count == 0 {
                        Cell::Alive(color_from_name("red").unwrap())
                    } else {
                        proof {
                            assert(colors@.len() == count) by {
                                lemma_hues_len(neighbors@);
                            }
                        }
                        let color = mix(colors);
                        Cell::Alive(color)
                    }
                } else {
                    Cell::Dead
                }
            },
        }
    }
}

/// `mix` gives one color for one sequence of colors.
pub open spec fn deterministic<F: Fn(Vec<Color>) -> Color>(mix: F) -> bool {
    forall|v1: Vec<Color>, v2: Vec<Color>, c1: Color, c2: Color|
        v1@ == v2@ && #[trigger] call_ensures(mix, (v1,), c1) && #[trigger] call_ensures(mix, (v2,), c2)
            ==> c1 == c2
}

/// Colored runs are deterministic: with a mixer that gives one color for one
/// sequence of colors, two boards that each follow the colored rule from the
/// same board (as `LifeLikeColorAutomaton::step` states) are the same board.
pub proof fn lemma_colored_step_deterministic<F: Fn(Vec<Color>) -> Color>(
    b: Seq<Seq<Cell>>,
    n1: Seq<Seq<Cell>>,
    n2: Seq<Seq<Cell>>,
    birth: Set<nat>,
    survival: Set<nat>,
    mix: F,
)
    requires
        deterministic(mix),
        n1.len() == b.len(),
        n2.len() == b.len(),
        forall|r: int| 0 <= r < b.len() ==> #[trigger] n1[r].len() == b[r].len(),
        forall|r: int| 0 <= r < b.len() ==> #[trigger] n2[r].len() == b[r].len(),
        forall|r: int, c: int|
            in_bounds(b, r, c) ==> cell_next(b[r][c], neighbors(b, r, c), #[trigger] n1[r][c], birth, survival, mix),
        forall|r: int, c: int|
            in_bounds(b, r, c) ==> cell_next(b[r][c], neighbors(b, r, c), #[trigger] n2[r][c], birth, survival, mix),
    ensures
        n1 == n2,
{
    assert forall|r: int| 0 <= r < b.len() implies #[trigger] n1[r] == n2[r] by {
        assert forall|c: int| 0 <= c < b[r].len() implies n1[r][c] == n2[r][c] by {
            assert(in_bounds(b, r, c));
            let nbrs = neighbors(b, r, c);
            assert(cell_next(b[r][c], nbrs, n1[r][c], birth, survival, mix));
            assert(cell_next(b[r][c], nbrs, n2[r][c], birth, survival, mix));
            if b[r][c] is Dead && birth.contains(count_alive(nbrs)) && count_alive(nbrs) > 0 {
                let v1 = choose|v: Vec<Color>| v@ == hues(nbrs) && call_ensures(mix, (v,), n1[r][c]->Alive_0);
                let v2 = choose|v: Vec<Color>| v@ == hues(nbrs) && call_ensures(mix, (v,), n2[r][c]->Alive_0);
                assert(call_ensures(mix, (v1,), n1[r][c]->Alive_0) && call_ensures(mix, (v2,), n2[r][c]->Alive_0));
            }
        }
        assert(n1[r] =~= n2[r]);
    }
    assert(n1 =~= n2);
}

/// There are as many colors as live cells.
proof fn lemma_hues_len(s: Seq<Cell>)
    ensures
        hues(s).len() == count_alive(s),
    decreases s.len(),
{
    if s.len() > 0 {
        lemma_hues_len(s.drop_last());
    }
}

pub struct LifeLikeColorAutomaton {
    grid: Grid<Cell>,
    birth: Vec<usize>,
    survival: Vec<usize>,
}

impl LifeLikeColorAutomaton {
    /// The board: its rows, each a sequence of cells.
    pub closed spec fn board(&self) -> Seq<Seq<Cell>> {
        cell_cells(self.grid)
    }

    /// The number of columns.
    pub closed spec fn cols(&self) -> nat {
        cell_cols(self.grid)
    }

    /// The neighbor counts at which a dead cell comes alive.
    pub closed spec fn births(&self) -> Set<nat> {
        count_set_usize(self.birth@)
    }

    /// The neighbor counts at which a live cell stays alive.
    pub closed spec fn survivals(&self) -> Set<nat> {
        count_set_usize(self.survival@)
    }

    /// The board is a rectangle of `cols` columns, empty in both dimensions
    /// or in neither, and small enough to be counted in a `usize`.
    pub open spec fn wf(&self) -> bool {
        &&& rectangular(self.board(), self.cols())
        &&& (self.board().len() == 0) == (self.cols() == 0)
        &&& self.board().len() * self.cols() <= usize::MAX
        &&& self.board().len() <= usize::MAX
        &&& self.cols() <= usize::MAX
    }

    /// A `width` × `height` automaton whose cells are `cells`, row by row;
    /// the board is empty where either dimension is zero.
    pub fn new(width: usize, height: usize, birth: Vec<usize>, survival: Vec<usize>, cells: Vec<Cell>) -> (a: Self)
        requires
            cells@.len() == width * height,
        ensures
            a.wf(),
            a.births() == count_set_usize(birth@),
            a.survivals() == count_set_usize(survival@),
            width == 0 || height == 0 ==> a.board().len() == 0,
            width > 0 && height > 0 ==> {
                &&& a.board().len() == height
                &&& a.cols() == width
                &&& forall|r: int, c: int|
                    0 <= r < height && 0 <= c < width ==> #[trigger] a.board()[r][c] == cells@[r * width + c]
            },
    {
        proof {
            if width > 0 {
                lemma_div_multiples_vanish(height as int, width as int);
                lemma_mod_multiples_basic(height as int, width as int);
                lemma_mul_is_commutative(height as int, width as int);
            }
        }
        // The length is a usize, which bounds the number of cells.
        let len = cells.len();
        assert(width * height == len);
        let grid = cell_grid_from_vec(cells, width);
        let a = LifeLikeColorAutomaton { grid, birth, survival };
        proof {
            if width > 0 && height > 0 {
                assert(a.board().len() * a.cols() == width * height);
            }
        }
        a
    }

    /// The in-bounds Moore neighbors of `(row, col)`, in the order of the
    /// offsets; `(row, col)` need not be on the board.
    pub fn get_neighbors(&self, row: usize, col: usize) -> (r: Vec<Cell>)
        requires
            self.wf(),
        ensures
            r@ == neighbors(self.board(), row as int, col as int),
            r@.len() <= 8,
    {
        let mut out: Vec<Cell> = Vec::new();
        let mut k: usize = 0;
        while k < 8
            invariant
                self.wf(),
                k <= 8,
                out@ == neighbors_upto(self.board(), row as int, col as int, k as nat),
                out@.len() <= k,
            decreases 8 - k,
        {
            let (dr, dc) = moore_offset(k);
            let ghost nr: int = row as int + dr as int;
            let ghost nc: int = col as int + dc as int;
            let r = add_and_cast(row, dr);
            let c = add_and_cast(col, dc);
            if r.is_some() && c.is_some() {
                let r = r.unwrap();
                let c = c.unwrap();
                if let Some(cell) = cell_grid_get(&self.grid, r, c) {
                    assert(self.board()[r as int].len() == self.cols());
                    out.push(cell);
                } else {
                    proof {
                        if (r as int) < self.board().len() {
                            assert(self.board()[r as int].len() == self.cols());
                        }
                    }
                    assert(!in_bounds(self.board(), nr, nc));
                }
            } else {
                assert(!in_bounds(self.board(), nr, nc));
            }
            k += 1;
        }
        out
    }

    /// Advances one generation: every cell is computed from the previous
    /// generation (a clone is filled, then replaces the grid). `mix` gives a
    /// newborn cell its color from its live neighbors' colors, and is called
    /// only on a non-empty set.
    pub fn step<F: Fn(Vec<Color>) -> Color>(&mut self, mix: F)
        requires
            old(self).wf(),
            forall|v: Vec<Color>| v@.len() > 0 ==> #[trigger] call_requires(mix, (v,)),
        ensures
            final(self).wf(),
            final(self).board().len() == old(self).board().len(),
            final(self).cols() == old(self).cols(),
            final(self).births() == old(self).births(),
            final(self).survivals() == old(self).survivals(),
            forall|r: int, c: int|
                0 <= r < old(self).board().len() && 0 <= c < old(self).cols() ==> cell_next(
                    old(self).board()[r][c],
                    neighbors(old(self).board(), r, c),
                    #[trigger] final(self).board()[r][c],
                    old(self).births(),
                    old(self).survivals(),
                    mix,
                ),
            alive_board(final(self).board()) == next_board(
                alive_board(old(self).board()),
                old(self).births(),
                old(self).survivals(),
            ),
    {
        let (rows, cols) = cell_grid_size(&self.grid);
        let ghost b = self.board();
        let mut new_grid = cell_grid_clone(&self.grid);
        let mut y: usize = 0;
        while y < rows
            invariant
                self.wf(),
                self.board() == b,
                rows == b.len(),
                cols == self.cols(),
                y <= rows,
                forall|v: Vec<Color>| v@.len() > 0 ==> #[trigger] call_requires(mix, (v,)),
                cell_cols(new_grid) == cols,
                cell_cells(new_grid).len() == rows,
                rectangular(cell_cells(new_grid), cols as nat),
                forall|r: int, c: int|
                    0 <= r < rows && 0 <= c < cols ==> if r < y {
                        cell_next(b[r][c], neighbors(b, r, c), #[trigger] cell_cells(new_grid)[r][c], self.births(), self.survivals(), mix)
                    } else {
                        cell_cells(new_grid)[r][c] == b[r][c]
                    },
            decreases rows - y,
        {
            let mut x: usize = 0;
            while x < cols
                invariant
                    self.wf(),
                    self.board() == b,
                    rows == b.len(),
                    cols == self.cols(),
                    y < rows,
                    x <= cols,
                    forall|v: Vec<Color>| v@.len() > 0 ==> #[trigger] call_requires(mix, (v,)),
                    cell_cols(new_grid) == cols,
                    cell_cells(new_grid).len() == rows,
                    rectangular(cell_cells(new_grid), cols as nat),
                    forall|r: int, c: int|
                        0 <= r < rows && 0 <= c < cols ==> if r < y || (r == y && c < x) {
                            cell_next(b[r][c], neighbors(b, r, c), #[trigger] cell_cells(new_grid)[r][c], self.births(), self.survivals(), mix)
                        } else {
                            cell_cells(new_grid)[r][c] == b[r][c]
                        },
                decreases cols - x,
            {
                let nbrs = self.get_neighbors(y, x);
                assert(b[y as int].len() == cols);
                let cell = match cell_grid_get(&self.grid, y, x) {
                    Some(cell) => cell,
                    None => Cell::Dead,
                };
                let next = cell.from_neighbors(nbrs, &self.survival, &self.birth, &mix);
                cell_grid_set(&mut new_grid, y, x, next);
                x += 1;
            }
            y += 1;
        }
        self.grid = new_grid;
        proof {
            let nb = self.board();
            let births = self.births();
            let survivals = self.survivals();
            assert forall|r: int, c: int| 0 <= r < rows && 0 <= c < cols implies #[trigger] alive_board(nb)[r][c]
                == next_board(alive_board(b), births, survivals)[r][c] by {
                assert(cell_next(b[r][c], neighbors(b, r, c), nb[r][c], births, survivals, mix));
                lemma_count_alive_neighbors(b, r, c, 8);
            }
            assert(alive_board(nb) =~~= next_board(alive_board(b), births, survivals));
        }
    }

    /// The live cells in row-major order, each with its color.
    pub fn colors(&self) -> (r: Vec<((usize, usize), Color)>)
        requires
            self.wf(),
        ensures
            r@.len() == live_cells(alive_board(self.board())).len(),
            forall|i: int| 0 <= i < r@.len() ==> #[trigger] r@[i].0 == live_cells(alive_board(self.board()))[i],
            forall|i: int| 0 <= i < r@.len() ==> self.board()[#[trigger] r@[i].0.0 as int][r@[i].0.1 as int] == Cell::Alive(r@[i].1),
    {
        let (rows, cols) = cell_grid_size(&self.grid);
        let ghost b = self.board();
        let ghost ab = alive_board(b);
        let mut out: Vec<((usize, usize), Color)> = Vec::new();
        let mut y: usize = 0;
        while y < rows
            invariant
                self.wf(),
                b == self.board(),
                ab == alive_board(b),
                rows == b.len(),
                cols == self.cols(),
                y <= rows,
                out@.len() == live_upto_rows(ab, y as nat).len(),
                forall|i: int| 0 <= i < out@.len() ==> #[trigger] out@[i].0 == live_upto_rows(ab, y as nat)[i],
                forall|i: int| 0 <= i < out@.len() ==> b[#[trigger] out@[i].0.0 as int][out@[i].0.1 as int] == Cell::Alive(out@[i].1),
            decreases rows - y,
        {
            let ghost done = live_upto_rows(ab, y as nat);
            let mut x: usize = 0;
            while x < cols
                invariant
                    self.wf(),
                    b == self.board(),
                    ab == alive_board(b),
                    rows == b.len(),
                    cols == self.cols(),
                    y < rows,
                    x <= cols,
                    done == live_upto_rows(ab, y as nat),
                    out@.len() == done.len() + live_in_row(ab, y as int, x as nat).len(),
                    forall|i: int| 0 <= i < out@.len() ==> #[trigger] out@[i].0 == (done + live_in_row(ab, y as int, x as nat))[i],
                    forall|i: int| 0 <= i < out@.len() ==> b[#[trigger] out@[i].0.0 as int][out@[i].0.1 as int] == Cell::Alive(out@[i].1),
                decreases cols - x,
            {
                assert(b[y as int].len() == cols);
                if let Some(Cell::Alive(color)) = cell_grid_get(&self.grid, y, x) {
                    out.push(((y, x), color));
                    assert(done + live_in_row(ab, y as int, (x + 1) as nat) =~= (done + live_in_row(ab, y as int, x as nat)).push((y, x)));
                } else {
                    assert(!ab[y as int][x as int]);
                }
                x += 1;
            }
            assert(ab[y as int].len() == cols);
            assert(live_upto_rows(ab, (y + 1) as nat) == done + live_in_row(ab, y as int, cols as nat));
            y += 1;
        }
        out
    }

    /// (rows, cols).
    pub fn size(&self) -> (r: (usize, usize))
        ensures
            r.0 == self.board().len(),
            r.1 == self.cols(),
    {
        cell_grid_size(&self.grid)
    }

    /// Resizing is not supported: the board is left as it is.
    pub fn resize(&mut self) -> (r: Result<(), Unsupported>)
        ensures
            r is Err,
            final(self).board() == old(self).board(),
            final(self).cols() == old(self).cols(),
            final(self).births() == old(self).births(),
            final(self).survivals() == old(self).survivals(),
    {
        Err(Unsupported::Resize)
    }

    /// Forces the cell at `(row, col)` alive with `color`; off the board,
    /// nothing changes.
    pub fn draw(&mut self, row: usize, col: usize, color: Color)
        requires
            old(self).wf(),
        ensures
            final(self).wf(),
            final(self).cols() == old(self).cols(),
            final(self).births() == old(self).births(),
            final(self).survivals() == old(self).survivals(),
            final(self).board() == if in_bounds(old(self).board(), row as int, col as int) {
                old(self).board().update(row as int, old(self).board()[row as int].update(col as int, Cell::Alive(color)))
            } else {
                old(self).board()
            },
    {
        if cell_grid_get(&self.grid, row, col).is_some() {
            cell_grid_set(&mut self.grid, row, col, Cell::Alive(color));
            assert(rectangular(self.board(), self.cols()));
        }
    }
}

} // verus!
