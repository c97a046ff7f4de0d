//! The binary life-like automaton: cells are alive or dead, and a rule is a
//! pair of neighbor-count sets, `birth` and `survival`.
use vstd::prelude::*;
use vstd::arithmetic::div_mod::{lemma_div_multiples_vanish, lemma_mod_multiples_basic};
use vstd::arithmetic::mul::lemma_mul_is_commutative;
use grid::Grid;
use color_art::Color;
use crate::color::{bool_to_color, named_color};
use crate::board::{
    add_and_cast, alive_at, contains_u8, count_set_u8, drawn, in_bounds, live_cells, live_in_row,
    live_neighbors, live_upto, live_upto_rows, moore_offset, next_board, rectangular, Unsupported,
};
use crate::grid_ops::{
    bool_cells, bool_cols, bool_grid_from_vec, bool_grid_get, bool_grid_init, bool_grid_set,
    bool_grid_size,
};

verus! {

pub struct LifeLikeAutomaton {
    grid: Grid<bool>,
    birth: Vec<u8>,
    survival: Vec<u8>,
}

impl LifeLikeAutomaton {
    /// The board: its rows, each a sequence of cells (`true` for alive).
    pub closed spec fn board(&self) -> Seq<Seq<bool>> {
        bool_cells(self.grid)
    }

    /// The number of columns.
    pub closed spec fn cols(&self) -> nat {
        bool_cols(self.grid)
    }

    /// The neighbor counts at which a dead cell comes alive.
    pub closed spec fn births(&self) -> Set<nat> {
        count_set_u8(self.birth@)
    }

    /// The neighbor counts at which a live cell stays alive.
    pub closed spec fn survivals(&self) -> Set<nat> {
        count_set_u8(self.survival@)
    }

    /// The board is a rectangle of `cols` columns, empty in both dimensions
    /// or in neither, and small enough to be counted in a `usize`.
    pub open spec fn wf(&self) -> bool {
        &&& rectangular(self.board(), self.cols())
        &&& (self.board().len() == 0) == (self.cols() == 0)
        &&& self.board().len() * self.cols() <= usize::MAX
        &&& self.board().len() <= usize::MAX
        &&& self.cols() <= usize::MAX
    }

    /// A `width` × `height` automaton whose cells are `cells`, row by row
    /// (`true` for alive); the board is empty where either dimension is zero.
    pub fn new(width: usize, height: usize, birth: Vec<u8>, survival: Vec<u8>, cells: Vec<bool>) -> (a: Self)
        requires
            cells@.len() == width * height,
        ensures
            a.wf(),
            a.births() == count_set_u8(birth@),
            a.survivals() == count_set_u8(survival@),
            width == 0 || height == 0 ==> a.board().len() == 0,
            width > 0 && height > 0 ==> {
                &&& a.board().len() == height
                &&& a.cols() == width
                &&& forall|r: int, c: int|
                    0 <= r < height && 0 <= c < width ==> #[trigger] a.board()[r][c] == cells@[r * width + c]
            },
    {
        proof {
            if width > 0 {
                lemma_div_multiples_vanish(height as int, width as int);
                lemma_mod_multiples_basic(height as int, width as int);
                lemma_mul_is_commutative(height as int, width as int);
            }
        }
        // The length is a usize, which bounds the number of cells.
        let len = cells.len();
        assert(width * height == len);
        let grid = bool_grid_from_vec(cells, width);
        let a = LifeLikeAutomaton { grid, birth, survival };
        proof {
            if width > 0 && height > 0 {
                assert(a.board().len() * a.cols() == width * height);
            }
        }
        a
    }

    /// Live cells among the in-bounds Moore neighbors of `(row, col)`;
    /// `(row, col)` need not be on the board.
    pub fn count_live(&self, row: usize, col: usize) -> (n: u8)
        requires
            self.wf(),
        ensures
            n as nat == live_neighbors(self.board(), row as int, col as int),
    {
        let mut count: u8 = 0;
        let mut k: usize = 0;
        while k < 8
            invariant
                self.wf(),
                k <= 8,
                count as nat == live_upto(self.board(), row as int, col as int, k as nat),
                count <= k,
            decreases 8 - k,
        {
            let (dr, dc) = moore_offset(k);
            let ghost nr: int = row as int + dr as int;
            let ghost nc: int = col as int + dc as int;
            let r = add_and_cast(row, dr);
            let c = add_and_cast(col, dc);
            if r.is_some() && c.is_some() {
                let r = r.unwrap();
                let c = c.unwrap();
                if let Some(alive) = bool_grid_get(&self.grid, r, c) {
                    assert(self.board()[r as int].len() == self.cols());
                    if alive {
                        count += 1;
                    }
                } else {
                    proof {
                        if (r as int) < self.board().len() {
                            assert(self.board()[r as int].len() == self.cols());
                        }
                    }
                    assert(!in_bounds(self.board(), nr, nc));
                }
            } else {
                assert(!in_bounds(self.board(), nr, nc));
            }
            assert(live_upto(self.board(), row as int, col as int, (k + 1) as nat)
                == live_upto(self.board(), row as int, col as int, k as nat) + if alive_at(self.board(), nr, nc) {
                1nat
            } else {
                0nat
            });
            k += 1;
        }
        count
    }

    /// Advances one generation: every cell is computed from the previous
    /// generation, never from the grid being filled.
    pub fn step(&mut self)
        requires
            old(self).wf(),
        ensures
            final(self).wf(),
            final(self).cols() == old(self).cols(),
            final(self).births() == old(self).births(),
            final(self).survivals() == old(self).survivals(),
            final(self).board() == next_board(old(self).board(), old(self).births(), old(self).survivals()),
    {
        let (rows, cols) = bool_grid_size(&self.grid);
        let ghost b = self.board();
        let ghost next = next_board(b, self.births(), self.survivals());
        let mut new_grid = bool_grid_init(rows, cols, false);
        let mut y: usize = 0;
        while y < rows
            invariant
                self.wf(),
                self.board() == b,
                next == next_board(b, self.births(), self.survivals()),
                rows == b.len(),
                cols == self.cols(),
                y <= rows,
                bool_cols(new_grid) == cols,
                bool_cells(new_grid).len() == rows,
                rectangular(bool_cells(new_grid), cols as nat),
                forall|r: int, c: int|
                    0 <= r < rows && 0 <= c < cols ==> #[trigger] bool_cells(new_grid)[r][c] == if r < y {
                        next[r][c]
                    } else {
                        false
                    },
            decreases rows - y,
        {
            let mut x: usize = 0;
            while x < cols
                invariant
                    self.wf(),
                    self.board() == b,
                    next == next_board(b, self.births(), self.survivals()),
                    rows == b.len(),
                    cols == self.cols(),
                    y < rows,
                    x <= cols,
                    bool_cols(new_grid) == cols,
                    bool_cells(new_grid).len() == rows,
                    rectangular(bool_cells(new_grid), cols as nat),
                    forall|r: int, c: int|
                        0 <= r < rows && 0 <= c < cols ==> #[trigger] bool_cells(new_grid)[r][c] == if r < y || (r == y && c < x) {
                            next[r][c]
                        } else {
                            false
                        },
                decreases cols - x,
            {
                let n = self.count_live(y, x);
                let alive = match bool_grid_get(&self.grid, y, x) {
                    Some(v) => v,
                    None => false,
                };
                let next_cell = if alive {
                    contains_u8(&self.survival, n)
                } else {
                    contains_u8(&self.birth, n)
                };
                assert(next_cell == next[y as int][x as int]);
                bool_grid_set(&mut new_grid, y, x, next_cell);
                x += 1;
            }
            y += 1;
        }
        self.grid = new_grid;
        assert(self.board() =~~= next);
    }

    /// The live cells in row-major order, each with its display color (white).
    pub fn colors(&self) -> (r: Vec<((usize, usize), Color)>)
        requires
            self.wf(),
        ensures
            r@.len() == live_cells(self.board()).len(),
            forall|i: int| 0 <= i < r@.len() ==> #[trigger] r@[i].0 == live_cells(self.board())[i],
            forall|i: int| 0 <= i < r@.len() ==> #[trigger] r@[i].1 == named_color("white"@),
    {
        let (rows, cols) = bool_grid_size(&self.grid);
        let ghost b = self.board();
        let mut out: Vec<((usize, usize), Color)> = Vec::new();
        let mut y: usize = 0;
        while y < rows
            invariant
                self.wf(),
                b == self.board(),
                rows == b.len(),
                cols == self.cols(),
                y <= rows,
                out@.len() == live_upto_rows(b, y as nat).len(),
                forall|i: int| 0 <= i < out@.len() ==> #[trigger] out@[i].0 == live_upto_rows(b, y as nat)[i],
                forall|i: int| 0 <= i < out@.len() ==> #[trigger] out@[i].1 == named_color("white"@),
            decreases rows - y,
        {
            let ghost done = live_upto_rows(b, y as nat);
            let mut x: usize = 0;
            while x < cols
                invariant
                    self.wf(),
                    b == self.board(),
                    rows == b.len(),
                    cols == self.cols(),
                    y < rows,
                    x <= cols,
                    done == live_upto_rows(b, y as nat),
                    out@.len() == done.len() + live_in_row(b, y as int, x as nat).len(),
                    forall|i: int| 0 <= i < out@.len() ==> #[trigger] out@[i].0 == (done + live_in_row(b, y as int, x as nat))[i],
                    forall|i: int| 0 <= i < out@.len() ==> #[trigger] out@[i].1 == named_color("white"@),
                decreases cols - x,
            {
                assert(b[y as int].len() == cols);
                if let Some(true) = bool_grid_get(&self.grid, y, x) {
                    out.push(((y, x), bool_to_color(true)));
                    assert(done + live_in_row(b, y as int, (x + 1) as nat) =~= (done + live_in_row(b, y as int, x as nat)).push((y, x)));
                }
                x += 1;
            }
            assert(b[y as int].len() == cols);
            assert(live_upto_rows(b, (y + 1) as nat) == done + live_in_row(b, y as int, cols as nat));
            y += 1;
        }
        out
    }

    /// (rows, cols).
    pub fn size(&self) -> (r: (usize, usize))
        ensures
            r.0 == self.board().len(),
            r.1 == self.cols(),
    {
        bool_grid_size(&self.grid)
    }

    /// Resizing is not supported: the board is left as it is.
    pub fn resize(&mut self) -> (r: Result<(), Unsupported>)
        ensures
            r is Err,
            final(self).board() == old(self).board(),
            final(self).cols() == old(self).cols(),
            final(self).births() == old(self).births(),
            final(self).survivals() == old(self).survivals(),
    {
        Err(Unsupported::Resize)
    }

    /// Forces the cell at `(row, col)` alive; off the board, nothing changes.
    pub fn draw(&mut self, row: usize, col: usize)
        requires
            old(self).wf(),
        ensures
            final(self).wf(),
            final(self).cols() == old(self).cols(),
            final(self).births() == old(self).births(),
            final(self).survivals() == old(self).survivals(),
            final(self).board() == drawn(old(self).board(), row as int, col as int),
    {
        if bool_grid_get(&self.grid, row, col).is_some() {
            bool_grid_set(&mut self.grid, row, col, true);
            assert(rectangular(self.board(), self.cols()));
        }
    }
}

} // verus!
