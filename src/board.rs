//! The mathematical model shared by both automata: a board is a sequence of
//! rows, the Moore neighborhood is bounded (no wrap-around), and a life-like
//! rule is a pair of sets of neighbor counts.
use vstd::prelude::*;

verus! {

/// The `k`-th of the eight Moore offsets, as (row delta, column delta),
/// in the order the engines visit them.
pub open spec fn moore(k: int) -> (int, int) {
    if k == 0 {
        (-1, -1)
    } else if k == 1 {
        (-1, 0)
    } else if k == 2 {
        (-1, 1)
    } else if k == 3 {
        (0, -1)
    } else if k == 4 {
        (0, 1)
    } else if k == 5 {
        (1, -1)
    } else if k == 6 {
        (1, 0)
    } else {
        (1, 1)
    }
}

/// Every row of the board has `cols` cells.
pub open spec fn rectangular<T>(b: Seq<Seq<T>>, cols: nat) -> bool {
    forall|r: int| 0 <= r < b.len() ==> #[trigger] b[r].len() == cols
}

/// `(r, c)` names a cell of the board.
pub open spec fn in_bounds<T>(b: Seq<Seq<T>>, r: int, c: int) -> bool {
    0 <= r < b.len() && 0 <= c < b[r].len()
}

/// The cell at `(r, c)` exists and is alive; positions off the board are never alive.
pub open spec fn alive_at(b: Seq<Seq<bool>>, r: int, c: int) -> bool {
    in_bounds(b, r, c) && b[r][c]
}

/// Live cells among the first `k` Moore neighbors of `(r, c)`.
pub open spec fn live_upto(b: Seq<Seq<bool>>, r: int, c: int, k: nat) -> nat
    decreases k,
{
    if k == 0 {
        0
    } else {
        let (dr, dc) = moore(k - 1);
        live_upto(b, r, c, (k - 1) as nat) + if alive_at(b, r + dr, c + dc) {
            1nat
        } else {
            0nat
        }
    }
}

/// Live cells among the in-bounds Moore neighbors of `(r, c)`.
pub open spec fn live_neighbors(b: Seq<Seq<bool>>, r: int, c: int) -> nat {
    live_upto(b, r, c, 8)
}

/// The state of one cell in the next generation, given its state and its
/// live-neighbor count.
pub open spec fn next_alive(alive: bool, n: nat, birth: Set<nat>, survival: Set<nat>) -> bool {
    if alive {
        survival.contains(n)
    } else {
        birth.contains(n)
    }
}

/// The next generation of a binary board: every cell moves at once, each
/// from the frozen previous generation.
pub open spec fn next_board(b: Seq<Seq<bool>>, birth: Set<nat>, survival: Set<nat>) -> Seq<Seq<bool>> {
    Seq::new(
        b.len(),
        |r: int|
            Seq::new(
                b[r].len(),
                |c: int| next_alive(b[r][c], live_neighbors(b, r, c), birth, survival),
            ),
    )
}

/// The board after `n` generations.
pub open spec fn generations(b: Seq<Seq<bool>>, birth: Set<nat>, survival: Set<nat>, n: nat) -> Seq<Seq<bool>>
    decreases n,
{
    if n == 0 {
        b
    } else {
        next_board(generations(b, birth, survival, (n - 1) as nat), birth, survival)
    }
}

/// The board after a user forces the cell at `(r, c)` alive; a position
/// off the board leaves it unchanged.
pub open spec fn drawn(b: Seq<Seq<bool>>, r: int, c: int) -> Seq<Seq<bool>> {
    if in_bounds(b, r, c) {
        b.update(r, b[r].update(c, true))
    } else {
        b
    }
}

/// Drawing on a cell of the board leaves it alive, whatever it was before;
/// drawing off the board changes nothing; and drawing twice at one position
/// is drawing once.
pub proof fn lemma_draw(b: Seq<Seq<bool>>, r: int, c: int)
    ensures
        in_bounds(b, r, c) ==> drawn(b, r, c)[r][c],
        !in_bounds(b, r, c) ==> drawn(b, r, c) == b,
        drawn(drawn(b, r, c), r, c) == drawn(b, r, c),
{
    if in_bounds(b, r, c) {
        assert(drawn(drawn(b, r, c), r, c) =~~= drawn(b, r, c));
    }
}

/// The corner cell `(0, 0)` has at most three neighbors, `(0, 1)`, `(1, 0)`
/// and `(1, 1)`: its count is the number of those that are on the board and
/// alive, and nothing outside the board is counted.
pub proof fn lemma_corner_neighbors(b: Seq<Seq<bool>>)
    ensures
        live_neighbors(b, 0, 0) == (if alive_at(b, 0, 1) {
            1nat
        } else {
            0nat
        }) + (if alive_at(b, 1, 0) {
            1nat
        } else {
            0nat
        }) + (if alive_at(b, 1, 1) {
            1nat
        } else {
            0nat
        }),
{
    reveal_with_fuel(live_upto, 9);
}

/// Runs are deterministic: two runs from the same board under the same rule
/// pass through the same generations.
pub proof fn lemma_runs_agree(
    b1: Seq<Seq<bool>>,
    b2: Seq<Seq<bool>>,
    birth: Set<nat>,
    survival: Set<nat>,
    n: nat,
)
    requires
        b1 == b2,
    ensures
        forall|k: nat| k <= n ==> #[trigger] generations(b1, birth, survival, k) == generations(b2, birth, survival, k),
{
}

/// The set of neighbor counts listed in a rule parameter.
pub open spec fn count_set_u8(s: Seq<u8>) -> Set<nat> {
    Set::new(|n: nat| exists|i: int| 0 <= i < s.len() && s[i] as nat == n)
}

/// The set of neighbor counts listed in a rule parameter.
pub open spec fn count_set_usize(s: Seq<usize>) -> Set<nat> {
    Set::new(|n: nat| exists|i: int| 0 <= i < s.len() && s[i] as nat == n)
}

/// Positions of the live cells in the first `k` columns of row `r`, left to right.
pub open spec fn live_in_row(b: Seq<Seq<bool>>, r: int, k: nat) -> Seq<(usize, usize)>
    decreases k,
{
    if k == 0 {
        Seq::empty()
    } else {
        let rest = live_in_row(b, r, (k - 1) as nat);
        if b[r][k - 1] {
            rest.push((r as usize, (k - 1) as usize))
        } else {
            rest
        }
    }
}

/// Positions of the live cells in the first `k` rows, in row-major order.
pub open spec fn live_upto_rows(b: Seq<Seq<bool>>, k: nat) -> Seq<(usize, usize)>
    decreases k,
{
    if k == 0 {
        Seq::empty()
    } else {
        live_upto_rows(b, (k - 1) as nat) + live_in_row(b, k - 1, b[k - 1].len())
    }
}

/// Positions of all live cells, in row-major order.
pub open spec fn live_cells(b: Seq<Seq<bool>>) -> Seq<(usize, usize)> {
    live_upto_rows(b, b.len())
}

/// The `k`-th Moore offset, for `k < 8`.
pub fn moore_offset(k: usize) -> (r: (i8, i8))
    requires
        k < 8,
    ensures
        r.0 as int == moore(k as int).0,
        r.1 as int == moore(k as int).1,
{
    if k == 0 {
        (-1, -1)
    } else if k == 1 {
        (-1, 0)
    } else if k == 2 {
        (-1, 1)
    } else if k == 3 {
        (0, -1)
    } else if k == 4 {
        (0, 1)
    } else if k == 5 {
        (1, -1)
    } else if k == 6 {
        (1, 0)
    } else {
        (1, 1)
    }
}

/// `a + b`, or `None` where the sum leaves the range of `usize`
/// (below zero at the grid's first row or column).
pub fn add_and_cast(a: usize, b: i8) -> (r: Option<usize>)
    ensures
        r == (if 0 <= a + b <= usize::MAX {
            Some((a + b) as usize)
        } else {
            None
        }),
{
    let b_as_isize = b as isize;
    a.checked_add_signed(b_as_isize)
}

/// Whether `x` is listed in `s`.
pub fn contains_u8(s: &Vec<u8>, x: u8) -> (r: bool)
    ensures
        r == count_set_u8(s@).contains(x as nat),
{
    let mut i: usize = 0;
    while i < s.len()
        invariant
            i <= s.len(),
            forall|j: int| 0 <= j < i ==> s@[j] != x,
        decreases s.len() - i,
    {
        if s[i] == x {
            return true;
        }
        i += 1;
    }
    false
}

/// Whether `x` is listed in `s`.
pub fn contains_usize(s: &Vec<usize>, x: usize) -> (r: bool)
    ensures
        r == count_set_usize(s@).contains(x as nat),
{
    let mut i: usize = 0;
    while i < s.len()
        invariant
            i <= s.len(),
            forall|j: int| 0 <= j < i ==> s@[j] != x,
        decreases s.len() - i,
    {
        if s[i] == x {
            return true;
        }
        i += 1;
    }
    false
}

} // verus!

verus! {

/// An operation that this design leaves out.
#[derive(Debug, Clone, Copy, PartialEq, Eq)]
pub enum Unsupported {
    /// Changing the board's dimensions after construction.
    Resize,
}

} // verus!
