//! The mathematical model of the automaton: toroidal indexing, the
//! Moore-neighborhood count, the Life transition rule, and the lemmas
//! that the engine's contracts rest on.

use vstd::prelude::*;
use vstd::arithmetic::div_mod::lemma_fundamental_div_mod_converse;
use vstd::arithmetic::div_mod::lemma_mod_multiples_vanish;
use vstd::arithmetic::div_mod::lemma_small_mod;
use crate::cell::Cell;

verus! {

/// 1 if the cell is alive, 0 if it is dead.
pub open spec fn live_bit(c: Cell) -> int {
    if c is Alive {
        1
    } else {
        0
    }
}

/// One toroidal step along an axis of length `m`: move `delta`
/// (one of -1, 0, +1) from `x`, wrapping across the edges.
pub open spec fn wrap(x: int, delta: int, m: int) -> int
    recommends
        1 <= m,
        0 <= x < m,
{
    (x + m + delta) % m
}

/// Number of live cells among the 8 Moore neighbors of (r, c) on a
/// w-by-h toroidal grid stored row-major in `cells`.
pub open spec fn neighbor_count(cells: Seq<Cell>, w: int, h: int, r: int, c: int) -> int
    recommends
        1 <= w,
        1 <= h,
        cells.len() == w * h,
        0 <= r < h,
        0 <= c < w,
{
    live_bit(cells[wrap(r, -1, h) * w + wrap(c, -1, w)]) + live_bit(
        cells[wrap(r, -1, h) * w + wrap(c, 0, w)],
    ) + live_bit(cells[wrap(r, -1, h) * w + wrap(c, 1, w)]) + live_bit(
        cells[wrap(r, 0, h) * w + wrap(c, -1, w)],
    ) + live_bit(cells[wrap(r, 0, h) * w + wrap(c, 1, w)]) + live_bit(
        cells[wrap(r, 1, h) * w + wrap(c, -1, w)],
    ) + live_bit(cells[wrap(r, 1, h) * w + wrap(c, 0, w)]) + live_bit(
        cells[wrap(r, 1, h) * w + wrap(c, 1, w)],
    )
}

/// The Life rule: the next state of one cell, given its current state
/// and its live-neighbor count.
pub open spec fn next_cell(c: Cell, live: int) -> Cell {
    match c {
        Cell::Alive => if live < 2 {
            Cell::Dead
        } else if live <= 3 {
            Cell::Alive
        } else {
            Cell::Dead
        },
        Cell::Dead => if live == 3 {
            Cell::Alive
        } else {
            Cell::Dead
        },
    }
}

/// One generation: every cell's next state, each computed from the same
/// pre-step snapshot of the grid.
pub open spec fn step(cells: Seq<Cell>, w: int, h: int) -> Seq<Cell>
    recommends
        1 <= w,
        1 <= h,
        cells.len() == w * h,
{
    Seq::new((w * h) as nat, |i: int| next_cell(cells[i], neighbor_count(cells, w, h, i / w, i % w)))
}

/// `n` generations, each computed from the result of the one before it.
pub open spec fn step_n(cells: Seq<Cell>, w: int, h: int, n: nat) -> Seq<Cell>
    decreases n,
{
    if n == 0 {
        cells
    } else {
        step(step_n(cells, w, h, (n - 1) as nat), w, h)
    }
}

/// A grid of `n` cells, all dead.
pub open spec fn all_dead(n: nat) -> Seq<Cell> {
    Seq::new(n, |i: int| Cell::Dead)
}

/// Whether the coordinate pair (r, c) occurs among the first `n` entries
/// of `coords`.
pub open spec fn listed_before(coords: Seq<(u32, u32)>, n: int, r: int, c: int) -> bool {
    exists|k: int| 0 <= k < n && #[trigger] coords[k].0 == r && coords[k].1 == c
}

/// Whether the coordinate pair (r, c) occurs in `coords`.
pub open spec fn listed(coords: Seq<(u32, u32)>, r: int, c: int) -> bool {
    listed_before(coords, coords.len() as int, r, c)
}

/// The row-major index of an in-range coordinate lies inside the buffer.
pub proof fn lemma_grid_index_bounds(r: int, c: int, w: int, h: int)
    requires
        0 <= r < h,
        0 <= c < w,
    ensures
        0 <= r * w + c < w * h,
{
    assert(0 <= r * w + c < w * h) by (nonlinear_arith)
        requires
            0 <= r < h,
            0 <= c < w,
    ;
}

/// Row and column can be recovered from a row-major index.
pub proof fn lemma_grid_index_decompose(r: int, c: int, w: int)
    requires
        0 <= r,
        0 <= c < w,
    ensures
        (r * w + c) / w == r,
        (r * w + c) % w == c,
{
    lemma_fundamental_div_mod_converse(r * w + c, w, r, c);
}

/// Two distinct in-range coordinates have distinct row-major indices.
pub proof fn lemma_grid_index_injective(r1: int, c1: int, r2: int, c2: int, w: int)
    requires
        0 <= r1,
        0 <= r2,
        0 <= c1 < w,
        0 <= c2 < w,
        r1 * w + c1 == r2 * w + c2,
    ensures
        r1 == r2,
        c1 == c2,
{
    lemma_grid_index_decompose(r1, c1, w);
    lemma_grid_index_decompose(r2, c2, w);
}

/// Determinism: the coming generations are a function of the current cell
/// buffer and the dimensions alone; equal inputs give equal outputs.
pub proof fn lemma_step_deterministic(a: Seq<Cell>, b: Seq<Cell>, w: int, h: int, n: nat)
    requires
        a == b,
    ensures
        step_n(a, w, h, n) == step_n(b, w, h, n),
{
}

/// Chaining: advancing m + n generations is advancing m and then n more
/// from the result. In particular a two-step tick equals two single-step
/// ticks run in sequence.
pub proof fn lemma_step_n_chains(cells: Seq<Cell>, w: int, h: int, m: nat, n: nat)
    ensures
        step_n(cells, w, h, m + n) == step_n(step_n(cells, w, h, m), w, h, n),
    decreases n,
{
    if n > 0 {
        lemma_step_n_chains(cells, w, h, m, (n - 1) as nat);
        assert(m + n - 1 == m + (n - 1) as nat);
    }
}

/// Toroidal wraparound: a live cell in the top-left corner is counted as a
/// neighbor of the opposite corner and of the two corners adjacent to it
/// across the edges.
pub proof fn lemma_wraparound_corner(cells: Seq<Cell>, w: int, h: int)
    requires
        1 <= w,
        1 <= h,
        cells.len() == w * h,
        cells[0] is Alive,
    ensures
        neighbor_count(cells, w, h, h - 1, w - 1) >= 1,
        neighbor_count(cells, w, h, h - 1, 0) >= 1,
        neighbor_count(cells, w, h, 0, w - 1) >= 1,
{
    lemma_mod_multiples_vanish(2, 0, h);
    lemma_mod_multiples_vanish(2, 0, w);
    lemma_mod_multiples_vanish(1, 0, h);
    lemma_mod_multiples_vanish(1, 0, w);
    lemma_small_mod(0, h as nat);
    lemma_small_mod(0, w as nat);
    assert(wrap(h - 1, 1, h) == 0);
    assert(wrap(w - 1, 1, w) == 0);
    assert(wrap(0, 0, h) == 0);
    assert(wrap(0, 0, w) == 0);
    assert(live_bit(cells[wrap(h - 1, 1, h) * w + wrap(w - 1, 1, w)]) == 1);
    assert(live_bit(cells[wrap(h - 1, 1, h) * w + wrap(0, 0, w)]) == 1);
    assert(live_bit(cells[wrap(0, 0, h) * w + wrap(w - 1, 1, w)]) == 1);
}

} // verus!
