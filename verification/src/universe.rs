//! The simulation engine: the grid state with its invariant, the
//! neighbor counter, the generation transition, and the mutation
//! operations.

use vstd::prelude::*;
use vstd::string::StringExecFns;
use rand::Rng;
use crate::cell;
use crate::cell::Cell;
use crate::rules;

verus! {

/// Relies on rand::thread_rng and rand::Rng::gen_range: `gen_range(0..2)`
/// draws a uniformly random value of the nonempty range `0..2`, so the
/// result is 0 or 1; nothing more is assumed of it.
#[verifier::external_body]
fn random_binary() -> (r: u32)
    ensures
        r < 2,
{
    rand::thread_rng().gen_range(0..2)
}

/// A buffer of `n` cells, all dead.
fn dead_cells(n: usize) -> (v: Vec<Cell>)
    ensures
        v@ == rules::all_dead(n as nat),
{
    let mut v: Vec<Cell> = Vec::new();
    let mut i: usize = 0;
    while i < n
        invariant
            i <= n,
            v@.len() == i,
            forall|j: int| 0 <= j < i ==> v@[j] == Cell::Dead,
        decreases n - i,
    {
        v.push(Cell::Dead);
        i = i + 1;
    }
    proof {
        assert(v@ =~= rules::all_dead(n as nat));
    }
    v
}

/// A buffer of `n` cells, each drawn independently at random.
fn random_cells(n: usize) -> (v: Vec<Cell>)
    ensures
        v@.len() == n,
{
    let mut v: Vec<Cell> = Vec::new();
    let mut i: usize = 0;
    while i < n
        invariant
            i <= n,
            v@.len() == i,
        decreases n - i,
    {
        let b = random_binary();
        if b == 1 {
            v.push(Cell::Alive);
        } else {
            v.push(Cell::Dead);
        }
        i = i + 1;
    }
    v
}

/// One toroidal step along an axis of length `m`. `dp1` is the delta plus
/// one, so 0, 1, 2 stand for a move of -1, 0, +1.
fn wrap_coord(x: u32, dp1: u32, m: u32) -> (r: u32)
    requires
        x < m,
        dp1 <= 2,
    ensures
        r as int == rules::wrap(x as int, dp1 as int - 1, m as int),
        r < m,
{
    let t: u64 = x as u64 + m as u64 + dp1 as u64 - 1;
    let r64: u64 = t % (m as u64);
    r64 as u32
}

/// The glyph that renders one cell: '#' for a live cell, '.' for a dead one.
pub open spec fn glyph(c: Cell) -> char {
    if c is Alive {
        '#'
    } else {
        '.'
    }
}

/// The characters of row `r` of the text rendering: `w` glyphs and a newline.
pub open spec fn row_text(cells: Seq<Cell>, w: int, r: int) -> Seq<char> {
    Seq::new(w as nat, |j: int| glyph(cells[r * w + j])).push('\n')
}

/// The first `r` rows of the text rendering; with `r` the grid height, the
/// whole rendering.
pub open spec fn text_upto(cells: Seq<Cell>, w: int, r: int) -> Seq<char>
    decreases r,
{
    if r <= 0 {
        Seq::empty()
    } else {
        text_upto(cells, w, r - 1) + row_text(cells, w, r - 1)
    }
}

/// A toroidal Life universe: positive dimensions and a row-major cell
/// buffer of length exactly `width * height`.
pub struct Universe {
    width: u32,
    height: u32,
    cells: Vec<Cell>,
}

impl Universe {
    /// The grid width, as a mathematical integer.
    pub closed spec fn spec_width(&self) -> int {
        self.width as int
    }

    /// The grid height, as a mathematical integer.
    pub closed spec fn spec_height(&self) -> int {
        self.height as int
    }

    /// The cell buffer, row-major.
    pub closed spec fn grid(&self) -> Seq<Cell> {
        self.cells@
    }

    /// Well-formedness: positive dimensions and a buffer of length exactly
    /// `width * height` (which therefore fits in a usize).
    pub open spec fn wf(&self) -> bool {
        &&& 1 <= self.spec_width()
        &&& 1 <= self.spec_height()
        &&& self.grid().len() == self.spec_width() * self.spec_height()
        &&& self.spec_width() * self.spec_height() <= usize::MAX as int
    }

    /// A fresh universe of the given dimensions, every cell chosen
    /// independently at random.
    pub fn new(width: u32, height: u32) -> (u: Universe)
        requires
            1 <= width,
            1 <= height,
            width as int * height as int <= usize::MAX as int,
        ensures
            u.wf(),
            u.spec_width() == width,
            u.spec_height() == height,
    {
        let total64: u64 = width as u64 * height as u64;
        let total: usize = total64 as usize;
        let cells = random_cells(total);
        Universe { width, height, cells }
    }

    /// Row-major position of (row, col) in the cell buffer.
    fn get_index(&self, row: u32, col: u32) -> (idx: usize)
        requires
            self.wf(),
            row < self.spec_height(),
            col < self.spec_width(),
        ensures
            idx == row as int * self.spec_width() + col as int,
            idx < self.grid().len(),
    {
        proof {
            rules::lemma_grid_index_bounds(
                row as int,
                col as int,
                self.spec_width(),
                self.spec_height(),
            );
        }
        (row as usize) * (self.width as usize) + (col as usize)
    }

    /// Flip the one cell at (row, col) and leave every other cell unchanged.
    pub fn toggle_cell(&mut self, row: u32, col: u32)
        requires
            old(self).wf(),
            row < old(self).spec_height(),
            col < old(self).spec_width(),
        ensures
            final(self).wf(),
            final(self).spec_width() == old(self).spec_width(),
            final(self).spec_height() == old(self).spec_height(),
            final(self).grid() == old(self).grid().update(
                row as int * old(self).spec_width() + col as int,
                cell::flipped(old(self).grid()[row as int * old(self).spec_width() + col as int]),
            ),
            forall|j: int|
                0 <= j < old(self).grid().len() && j != row as int * old(self).spec_width()
                    + col as int ==> final(self).grid()[j] == old(self).grid()[j],
    {
        let idx = self.get_index(row, col);
        let mut c = self.cells[idx];
        c.toggle();
        self.cells[idx] = c;
    }

    /// Set the width and reallocate the buffer for the new dimensions,
    /// every cell dead: a destructive resize that discards prior contents.
    pub fn set_width(&mut self, width: u32)
        requires
            old(self).wf(),
            1 <= width,
            width as int * old(self).spec_height() <= usize::MAX as int,
        ensures
            final(self).wf(),
            final(self).spec_width() == width,
            final(self).spec_height() == old(self).spec_height(),
            final(self).grid() == rules::all_dead(
                (width as int * old(self).spec_height()) as nat,
            ),
    {
        let total64: u64 = width as u64 * self.height as u64;
        let total: usize = total64 as usize;
        self.width = width;
        self.cells = dead_cells(total);
    }

    /// The grid width.
    pub fn width(&self) -> (w: u32)
        ensures
            w as int == self.spec_width(),
    {
        self.width
    }

    /// Set the height and reallocate the buffer for the new dimensions,
    /// every cell dead: a destructive resize that discards prior contents.
    pub fn set_height(&mut self, height: u32)
        requires
            old(self).wf(),
            1 <= height,
            old(self).spec_width() * height as int <= usize::MAX as int,
        ensures
            final(self).wf(),
            final(self).spec_width() == old(self).spec_width(),
            final(self).spec_height() == height,
            final(self).grid() == rules::all_dead(
                (old(self).spec_width() * height as int) as nat,
            ),
    {
        let total64: u64 = self.width as u64 * height as u64;
        let total: usize = total64 as usize;
        self.height = height;
        self.cells = dead_cells(total);
    }

    /// The grid height.
    pub fn height(&self) -> (h: u32)
        ensures
            h as int == self.spec_height(),
    {
        self.height
    }

    /// Read-only borrowed view of the cell buffer, row-major, for the host
    /// renderer; never a copy.
    pub fn cells(&self) -> (r: &[Cell])
        ensures
            r@ == self.grid(),
    {
        self.cells.as_slice()
    }

    /// Replace every cell with an independent uniformly random choice.
    pub fn reset(&mut self)
        requires
            old(self).wf(),
        ensures
            final(self).wf(),
            final(self).spec_width() == old(self).spec_width(),
            final(self).spec_height() == old(self).spec_height(),
    {
        let total = self.cells.len();
        self.cells = random_cells(total);
    }

    /// Set every cell dead.
    pub fn die(&mut self)
        requires
            old(self).wf(),
        ensures
            final(self).wf(),
            final(self).spec_width() == old(self).spec_width(),
            final(self).spec_height() == old(self).spec_height(),
            final(self).grid() == rules::all_dead(old(self).grid().len()),
    {
        let total = self.cells.len();
        self.cells = dead_cells(total);
    }

    /// The cell buffer itself, borrowed.
    pub fn get_cells(&self) -> (r: &Vec<Cell>)
        ensures
            r@ == self.grid(),
    {
        &self.cells
    }

    /// Set each listed (row, col) cell alive, leaving every other cell
    /// unchanged. Meant for deterministic setup of a pattern.
    pub fn set_cells(&mut self, coords: &[(u32, u32)])
        requires
            old(self).wf(),
            forall|k: int|
                0 <= k < coords@.len() ==> (#[trigger] coords@[k].0) < old(self).spec_height()
                    && coords@[k].1 < old(self).spec_width(),
        ensures
            final(self).wf(),
            final(self).spec_width() == old(self).spec_width(),
            final(self).spec_height() == old(self).spec_height(),
            forall|r: int, c: int|
                0 <= r < old(self).spec_height() && 0 <= c < old(self).spec_width()
                    ==> #[trigger] final(self).grid()[r * old(self).spec_width() + c] == (
                if rules::listed(coords@, r, c) {
                    Cell::Alive
                } else {
                    old(self).grid()[r * old(self).spec_width() + c]
                }),
    {
        let ghost orig: Seq<Cell> = self.grid();
        let ghost w: int = self.spec_width();
        let ghost h: int = self.spec_height();
        let mut k: usize = 0;
        while k < coords.len()
            invariant
                self.wf(),
                w == self.spec_width(),
                h == self.spec_height(),
                orig.len() == self.grid().len(),
                k <= coords@.len(),
                forall|k2: int|
                    0 <= k2 < coords@.len() ==> (#[trigger] coords@[k2].0) < h && coords@[k2].1
                        < w,
                forall|r: int, c: int|
                    0 <= r < h && 0 <= c < w ==> #[trigger] self.grid()[r * w + c] == (
                    if rules::listed_before(coords@, k as int, r, c) {
                        Cell::Alive
                    } else {
                        orig[r * w + c]
                    }),
            decreases coords@.len() - k,
        {
            let (row, col) = coords[k];
            let idx = self.get_index(row, col);
            let ghost before: Seq<Cell> = self.grid();
            self.cells[idx] = Cell::Alive;
            proof {
                assert forall|r: int, c: int| 0 <= r < h && 0 <= c < w implies #[trigger] self
                    .grid()[r * w + c] == (if rules::listed_before(coords@, k + 1, r, c) {
                    Cell::Alive
                } else {
                    orig[r * w + c]
                }) by {
                    rules::lemma_grid_index_bounds(r, c, w, h);
                    if r == row as int && c == col as int {
                        assert(coords@[k as int].0 == r && coords@[k as int].1 == c);
                        assert(rules::listed_before(coords@, k + 1, r, c));
                    } else {
                        if r * w + c == idx as int {
                            rules::lemma_grid_index_injective(r, c, row as int, col as int, w);
                        }
                        assert(r * w + c != idx as int);
                        assert(self.grid()[r * w + c] == before[r * w + c]);
                        assert(rules::listed_before(coords@, k + 1, r, c)
                            == rules::listed_before(coords@, k as int, r, c)) by {
                            if rules::listed_before(coords@, k + 1, r, c) {
                                let k2 = choose|k2: int|
                                    0 <= k2 < k + 1 && (#[trigger] coords@[k2].0) == r
                                        && coords@[k2].1 == c;
                                assert(k2 < k as int);
                                assert(rules::listed_before(coords@, k as int, r, c));
                            }
                        }
                    }
                }
            }
            k = k + 1;
        }
    }

    /// Render the grid as text: `height` lines of `width` glyphs, '#' for
    /// a live cell and '.' for a dead one, each line ended by a newline.
    pub fn render_text(&self) -> (out: String)
        requires
            self.wf(),
        ensures
            out@ == text_upto(self.grid(), self.spec_width(), self.spec_height()),
    {
        let ghost w: int = self.spec_width();
        let ghost h: int = self.spec_height();
        let mut out = String::new();
        let mut row: u32 = 0;
        while row < self.height
            invariant
                self.wf(),
                w == self.spec_width(),
                h == self.spec_height(),
                (row as int) <= h,
                out@ == text_upto(self.grid(), w, row as int),
            decreases h - row as int,
        {
            let mut col: u32 = 0;
            while col < self.width
                invariant
                    self.wf(),
                    w == self.spec_width(),
                    h == self.spec_height(),
                    (row as int) < h,
                    (col as int) <= w,
                    out@ == text_upto(self.grid(), w, row as int) + Seq::new(
                        col as nat,
                        |j: int| glyph(self.grid()[row as int * w + j]),
                    ),
                decreases w - col as int,
            {
                let idx = self.get_index(row, col);
                let alive = match self.cells[idx] {
                    Cell::Alive => true,
                    Cell::Dead => false,
                };
                if alive {
                    out.append("#");
                } else {
                    out.append(".");
                }
                proof {
                    reveal_strlit("#");
                    reveal_strlit(".");
                    assert(out@ =~= text_upto(self.grid(), w, row as int) + Seq::new(
                        (col + 1) as nat,
                        |j: int| glyph(self.grid()[row as int * w + j]),
                    ));
                }
                col = col + 1;
            }
            out.append("\n");
            proof {
                reveal_strlit("\n");
                assert(out@ =~= text_upto(self.grid(), w, row as int + 1));
            }
            row = row + 1;
        }
        out
    }

    /// 1 if the cell at (row, col) is alive, else 0.
    fn cell_bit(&self, row: u32, col: u32) -> (b: u8)
        requires
            self.wf(),
            row < self.spec_height(),
            col < self.spec_width(),
        ensures
            b as int == rules::live_bit(
                self.grid()[row as int * self.spec_width() + col as int],
            ),
    {
        let idx = self.get_index(row, col);
        match self.cells[idx] {
            Cell::Alive => 1,
            Cell::Dead => 0,
        }
    }

    /// Live cells among the 8 Moore neighbors of (row, col), wrapping
    /// across the grid's edges.
    fn live_neighbor_count(&self, row: u32, col: u32) -> (count: u8)
        requires
            self.wf(),
            row < self.spec_height(),
            col < self.spec_width(),
        ensures
            count as int == rules::neighbor_count(
                self.grid(),
                self.spec_width(),
                self.spec_height(),
                row as int,
                col as int,
            ),
            count <= 8,
    {
        let rm = wrap_coord(row, 0, self.height);
        let rz = wrap_coord(row, 1, self.height);
        let rp = wrap_coord(row, 2, self.height);
        let cm = wrap_coord(col, 0, self.width);
        let cz = wrap_coord(col, 1, self.width);
        let cp = wrap_coord(col, 2, self.width);
        let mut count: u8 = 0;
        count = count + self.cell_bit(rm, cm);
        count = count + self.cell_bit(rm, cz);
        count = count + self.cell_bit(rm, cp);
        count = count + self.cell_bit(rz, cm);
        count = count + self.cell_bit(rz, cp);
        count = count + self.cell_bit(rp, cm);
        count = count + self.cell_bit(rp, cz);
        count = count + self.cell_bit(rp, cp);
        count
    }

    /// The next generation, computed wholly from the current buffer.
    fn next_generation(&self) -> (out: Vec<Cell>)
        requires
            self.wf(),
        ensures
            out@ == rules::step(self.grid(), self.spec_width(), self.spec_height()),
    {
        let ghost w: int = self.spec_width();
        let ghost h: int = self.spec_height();
        let ghost target: Seq<Cell> = rules::step(self.grid(), w, h);
        let mut out: Vec<Cell> = Vec::new();
        let mut row: u32 = 0;
        while row < self.height
            invariant
                self.wf(),
                w == self.spec_width(),
                h == self.spec_height(),
                target == rules::step(self.grid(), w, h),
                (row as int) <= h,
                out@.len() == row as int * w,
                forall|i: int| 0 <= i < out@.len() ==> out@[i] == target[i],
            decreases h - row as int,
        {
            let mut col: u32 = 0;
            while col < self.width
                invariant
                    self.wf(),
                    w == self.spec_width(),
                    h == self.spec_height(),
                    target == rules::step(self.grid(), w, h),
                    (row as int) < h,
                    (col as int) <= w,
                    out@.len() == row as int * w + col as int,
                    forall|i: int| 0 <= i < out@.len() ==> out@[i] == target[i],
                decreases w - col as int,
            {
                let live = self.live_neighbor_count(row, col);
                let idx = self.get_index(row, col);
                let cur = self.cells[idx];
                let next = apply_rule(cur, live);
                proof {
                    rules::lemma_grid_index_bounds(row as int, col as int, w, h);
                    rules::lemma_grid_index_decompose(row as int, col as int, w);
                }
                out.push(next);
                col = col + 1;
            }
            proof {
                assert((row as int + 1) * w == row as int * w + w) by (nonlinear_arith);
            }
            row = row + 1;
        }
        proof {
            assert(h * w == w * h) by (nonlinear_arith);
            assert(out@ =~= target);
        }
        out
    }

    /// Advance the universe `steps` generations; each generation is
    /// computed from the result of the one before it, never twice from
    /// the same snapshot.
    pub fn tick(&mut self, steps: usize)
        requires
            old(self).wf(),
            1 <= steps,
        ensures
            final(self).wf(),
            final(self).spec_width() == old(self).spec_width(),
            final(self).spec_height() == old(self).spec_height(),
            final(self).grid() == rules::step_n(
                old(self).grid(),
                old(self).spec_width(),
                old(self).spec_height(),
                steps as nat,
            ),
    {
        let ghost orig: Seq<Cell> = self.grid();
        let ghost w: int = self.spec_width();
        let ghost h: int = self.spec_height();
        let mut i: usize = 0;
        while i < steps
            invariant
                self.wf(),
                w == self.spec_width(),
                h == self.spec_height(),
                i <= steps,
                self.grid() == rules::step_n(orig, w, h, i as nat),
            decreases steps - i,
        {
            let next = self.next_generation();
            self.cells = next;
            i = i + 1;
        }
    }
}

/// Apply the Life rule to one cell, given its live-neighbor count.
fn apply_rule(c: Cell, live: u8) -> (r: Cell)
    ensures
        r == rules::next_cell(c, live as int),
{
    match c {
        Cell::Alive => if live < 2 {
            Cell::Dead
        } else if live <= 3 {
            Cell::Alive
        } else {
            Cell::Dead
        },
        Cell::Dead => if live == 3 {
            Cell::Alive
        } else {
            Cell::Dead
        },
    }
}

} // verus!
