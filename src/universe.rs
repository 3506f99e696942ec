//! The executable universe: a `width x height` torus of cells packed one bit
//! per cell, advanced one generation at a time.
use crate::bitset::{self, bits_of, word_bit};
use crate::grid::{
    dead_board, glyph, listed, live_neighbors, render_text, row_text, rows_text, step, with_alive,
    wrap, Board, Cell,
};
use fixedbitset::FixedBitSet;
use vstd::arithmetic::div_mod::{
    lemma_fundamental_div_mod_converse, lemma_mod_add_multiples_vanish,
};
use vstd::prelude::*;

verus! {

/// The width of a universe made by `new`.
pub const DEFAULT_WIDTH: u32 = 64;

/// The height of a universe made by `new`.
pub const DEFAULT_HEIGHT: u32 = 64;

pub struct Universe {
    width: u32,
    height: u32,
    cells: FixedBitSet,
}

impl View for Universe {
    type V = Board;

    closed spec fn view(&self) -> Board {
        Board { width: self.width as nat, height: self.height as nat, cells: bits_of(self.cells) }
    }
}

/// The neighbour offsets `n - 1`, `0` and `1` taken modulo `n` are the
/// offsets `-1`, `0` and `1` of `wrap`.
proof fn lemma_offsets(x: int, n: int)
    requires
        0 <= x < n,
    ensures
        (x + (n - 1)) % n == wrap(x, -1, n),
        (x + 0) % n == wrap(x, 0, n),
        (x + 1) % n == wrap(x, 1, n),
{
    lemma_mod_add_multiples_vanish(x, n);
    lemma_mod_add_multiples_vanish(x + 1, n);
}

/// A position inside a `width x height` grid has an offset inside its cells.
proof fn lemma_index_in_range(row: int, col: int, width: int, height: int)
    requires
        0 <= row < height,
        0 <= col < width,
    ensures
        0 <= row * width + col < width * height,
{
    assert(row * width + col < width * height) by (nonlinear_arith)
        requires
            0 <= row < height,
            0 <= col < width,
    ;
    assert(0 <= row * width) by (nonlinear_arith)
        requires
            0 <= row,
            0 <= col < width,
    ;
}

impl Universe {
    /// The cells are exactly `width * height` bits, and that count fits in `usize`.
    pub open spec fn wf(&self) -> bool {
        &&& self@.wf()
        &&& self@.width * self@.height <= usize::MAX
    }

    /// The row-major offset of `(row, column)`.
    pub fn get_index(&self, row: u32, column: u32) -> (r: usize)
        requires
            self.wf(),
            row < self@.height,
            column < self@.width,
        ensures
            r == row * self@.width + column,
            r < self@.cells.len(),
    {
        proof {
            lemma_index_in_range(row as int, column as int, self.width as int, self.height as int);
        }
        row as usize * self.width as usize + column as usize
    }

    /// 1 when the cell at `((row + dr) % height, (column + dc) % width)` is alive, else 0.
    fn neighbor_bit(&self, row: u32, column: u32, dr: u32, dc: u32) -> (r: u8)
        requires
            self.wf(),
            row < self@.height,
            column < self@.width,
        ensures
            r as nat == crate::grid::bit(
                self@.alive((row + dr) % (self.height as int), (column + dc) % (self.width as int)),
            ),
    {
        let nr = ((row as u64 + dr as u64) % self.height as u64) as u32;
        let nc = ((column as u64 + dc as u64) % self.width as u64) as u32;
        let idx = self.get_index(nr, nc);
        if bitset::contains(&self.cells, idx) {
            1
        } else {
            0
        }
    }

    /// The number of live cells among the eight neighbours of `(row, column)`,
    /// wrapping around the edges of the torus.
    pub fn live_neighbor_count(&self, row: u32, column: u32) -> (r: u8)
        requires
            self.wf(),
            row < self@.height,
            column < self@.width,
        ensures
            r == live_neighbors(self@, row as int, column as int),
            r <= 8,
    {
        let up = self.height - 1;
        let left = self.width - 1;
        proof {
            lemma_offsets(row as int, self.height as int);
            lemma_offsets(column as int, self.width as int);
        }
        self.neighbor_bit(row, column, up, left) + self.neighbor_bit(row, column, up, 0)
            + self.neighbor_bit(row, column, up, 1) + self.neighbor_bit(row, column, 0, left)
            + self.neighbor_bit(row, column, 0, 1) + self.neighbor_bit(row, column, 1, left)
            + self.neighbor_bit(row, column, 1, 0) + self.neighbor_bit(row, column, 1, 1)
    }

    /// Advances the universe by one generation. Every cell of the next
    /// generation is computed from the current one into a separate buffer,
    /// which then replaces the cells.
    pub fn tick(&mut self)
        requires
            old(self).wf(),
        ensures
            final(self).wf(),
            final(self)@ == step(old(self)@),
    {
        let ghost current = self@;
        let ghost target = step(current);
        let size = self.width as usize * self.height as usize;
        let mut next = bitset::with_capacity(size);
        let mut row: u32 = 0;
        while row < self.height
            invariant
                self.wf(),
                self@ == current,
                target == step(current),
                size == current.cells.len(),
                bits_of(next).len() == size,
                row <= self.height,
                forall|i: int|
                    0 <= i < row * self.width ==> #[trigger] bits_of(next)[i] == target.cells[i],
            decreases self.height - row,
        {
            let mut col: u32 = 0;
            while col < self.width
                invariant
                    self.wf(),
                    self@ == current,
                    target == step(current),
                    size == current.cells.len(),
                    bits_of(next).len() == size,
                    row < self.height,
                    col <= self.width,
                    forall|i: int|
                        0 <= i < row * self.width + col ==> #[trigger] bits_of(next)[i]
                            == target.cells[i],
                decreases self.width - col,
            {
                let idx = self.get_index(row, col);
                let cell = bitset::contains(&self.cells, idx);
                let live_neighbors = self.live_neighbor_count(row, col);
                let alive = match (cell, live_neighbors) {
                    (true, n) if n < 2 => false,
                    (true, 2) | (true, 3) => true,
                    (true, n) if n > 3 => false,
                    (false, 3) => true,
                    (otherwise, _) => otherwise,
                };
                proof {
                    lemma_fundamental_div_mod_converse(
                        idx as int,
                        self.width as int,
                        row as int,
                        col as int,
                    );
                }
                bitset::set(&mut next, idx, alive);
                col += 1;
            }
            proof {
                let (r, w) = (row as int, self.width as int);
                assert(r * w + w == (r + 1) * w) by (nonlinear_arith);
            }
            row += 1;
        }
        proof {
            let (h, w) = (self.height as int, self.width as int);
            assert(h * w == w * h) by (nonlinear_arith);
            assert(bits_of(next) =~= target.cells);
        }
        self.cells = next;
    }

    /// A universe of the default size whose cell at offset `i` is alive
    /// exactly when `alive[i]` holds.
    pub fn new(alive: &[bool]) -> (r: Self)
        requires
            alive@.len() == DEFAULT_WIDTH * DEFAULT_HEIGHT,
        ensures
            r.wf(),
            r@.width == DEFAULT_WIDTH,
            r@.height == DEFAULT_HEIGHT,
            r@.cells == alive@,
    {
        let width: u32 = DEFAULT_WIDTH;
        let height: u32 = DEFAULT_HEIGHT;
        let size = (width * height) as usize;
        let mut cells = bitset::with_capacity(size);
        let mut i: usize = 0;
        while i < size
            invariant
                size == alive@.len(),
                bits_of(cells).len() == size,
                i <= size,
                forall|j: int| 0 <= j < i ==> #[trigger] bits_of(cells)[j] == alive@[j],
            decreases size - i,
        {
            bitset::set(&mut cells, i, alive[i]);
            i += 1;
        }
        assert(bits_of(cells) =~= alive@);
        Universe { width, height, cells }
    }

    /// The universe as text: one line per row, one glyph per cell.
    pub fn render(&self) -> (r: String)
        requires
            self.wf(),
        ensures
            r@ == render_text(self@),
    {
        let mut text = String::new();
        let mut row: u32 = 0;
        while row < self.height
            invariant
                self.wf(),
                row <= self.height,
                text@ == rows_text(self@, row as nat),
            decreases self.height - row,
        {
            let mut col: u32 = 0;
            while col < self.width
                invariant
                    self.wf(),
                    row < self.height,
                    col <= self.width,
                    text@ == rows_text(self@, row as nat) + row_text(self@, row as int, col as nat),
                decreases self.width - col,
            {
                let idx = self.get_index(row, col);
                let symbol = if bitset::contains(&self.cells, idx) {
                    '\u{25a0}'
                } else {
                    '\u{25a1}'
                };
                assert(symbol == glyph(self@.alive(row as int, col as int)));
                push_char(&mut text, symbol);
                assert(text@ =~= rows_text(self@, row as nat) + row_text(
                    self@,
                    row as int,
                    (col + 1) as nat,
                ));
                col += 1;
            }
            push_char(&mut text, '\n');
            assert(text@ =~= rows_text(self@, (row + 1) as nat));
            row += 1;
        }
        text
    }

    pub fn width(&self) -> (r: u32)
        ensures
            r == self@.width,
    {
        self.width
    }

    pub fn height(&self) -> (r: u32)
        ensures
            r == self@.height,
    {
        self.height
    }

    /// The packed cell words: cell `i` (row-major) is bit `i % 32` of word `i / 32`.
    /// The view is borrowed, so it cannot outlive the next change to the universe.
    pub fn cells(&self) -> (r: &[u32])
        ensures
            r@.len() == (self@.cells.len() + 31) / 32,
            forall|i: int|
                0 <= i < self@.cells.len() ==> #[trigger] self@.cells[i] == word_bit(
                    r@[i / 32],
                    (i % 32) as nat,
                ),
    {
        bitset::as_slice(&self.cells)
    }

    /// Sets the width and clears the universe: every cell of the new size is dead.
    pub fn set_width(&mut self, width: u32)
        requires
            old(self).wf(),
            width * old(self)@.height <= usize::MAX,
        ensures
            final(self).wf(),
            final(self)@ == dead_board(width as nat, old(self)@.height),
    {
        let size = width as usize * self.height as usize;
        let cells = bitset::with_capacity(size);
        self.width = width;
        self.cells = cells;
    }

    /// Sets the height and clears the universe: every cell of the new size is dead.
    pub fn set_height(&mut self, height: u32)
        requires
            old(self).wf(),
            old(self)@.width * height <= usize::MAX,
        ensures
            final(self).wf(),
            final(self)@ == dead_board(old(self)@.width, height as nat),
    {
        let size = self.width as usize * height as usize;
        let cells = bitset::with_capacity(size);
        self.height = height;
        self.cells = cells;
    }

    /// The packed cells themselves.
    pub fn get_cells(&self) -> (r: &FixedBitSet)
        ensures
            bits_of(*r) == self@.cells,
    {
        &self.cells
    }

    /// Makes every listed `(row, column)` alive; the other cells keep their state.
    pub fn set_cells(&mut self, cells: &[(u32, u32)])
        requires
            old(self).wf(),
            forall|k: int|
                0 <= k < cells@.len() ==> #[trigger] old(self)@.in_bounds(
                    cells@[k].0 as int,
                    cells@[k].1 as int,
                ),
        ensures
            final(self).wf(),
            final(self)@ == with_alive(old(self)@, cells@, cells@.len()),
    {
        let ghost start = self@;
        assert(with_alive(start, cells@, 0).cells =~= start.cells);
        let mut j: usize = 0;
        while j < cells.len()
            invariant
                self.wf(),
                start.wf(),
                self@.width == start.width,
                self@.height == start.height,
                j <= cells@.len(),
                forall|k: int|
                    0 <= k < cells@.len() ==> #[trigger] start.in_bounds(
                        cells@[k].0 as int,
                        cells@[k].1 as int,
                    ),
                self@ == with_alive(start, cells@, j as nat),
            decreases cells.len() - j,
        {
            let (row, col) = cells[j];
            assert(start.in_bounds(cells@[j as int].0 as int, cells@[j as int].1 as int));
            let idx = self.get_index(row, col);
            bitset::set(&mut self.cells, idx, true);
            assert(self@.cells =~= with_alive(start, cells@, (j + 1) as nat).cells) by {
                let target = with_alive(start, cells@, (j + 1) as nat);
                assert forall|i: int| 0 <= i < self@.cells.len() implies self@.cells[i]
                    == target.cells[i] by {
                    if i != idx {
                        if listed(start, cells@, (j + 1) as nat, i) {
                            let k = choose|k: int|
                                0 <= k < j + 1 && start.index(cells@[k].0 as int, cells@[k].1 as int)
                                    == i;
                            assert(k < j);
                        }
                    } else {
                        assert(start.index(cells@[j as int].0 as int, cells@[j as int].1 as int) == i);
                    }
                }
            }
            j += 1;
        }
    }

    /// The state of the cell at `(row, column)`.
    pub fn cell(&self, row: u32, column: u32) -> (r: Cell)
        requires
            self.wf(),
            row < self@.height,
            column < self@.width,
        ensures
            r == (if self@.alive(row as int, column as int) {
                Cell::Alive
            } else {
                Cell::Dead
            }),
    {
        let idx = self.get_index(row, column);
        if bitset::contains(&self.cells, idx) {
            Cell::Alive
        } else {
            Cell::Dead
        }
    }
}

/// Relies on String::push: appends one character.
#[verifier::external_body]
fn push_char(s: &mut String, c: char)
    ensures
        final(s)@ == old(s)@.push(c),
{
    s.push(c)
}

} // verus!
