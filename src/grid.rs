//! The mathematical model of a universe: a board of cells on a torus, the
//! neighbour count, the transition rule and the text rendering.
use vstd::prelude::*;

verus! {

/// The state of one cell.
#[derive(Clone, Copy, Debug, PartialEq, Eq, Structural)]
pub enum Cell {
    Dead,
    Alive,
}

/// A grid of `width * height` cells in row-major order: cell `(row, col)`
/// is entry `row * width + col` of `cells`, `true` when alive.
pub struct Board {
    pub width: nat,
    pub height: nat,
    pub cells: Seq<bool>,
}

impl Board {
    /// The cell sequence has exactly one entry per position.
    pub open spec fn wf(self) -> bool {
        self.cells.len() == self.width * self.height
    }

    pub open spec fn in_bounds(self, row: int, col: int) -> bool {
        0 <= row < self.height && 0 <= col < self.width
    }

    /// The row-major offset of `(row, col)`.
    pub open spec fn index(self, row: int, col: int) -> int {
        row * self.width + col
    }

    pub open spec fn alive(self, row: int, col: int) -> bool {
        self.cells[self.index(row, col)]
    }

    pub open spec fn all_dead(self) -> bool {
        forall|i: int| 0 <= i < self.cells.len() ==> !#[trigger] self.cells[i]
    }
}

/// A board of the given size with every cell dead.
pub open spec fn dead_board(width: nat, height: nat) -> Board {
    Board { width, height, cells: Seq::new(width * height, |i: int| false) }
}

/// The coordinate `x + d` on a ring of `n` positions, kept non-negative by
/// adding `n` before the modulo.
pub open spec fn wrap(x: int, d: int, n: int) -> int {
    (x + d + n) % n
}

pub open spec fn bit(b: bool) -> nat {
    if b {
        1
    } else {
        0
    }
}

/// 1 when the neighbour of `(row, col)` at offset `(dr, dc)` is alive.
pub open spec fn neighbor(b: Board, row: int, col: int, dr: int, dc: int) -> nat {
    bit(b.alive(wrap(row, dr, b.height as int), wrap(col, dc, b.width as int)))
}

/// The number of live cells among the eight wrapped neighbours of `(row, col)`.
pub open spec fn live_neighbors(b: Board, row: int, col: int) -> nat {
    neighbor(b, row, col, -1, -1) + neighbor(b, row, col, -1, 0) + neighbor(b, row, col, -1, 1)
        + neighbor(b, row, col, 0, -1) + neighbor(b, row, col, 0, 1) + neighbor(b, row, col, 1, -1)
        + neighbor(b, row, col, 1, 0) + neighbor(b, row, col, 1, 1)
}

/// Conway's rule: whether a cell is alive in the next generation.
pub open spec fn next_state(alive: bool, n: nat) -> bool {
    if alive && n < 2 {
        false  // underpopulation
    } else if alive && (n == 2 || n == 3) {
        true  // survival
    } else if alive && n > 3 {
        false  // overpopulation
    } else if !alive && n == 3 {
        true  // birth
    } else {
        alive
    }
}

/// The next generation, every cell computed from `b` alone.
pub open spec fn step(b: Board) -> Board {
    Board {
        width: b.width,
        height: b.height,
        cells: Seq::new(
            b.cells.len(),
            |i: int|
                next_state(
                    b.cells[i],
                    live_neighbors(b, i / (b.width as int), i % (b.width as int)),
                ),
        ),
    }
}

pub open spec fn glyph(alive: bool) -> char {
    if alive {
        '\u{25a0}'
    } else {
        '\u{25a1}'
    }
}

/// The glyphs of the first `n` cells of row `row`.
pub open spec fn row_text(b: Board, row: int, n: nat) -> Seq<char>
    decreases n,
{
    if n == 0 {
        Seq::empty()
    } else {
        row_text(b, row, (n - 1) as nat).push(glyph(b.alive(row, n - 1)))
    }
}

/// The first `n` rows, each followed by a line break.
pub open spec fn rows_text(b: Board, n: nat) -> Seq<char>
    decreases n,
{
    if n == 0 {
        Seq::empty()
    } else {
        rows_text(b, (n - 1) as nat) + row_text(b, n - 1, b.width).push('\n')
    }
}

/// The text form of a board: `height` lines of `width` glyphs.
pub open spec fn render_text(b: Board) -> Seq<char> {
    rows_text(b, b.height)
}

/// Whether one of the first `n` listed coordinates is the position of offset `i`.
pub open spec fn listed(b: Board, coords: Seq<(u32, u32)>, n: nat, i: int) -> bool {
    exists|k: int| 0 <= k < n && b.index(coords[k].0 as int, coords[k].1 as int) == i
}

/// `b` with the first `n` listed coordinates made alive.
pub open spec fn with_alive(b: Board, coords: Seq<(u32, u32)>, n: nat) -> Board {
    Board {
        width: b.width,
        height: b.height,
        cells: Seq::new(b.cells.len(), |i: int| b.cells[i] || listed(b, coords, n, i)),
    }
}

} // verus!
