//! General facts about the model: how offsets and positions correspond, and
//! what one generation does to empty boards, blocks and blinkers.
use crate::grid::{
    bit, dead_board, listed, live_neighbors, next_state, step, with_alive, wrap, Board,
};
use vstd::arithmetic::div_mod::{
    lemma_fundamental_div_mod, lemma_fundamental_div_mod_converse, lemma_mod_add_multiples_vanish,
    lemma_small_mod,
};
use vstd::prelude::*;

verus! {

/// The three wrapped neighbour coordinates of `x` on a ring of `n >= 1` positions.
pub proof fn lemma_wrap_values(x: int, n: int)
    requires
        0 <= x < n,
    ensures
        wrap(x, 0, n) == x,
        wrap(x, -1, n) == (if x == 0 {
            n - 1
        } else {
            x - 1
        }),
        wrap(x, 1, n) == (if x == n - 1 {
            0
        } else {
            x + 1
        }),
{
    lemma_mod_add_multiples_vanish(x, n);
    lemma_small_mod(x as nat, n as nat);
    if x == 0 {
        lemma_small_mod((n - 1) as nat, n as nat);
    } else {
        lemma_mod_add_multiples_vanish(x - 1, n);
        lemma_small_mod((x - 1) as nat, n as nat);
    }
    lemma_mod_add_multiples_vanish(x + 1, n);
    if x == n - 1 {
        lemma_mod_add_multiples_vanish(0, n);
        lemma_small_mod(0, n as nat);
    } else {
        lemma_small_mod((x + 1) as nat, n as nat);
    }
}

/// Every offset `i` of a well-formed board is the position `(i / width, i % width)`,
/// and distinct positions have distinct offsets.
pub proof fn lemma_position(b: Board, i: int)
    requires
        b.wf(),
        0 <= i < b.cells.len(),
    ensures
        b.in_bounds(i / (b.width as int), i % (b.width as int)),
        b.index(i / (b.width as int), i % (b.width as int)) == i,
{
    let w = b.width as int;
    let h = b.height as int;
    assert(w > 0) by (nonlinear_arith)
        requires
            0 <= i < w * h,
            w >= 0,
            h >= 0,
    ;
    lemma_fundamental_div_mod(i, w);
    let (q, m) = (i / w, i % w);
    assert(0 <= q < h) by (nonlinear_arith)
        requires
            i == w * q + m,
            0 <= m < w,
            0 <= i < w * h,
    ;
}

/// The corner `(0, 0)` counts the cells across both edges among its neighbours:
/// the last row and the last column wrap around to it.
pub proof fn lemma_corner_neighbors(b: Board)
    requires
        b.wf(),
        b.width > 0,
        b.height > 0,
    ensures
        live_neighbors(b, 0, 0) == bit(b.alive(b.height - 1, b.width - 1)) + bit(
            b.alive(b.height - 1, 0),
        ) + bit(b.alive(b.height - 1, 1int % (b.width as int))) + bit(b.alive(0, b.width - 1)) + bit(
            b.alive(0, 1int % (b.width as int)),
        ) + bit(b.alive(1int % (b.height as int), b.width - 1)) + bit(
            b.alive(1int % (b.height as int), 0),
        ) + bit(b.alive(1int % (b.height as int), 1int % (b.width as int))),
{
    let (w, h) = (b.width as int, b.height as int);
    lemma_wrap_values(0, h);
    lemma_wrap_values(0, w);
    if h == 1 {
        lemma_small_mod(0, 1);
    } else {
        lemma_small_mod(1, h as nat);
    }
    if w == 1 {
        lemma_small_mod(0, 1);
    } else {
        lemma_small_mod(1, w as nat);
    }
}

/// A generation depends on the previous one alone: computing it twice from
/// the same saved board gives the same board both times.
pub proof fn lemma_step_repeatable(saved: Board, first: Board, second: Board)
    requires
        first == saved,
        second == saved,
    ensures
        step(first) == step(second),
{
}

/// An all-dead board stays all dead.
pub proof fn lemma_all_dead_stays_dead(b: Board)
    requires
        b.wf(),
        b.all_dead(),
    ensures
        step(b).wf(),
        step(b).all_dead(),
{
    assert forall|i: int| 0 <= i < step(b).cells.len() implies !#[trigger] step(b).cells[i] by {
        lemma_position(b, i);
        let (r, c) = (i / (b.width as int), i % (b.width as int));
        let (w, h) = (b.width as int, b.height as int);
        lemma_wrap_values(r, h);
        lemma_wrap_values(c, w);
        lemma_index_bounds(b, wrap(r, -1, h), wrap(c, -1, w));
        lemma_index_bounds(b, wrap(r, -1, h), wrap(c, 0, w));
        lemma_index_bounds(b, wrap(r, -1, h), wrap(c, 1, w));
        lemma_index_bounds(b, wrap(r, 0, h), wrap(c, -1, w));
        lemma_index_bounds(b, wrap(r, 0, h), wrap(c, 1, w));
        lemma_index_bounds(b, wrap(r, 1, h), wrap(c, -1, w));
        lemma_index_bounds(b, wrap(r, 1, h), wrap(c, 0, w));
        lemma_index_bounds(b, wrap(r, 1, h), wrap(c, 1, w));
    }
}

/// A position inside the board has an offset inside its cells.
pub proof fn lemma_index_bounds(b: Board, row: int, col: int)
    requires
        b.wf(),
        b.in_bounds(row, col),
    ensures
        0 <= b.index(row, col) < b.cells.len(),
{
    let (w, h) = (b.width as int, b.height as int);
    assert(0 <= row * w + col < w * h) by (nonlinear_arith)
        requires
            0 <= row < h,
            0 <= col < w,
    ;
}

/// Resizing yields a well-formed board with every cell dead.
pub proof fn lemma_resized_board_is_dead(width: nat, height: nat)
    ensures
        dead_board(width, height).wf(),
        dead_board(width, height).all_dead(),
        dead_board(width, height).cells.len() == width * height,
{
}

/// Setting listed cells alive makes exactly the listed positions alive and
/// leaves every other position as it was.
pub proof fn lemma_set_cells_exact(b: Board, coords: Seq<(u32, u32)>, row: int, col: int)
    requires
        b.wf(),
        b.in_bounds(row, col),
        forall|k: int|
            0 <= k < coords.len() ==> #[trigger] b.in_bounds(coords[k].0 as int, coords[k].1 as int),
    ensures
        with_alive(b, coords, coords.len()).alive(row, col) == (b.alive(row, col) || exists|k: int|
            0 <= k < coords.len() && coords[k].0 == row && coords[k].1 == col),
{
    let w = b.width as int;
    lemma_index_bounds(b, row, col);
    let i = b.index(row, col);
    if listed(b, coords, coords.len(), i) {
        let k = choose|k: int|
            0 <= k < coords.len() && b.index(coords[k].0 as int, coords[k].1 as int) == i;
        assert(b.in_bounds(coords[k].0 as int, coords[k].1 as int));
        lemma_fundamental_div_mod_converse(i, w, row, col);
        lemma_fundamental_div_mod_converse(i, w, coords[k].0 as int, coords[k].1 as int);
    }
    if exists|k: int| 0 <= k < coords.len() && coords[k].0 == row && coords[k].1 == col {
        let k = choose|k: int| 0 <= k < coords.len() && coords[k].0 == row && coords[k].1 == col;
        assert(b.index(coords[k].0 as int, coords[k].1 as int) == i);
    }
}

/// The board whose live cells are exactly those in rows `top..=bottom` and
/// columns `left..=right`.
pub open spec fn rectangle(
    width: nat,
    height: nat,
    top: int,
    bottom: int,
    left: int,
    right: int,
) -> Board {
    Board {
        width,
        height,
        cells: Seq::new(
            width * height,
            |i: int|
                top <= i / (width as int) <= bottom && left <= i % (width as int) <= right,
        ),
    }
}

/// How many of the three wrapped coordinates around `x` on a ring of `n` lie in `lo..=hi`.
pub open spec fn near(x: int, n: int, lo: int, hi: int) -> nat {
    bit(lo <= wrap(x, -1, n) <= hi) + bit(lo <= wrap(x, 0, n) <= hi) + bit(lo <= wrap(x, 1, n) <= hi)
}

proof fn lemma_rectangle_alive(b: Board, top: int, bottom: int, left: int, right: int, row: int, col: int)
    requires
        b == rectangle(b.width, b.height, top, bottom, left, right),
        b.in_bounds(row, col),
    ensures
        b.alive(row, col) == (top <= row <= bottom && left <= col <= right),
{
    lemma_index_bounds(b, row, col);
    lemma_fundamental_div_mod_converse(b.index(row, col), b.width as int, row, col);
}

proof fn lemma_bit_and(x: bool, y: bool)
    ensures
        bit(x && y) == bit(x) * bit(y),
{
}

/// On a rectangle board, the live neighbours of a cell, plus the cell itself,
/// are the product of the live rows near it and the live columns near it.
proof fn lemma_rectangle_count(
    b: Board,
    top: int,
    bottom: int,
    left: int,
    right: int,
    row: int,
    col: int,
)
    requires
        b == rectangle(b.width, b.height, top, bottom, left, right),
        b.in_bounds(row, col),
    ensures
        live_neighbors(b, row, col) + bit(b.alive(row, col)) == near(
            row,
            b.height as int,
            top,
            bottom,
        ) * near(col, b.width as int, left, right),
{
    let (w, h) = (b.width as int, b.height as int);
    lemma_wrap_values(row, h);
    lemma_wrap_values(col, w);
    let (r0, r1, r2) = (wrap(row, -1, h), row, wrap(row, 1, h));
    let (c0, c1, c2) = (wrap(col, -1, w), col, wrap(col, 1, w));
    lemma_rectangle_alive(b, top, bottom, left, right, r0, c0);
    lemma_rectangle_alive(b, top, bottom, left, right, r0, c1);
    lemma_rectangle_alive(b, top, bottom, left, right, r0, c2);
    lemma_rectangle_alive(b, top, bottom, left, right, r1, c0);
    lemma_rectangle_alive(b, top, bottom, left, right, r1, c1);
    lemma_rectangle_alive(b, top, bottom, left, right, r1, c2);
    lemma_rectangle_alive(b, top, bottom, left, right, r2, c0);
    lemma_rectangle_alive(b, top, bottom, left, right, r2, c1);
    lemma_rectangle_alive(b, top, bottom, left, right, r2, c2);
    let (a0, a1, a2) = (
        bit(top <= r0 <= bottom) as int,
        bit(top <= r1 <= bottom) as int,
        bit(top <= r2 <= bottom) as int,
    );
    let (e0, e1, e2) = (
        bit(left <= c0 <= right) as int,
        bit(left <= c1 <= right) as int,
        bit(left <= c2 <= right) as int,
    );
    lemma_bit_and(top <= r0 <= bottom, left <= c0 <= right);
    lemma_bit_and(top <= r0 <= bottom, left <= c1 <= right);
    lemma_bit_and(top <= r0 <= bottom, left <= c2 <= right);
    lemma_bit_and(top <= r1 <= bottom, left <= c0 <= right);
    lemma_bit_and(top <= r1 <= bottom, left <= c1 <= right);
    lemma_bit_and(top <= r1 <= bottom, left <= c2 <= right);
    lemma_bit_and(top <= r2 <= bottom, left <= c0 <= right);
    lemma_bit_and(top <= r2 <= bottom, left <= c1 <= right);
    lemma_bit_and(top <= r2 <= bottom, left <= c2 <= right);
    assert(bit(b.alive(r0, c0)) == a0 * e0);
    assert(bit(b.alive(r0, c1)) == a0 * e1);
    assert(bit(b.alive(r0, c2)) == a0 * e2);
    assert(bit(b.alive(r1, c0)) == a1 * e0);
    assert(bit(b.alive(r1, c1)) == a1 * e1);
    assert(bit(b.alive(r1, c2)) == a1 * e2);
    assert(bit(b.alive(r2, c0)) == a2 * e0);
    assert(bit(b.alive(r2, c1)) == a2 * e1);
    assert(bit(b.alive(r2, c2)) == a2 * e2);
    assert((a0 + a1 + a2) * (e0 + e1 + e2) == a0 * e0 + a0 * e1 + a0 * e2 + a1 * e0 + a1 * e1 + a1
        * e2 + a2 * e0 + a2 * e1 + a2 * e2) by (nonlinear_arith);
}

/// A 2x2 block of live cells on a board of at least 4x4 is a still life.
pub proof fn lemma_block_still_life(width: nat, height: nat, top: int, left: int)
    requires
        width >= 4,
        height >= 4,
        0 <= top,
        top + 1 < height,
        0 <= left,
        left + 1 < width,
    ensures
        step(rectangle(width, height, top, top + 1, left, left + 1)) == rectangle(
            width,
            height,
            top,
            top + 1,
            left,
            left + 1,
        ),
{
    let b = rectangle(width, height, top, top + 1, left, left + 1);
    let (w, h) = (width as int, height as int);
    assert forall|i: int| 0 <= i < b.cells.len() implies #[trigger] step(b).cells[i]
        == b.cells[i] by {
        lemma_position(b, i);
        let (r, c) = (i / w, i % w);
        lemma_rectangle_count(b, top, top + 1, left, left + 1, r, c);
        lemma_rectangle_alive(b, top, top + 1, left, left + 1, r, c);
        lemma_wrap_values(r, h);
        lemma_wrap_values(c, w);
        let ra = near(r, h, top, top + 1);
        let ca = near(c, w, left, left + 1);
        assert(ra <= 2 && ca <= 2);
        let n = live_neighbors(b, r, c);
        assert(step(b).cells[i] == next_state(b.alive(r, c), n));
        if b.alive(r, c) {
            assert(ra == 2 && ca == 2);
            assert(n + 1 == ra * ca);
            assert(ra * ca == 4) by (nonlinear_arith)
                requires
                    ra == 2,
                    ca == 2,
            ;
        } else {
            assert(ra * ca != 3) by (nonlinear_arith)
                requires
                    ra <= 2,
                    ca <= 2,
            ;
        }
    }
    assert(step(b).cells =~= b.cells);
}

/// A horizontal line of three live cells, away from the edges of a board of
/// at least 5x5, becomes a vertical line through its middle cell.
pub proof fn lemma_blinker_turns_vertical(width: nat, height: nat, row: int, col: int)
    requires
        width >= 5,
        height >= 5,
        1 <= row < height - 1,
        1 <= col < width - 1,
    ensures
        step(rectangle(width, height, row, row, col - 1, col + 1)) == rectangle(
            width,
            height,
            row - 1,
            row + 1,
            col,
            col,
        ),
{
    let b = rectangle(width, height, row, row, col - 1, col + 1);
    let v = rectangle(width, height, row - 1, row + 1, col, col);
    let (w, h) = (width as int, height as int);
    assert forall|i: int| 0 <= i < b.cells.len() implies #[trigger] step(b).cells[i]
        == v.cells[i] by {
        lemma_position(b, i);
        let (r, c) = (i / w, i % w);
        lemma_rectangle_count(b, row, row, col - 1, col + 1, r, c);
        lemma_rectangle_alive(b, row, row, col - 1, col + 1, r, c);
        lemma_rectangle_alive(v, row - 1, row + 1, col, col, r, c);
        lemma_wrap_values(r, h);
        lemma_wrap_values(c, w);
        let ra = near(r, h, row, row);
        let ca = near(c, w, col - 1, col + 1);
        assert(ra == bit(row - 1 <= r <= row + 1));
        assert(ca == 3 <==> c == col);
        assert(ca <= 3);
        let n = live_neighbors(b, r, c);
        assert(step(b).cells[i] == next_state(b.alive(r, c), n));
        assert(v.cells[i] == v.alive(r, c));
        if ra == 0 {
            assert(ra * ca == 0) by (nonlinear_arith)
                requires
                    ra == 0,
            ;
        } else {
            assert(ra * ca == ca) by (nonlinear_arith)
                requires
                    ra == 1,
            ;
        }
        if b.alive(r, c) && c != col {
            assert(ca == 2);
        }
    }
    assert(step(b).cells =~= v.cells);
}

/// A vertical line of three live cells, away from the edges of a board of
/// at least 5x5, becomes a horizontal line through its middle cell.
pub proof fn lemma_blinker_turns_horizontal(width: nat, height: nat, row: int, col: int)
    requires
        width >= 5,
        height >= 5,
        1 <= row < height - 1,
        1 <= col < width - 1,
    ensures
        step(rectangle(width, height, row - 1, row + 1, col, col)) == rectangle(
            width,
            height,
            row,
            row,
            col - 1,
            col + 1,
        ),
{
    let b = rectangle(width, height, row - 1, row + 1, col, col);
    let v = rectangle(width, height, row, row, col - 1, col + 1);
    let (w, h) = (width as int, height as int);
    assert forall|i: int| 0 <= i < b.cells.len() implies #[trigger] step(b).cells[i]
        == v.cells[i] by {
        lemma_position(b, i);
        let (r, c) = (i / w, i % w);
        lemma_rectangle_count(b, row - 1, row + 1, col, col, r, c);
        lemma_rectangle_alive(b, row - 1, row + 1, col, col, r, c);
        lemma_rectangle_alive(v, row, row, col - 1, col + 1, r, c);
        lemma_wrap_values(r, h);
        lemma_wrap_values(c, w);
        let ra = near(r, h, row - 1, row + 1);
        let ca = near(c, w, col, col);
        assert(ca == bit(col - 1 <= c <= col + 1));
        assert(ra == 3 <==> r == row);
        assert(ra <= 3);
        let n = live_neighbors(b, r, c);
        assert(step(b).cells[i] == next_state(b.alive(r, c), n));
        assert(v.cells[i] == v.alive(r, c));
        if ca == 0 {
            assert(ra * ca == 0) by (nonlinear_arith)
                requires
                    ca == 0,
            ;
        } else {
            assert(ra * ca == ra) by (nonlinear_arith)
                requires
                    ca == 1,
            ;
        }
        if b.alive(r, c) && r != row {
            assert(ra == 2);
        }
    }
    assert(step(b).cells =~= v.cells);
}

/// A blinker returns to its starting shape after two generations.
pub proof fn lemma_blinker_period_two(width: nat, height: nat, row: int, col: int)
    requires
        width >= 5,
        height >= 5,
        1 <= row < height - 1,
        1 <= col < width - 1,
    ensures
        step(step(rectangle(width, height, row, row, col - 1, col + 1))) == rectangle(
            width,
            height,
            row,
            row,
            col - 1,
            col + 1,
        ),
{
    lemma_blinker_turns_vertical(width, height, row, col);
    lemma_blinker_turns_horizontal(width, height, row, col);
}

} // verus!
