use game_of_life::{Cell, Universe, DEFAULT_HEIGHT, DEFAULT_WIDTH};

fn blank(width: u32, height: u32) -> Universe {
    let mut u = Universe::new(&vec![false; (DEFAULT_WIDTH * DEFAULT_HEIGHT) as usize]);
    u.set_width(width);
    u.set_height(height);
    u
}

fn alive_cells(u: &Universe) -> Vec<(u32, u32)> {
    let mut out = Vec::new();
    for row in 0..u.height() {
        for col in 0..u.width() {
            if u.cell(row, col) == Cell::Alive {
                out.push((row, col));
            }
        }
    }
    out
}

#[test]
fn index_is_row_major() {
    let u = blank(7, 5);
    for row in 0..5 {
        for col in 0..7 {
            assert_eq!(u.get_index(row, col), (row * 7 + col) as usize);
        }
    }
    assert_eq!(u.get_index(4, 6), 34);
}

#[test]
fn corner_counts_wrapped_neighbors() {
    let mut u = blank(6, 5);
    u.set_cells(&[(4, 5), (4, 0), (0, 5)]);
    assert_eq!(u.live_neighbor_count(0, 0), 3);
    u.set_cells(&[(1, 1), (4, 1), (1, 5)]);
    assert_eq!(u.live_neighbor_count(0, 0), 6);
    // a cell never counts itself
    u.set_cells(&[(0, 0)]);
    assert_eq!(u.live_neighbor_count(0, 0), 6);
    assert_eq!(u.live_neighbor_count(2, 3), 0);
}

#[test]
fn neighbor_count_reaches_eight() {
    let mut u = blank(3, 3);
    let all: Vec<(u32, u32)> = (0..3).flat_map(|r| (0..3).map(move |c| (r, c))).collect();
    u.set_cells(&all);
    assert_eq!(u.live_neighbor_count(1, 1), 8);
}

#[test]
fn tick_from_same_snapshot_is_repeatable() {
    let pattern = [(1, 2), (2, 3), (3, 1), (3, 2), (3, 3)];
    let mut first = blank(8, 8);
    first.set_cells(&pattern);
    let mut second = blank(8, 8);
    second.set_cells(&pattern);
    first.tick();
    second.tick();
    assert_eq!(first.get_cells(), second.get_cells());
    assert_eq!(alive_cells(&first), vec![(2, 1), (2, 3), (3, 2), (3, 3), (4, 2)]);
}

#[test]
fn all_dead_stays_dead() {
    let mut u = blank(9, 4);
    u.tick();
    assert!(alive_cells(&u).is_empty());
    assert_eq!(u.width(), 9);
    assert_eq!(u.height(), 4);
}

#[test]
fn block_is_still_life() {
    let mut u = blank(4, 4);
    u.set_cells(&[(1, 1), (1, 2), (2, 1), (2, 2)]);
    u.tick();
    assert_eq!(alive_cells(&u), vec![(1, 1), (1, 2), (2, 1), (2, 2)]);
    u.tick();
    assert_eq!(alive_cells(&u), vec![(1, 1), (1, 2), (2, 1), (2, 2)]);
}

#[test]
fn blinker_has_period_two() {
    let mut u = blank(5, 5);
    u.set_cells(&[(2, 1), (2, 2), (2, 3)]);
    u.tick();
    assert_eq!(alive_cells(&u), vec![(1, 2), (2, 2), (3, 2)]);
    u.tick();
    assert_eq!(alive_cells(&u), vec![(2, 1), (2, 2), (2, 3)]);
}

#[test]
fn lone_cell_dies_and_crowded_cell_dies() {
    let mut u = blank(6, 6);
    u.set_cells(&[(0, 0)]);
    u.tick();
    assert!(alive_cells(&u).is_empty());

    // plus shape: the centre has four live neighbours and dies
    let mut v = blank(7, 7);
    v.set_cells(&[(3, 3), (2, 3), (4, 3), (3, 2), (3, 4)]);
    v.tick();
    assert_eq!(v.cell(3, 3), Cell::Dead);
    assert_eq!(v.cell(2, 2), Cell::Alive);
}

#[test]
fn resize_clears_every_cell() {
    let mut u = Universe::new(&vec![true; (DEFAULT_WIDTH * DEFAULT_HEIGHT) as usize]);
    assert_eq!(u.cell(10, 20), Cell::Alive);
    u.set_width(10);
    assert_eq!(u.width(), 10);
    assert_eq!(u.height(), DEFAULT_HEIGHT);
    assert!(alive_cells(&u).is_empty());
    assert_eq!(u.get_cells().len(), 10 * DEFAULT_HEIGHT as usize);

    u.set_cells(&[(3, 3)]);
    u.set_height(7);
    assert_eq!(u.height(), 7);
    assert_eq!(u.width(), 10);
    assert!(alive_cells(&u).is_empty());
    assert_eq!(u.get_cells().len(), 70);
}

#[test]
fn set_cells_marks_only_listed() {
    let mut u = blank(8, 8);
    u.set_cells(&[(0, 7)]);
    u.set_cells(&[(2, 3), (5, 5)]);
    assert_eq!(alive_cells(&u), vec![(0, 7), (2, 3), (5, 5)]);
    u.set_cells(&[]);
    assert_eq!(alive_cells(&u), vec![(0, 7), (2, 3), (5, 5)]);
}

#[test]
fn render_draws_rows() {
    let mut u = blank(3, 2);
    u.set_cells(&[(0, 1), (1, 0), (1, 2)]);
    assert_eq!(u.render(), "\u{25a1}\u{25a0}\u{25a1}\n\u{25a0}\u{25a1}\u{25a0}\n");
    let empty = blank(0, 3);
    assert_eq!(empty.render(), "\n\n\n");
}

#[test]
fn cells_are_packed_bits() {
    let mut u = blank(40, 1);
    u.set_cells(&[(0, 0), (0, 3), (0, 33)]);
    let words = u.cells();
    assert_eq!(words.len(), 2);
    assert_eq!(words[0], 0b1001);
    assert_eq!(words[1], 0b10);
}

#[test]
fn new_follows_given_pattern() {
    let size = (DEFAULT_WIDTH * DEFAULT_HEIGHT) as usize;
    let alive: Vec<bool> = (0..size).map(|i| i % 3 == 0).collect();
    let u = Universe::new(&alive);
    assert_eq!(u.width(), 64);
    assert_eq!(u.height(), 64);
    assert_eq!(u.cell(0, 0), Cell::Alive);
    assert_eq!(u.cell(0, 1), Cell::Dead);
    assert_eq!(u.cell(1, 2), Cell::Alive); // offset 66
    assert_eq!(u.cell(63, 63), Cell::Alive); // offset 4095
}
