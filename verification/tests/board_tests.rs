use game_of_life::board::{Board, Cell, BOARD_SIZE};

/// Counts the live cells of a board by querying every position.
fn count_alive(b: &Board) -> usize {
    let mut count: usize = 0;
    for r in 0..BOARD_SIZE {
        for c in 0..BOARD_SIZE {
            if b.state(r, c) {
                count += 1;
            }
        }
    }
    count
}

/// Builds a board whose live cells are exactly the given positions.
fn board_with_alive(cells: &[(usize, usize)]) -> Board {
    let mut b = Board::new();
    for &(r, c) in cells {
        b.mut_gamestate(r, c, Cell::Alive);
    }
    b
}

#[test]
fn new_board_all_dead() {
    let b = Board::new();
    for r in 0..BOARD_SIZE {
        for c in 0..BOARD_SIZE {
            assert!(!b.state(r, c));
        }
    }
}

#[test]
fn mut_gamestate_sets_one_cell() {
    let mut b = Board::new();
    b.mut_gamestate(3, 7, Cell::Alive);
    for r in 0..BOARD_SIZE {
        for c in 0..BOARD_SIZE {
            assert_eq!(b.state(r, c), (r, c) == (3, 7));
        }
    }
    b.mut_gamestate(3, 7, Cell::Dead);
    assert_eq!(count_alive(&b), 0);
}

#[test]
fn gamestate_exposes_full_grid_row_major() {
    let b = board_with_alive(&[(2, 9), (7, 0)]);
    let g = b.gamestate();
    assert_eq!(g.len(), BOARD_SIZE * BOARD_SIZE);
    for r in 0..BOARD_SIZE {
        for c in 0..BOARD_SIZE {
            let alive = matches!(g[r * BOARD_SIZE + c], Cell::Alive);
            assert_eq!(alive, b.state(r, c));
        }
    }
}

#[test]
fn neighbour_count_excludes_the_cell_itself() {
    let b = board_with_alive(&[(5, 5)]);
    assert_eq!(b.count_live_neighbours(5, 5), 0);
}

#[test]
fn neighbour_count_sees_all_eight_positions() {
    let b = board_with_alive(&[
        (4, 4),
        (4, 5),
        (4, 6),
        (5, 4),
        (5, 6),
        (6, 4),
        (6, 5),
        (6, 6),
    ]);
    assert_eq!(b.count_live_neighbours(5, 5), 8);
}

#[test]
fn toroidal_corner_counts_origin_cell() {
    let b = board_with_alive(&[(0, 0)]);
    let last = (BOARD_SIZE - 1) as i8;
    assert_eq!(b.count_live_neighbours(last, last), 1);
    assert_eq!(b.count_live_neighbours(last, 0), 1);
    assert_eq!(b.count_live_neighbours(0, last), 1);
}

#[test]
fn toroidal_edges_wrap_in_both_directions() {
    let b = board_with_alive(&[(BOARD_SIZE - 1, BOARD_SIZE - 1)]);
    assert_eq!(b.count_live_neighbours(0, 0), 1);
    let left_edge = board_with_alive(&[(5, 0)]);
    assert_eq!(left_edge.count_live_neighbours(5, (BOARD_SIZE - 1) as i8), 1);
    let top_edge = board_with_alive(&[(0, 5)]);
    assert_eq!(top_edge.count_live_neighbours((BOARD_SIZE - 1) as i8, 5), 1);
}

#[test]
fn rule_dead_cell_with_three_neighbours_becomes_alive() {
    let b = board_with_alive(&[(4, 4), (4, 5), (4, 6)]);
    let next = b.update_board();
    assert!(next.state(5, 5));
}

#[test]
fn rule_dead_cell_with_two_neighbours_stays_dead() {
    let b = board_with_alive(&[(4, 4), (4, 5)]);
    assert_eq!(b.count_live_neighbours(5, 5), 2);
    let next = b.update_board();
    assert!(!next.state(5, 5));
}

#[test]
fn rule_dead_cell_with_four_neighbours_stays_dead() {
    let b = board_with_alive(&[(4, 4), (4, 5), (4, 6), (5, 4)]);
    assert_eq!(b.count_live_neighbours(5, 5), 4);
    let next = b.update_board();
    assert!(!next.state(5, 5));
}

#[test]
fn rule_alive_cell_with_two_or_three_neighbours_survives() {
    let two = board_with_alive(&[(5, 5), (4, 4), (4, 5)]);
    assert!(two.update_board().state(5, 5));
    let three = board_with_alive(&[(5, 5), (4, 4), (4, 5), (4, 6)]);
    assert!(three.update_board().state(5, 5));
}

#[test]
fn rule_alive_cell_with_few_or_many_neighbours_dies() {
    let zero = board_with_alive(&[(5, 5)]);
    assert!(!zero.update_board().state(5, 5));
    let one = board_with_alive(&[(5, 5), (4, 4)]);
    assert!(!one.update_board().state(5, 5));
    let four = board_with_alive(&[(5, 5), (4, 4), (4, 5), (4, 6), (5, 4)]);
    assert!(!four.update_board().state(5, 5));
}

#[test]
fn update_board_is_pure_and_deterministic() {
    let b = board_with_alive(&[(5, 4), (5, 5), (5, 6)]);
    let u1 = b.update_board();
    let u2 = b.update_board();
    for r in 0..BOARD_SIZE {
        for c in 0..BOARD_SIZE {
            assert_eq!(u1.state(r, c), u2.state(r, c));
            // the receiver still holds the original pattern
            assert_eq!(b.state(r, c), r == 5 && (4..=6).contains(&c));
        }
    }
}

#[test]
fn empty_board_stays_empty() {
    let b = Board::new();
    let next = b.update_board();
    assert_eq!(count_alive(&next), 0);
}

#[test]
fn randomize_sets_exactly_the_requested_count() {
    let mut b = Board::new();
    b.randomize(17);
    assert_eq!(count_alive(&b), 17);
}

#[test]
fn randomize_can_fill_the_whole_board() {
    let mut b = Board::new();
    b.randomize((BOARD_SIZE * BOARD_SIZE) as u8);
    assert_eq!(count_alive(&b), BOARD_SIZE * BOARD_SIZE);
}

#[test]
fn randomize_never_unsets_a_live_cell() {
    let mut b = board_with_alive(&[(0, 0), (5, 5), (9, 9)]);
    b.randomize(20);
    assert_eq!(count_alive(&b), 23);
    assert!(b.state(0, 0));
    assert!(b.state(5, 5));
    assert!(b.state(9, 9));
}

#[test]
fn blinker_oscillates_with_period_two() {
    let b = board_with_alive(&[(5, 4), (5, 5), (5, 6)]);
    let vertical = b.update_board();
    for r in 0..BOARD_SIZE {
        for c in 0..BOARD_SIZE {
            assert_eq!(vertical.state(r, c), c == 5 && (4..=6).contains(&r));
        }
    }
    let horizontal = vertical.update_board();
    for r in 0..BOARD_SIZE {
        for c in 0..BOARD_SIZE {
            assert_eq!(horizontal.state(r, c), b.state(r, c));
        }
    }
}

#[test]
fn glider_translates_by_one_one_every_four_generations() {
    let start = board_with_alive(&[(4, 5), (5, 5), (6, 5), (5, 3), (6, 4)]);
    let mut current = board_with_alive(&[(4, 5), (5, 5), (6, 5), (5, 3), (6, 4)]);
    for _ in 0..4 {
        current = current.update_board();
    }
    assert_eq!(count_alive(&current), 5);
    for r in 0..BOARD_SIZE {
        for c in 0..BOARD_SIZE {
            let prev_r = (r + BOARD_SIZE - 1) % BOARD_SIZE;
            let prev_c = (c + BOARD_SIZE - 1) % BOARD_SIZE;
            assert_eq!(current.state(r, c), start.state(prev_r, prev_c));
        }
    }
}

#[test]
fn glider_wraps_around_the_torus() {
    // the same glider seeded against the corner: after 4 generations the
    // translated pattern reaches across both edges
    let start = board_with_alive(&[(8, 9), (9, 9), (0, 9), (9, 7), (0, 8)]);
    let mut current = board_with_alive(&[(8, 9), (9, 9), (0, 9), (9, 7), (0, 8)]);
    for _ in 0..4 {
        current = current.update_board();
    }
    assert_eq!(count_alive(&current), 5);
    for r in 0..BOARD_SIZE {
        for c in 0..BOARD_SIZE {
            let prev_r = (r + BOARD_SIZE - 1) % BOARD_SIZE;
            let prev_c = (c + BOARD_SIZE - 1) % BOARD_SIZE;
            assert_eq!(current.state(r, c), start.state(prev_r, prev_c));
        }
    }
}
