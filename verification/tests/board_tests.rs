use lifegame::board::Board;

fn alive_set(b: &Board) -> Vec<(usize, usize)> {
    let mut out = Vec::new();
    for y in 0..b.height {
        for x in 0..b.width {
            if b.cell_at(x, y).get_survive() {
                out.push((x, y));
            }
        }
    }
    out
}

fn count_grid(b: &Board) -> Vec<u8> {
    let mut out = Vec::new();
    for y in 0..b.height {
        for x in 0..b.width {
            out.push(b.cell_at(x, y).get_around_survivers_count());
        }
    }
    out
}

/// Brute-force recount of the live neighbors of every cell, to check the
/// cached counts against.
fn recount(b: &Board) -> Vec<u8> {
    let mut out = Vec::new();
    for y in 0..b.height {
        for x in 0..b.width {
            let mut n: u8 = 0;
            for dy in [-1i64, 0, 1] {
                for dx in [-1i64, 0, 1] {
                    if dx == 0 && dy == 0 {
                        continue;
                    }
                    let u = x as i64 + dx;
                    let v = y as i64 + dy;
                    if 0 <= u && u < b.width as i64 && 0 <= v && v < b.height as i64 {
                        if b.cell_at(u as usize, v as usize).get_survive() {
                            n += 1;
                        }
                    }
                }
            }
            out.push(n);
        }
    }
    out
}

#[test]
fn wiring_gives_eight_relations_inside_and_none_on_border() {
    let b = Board::new(4, 3).init();
    assert_eq!(b.width, 6);
    assert_eq!(b.height, 5);
    for y in 0..b.height {
        for x in 0..b.width {
            let inside = 1 <= x && x < b.width - 1 && 1 <= y && y < b.height - 1;
            let expected = if inside { 8 } else { 0 };
            assert_eq!(b.cell_at(x, y).get_aroundcell_refcnts(), expected);
        }
    }
}

#[test]
fn cells_carry_their_padded_positions() {
    let b = Board::new(3, 2).init();
    for y in 0..b.height {
        for x in 0..b.width {
            let p = b.cell_at(x, y).get_point();
            assert_eq!(p.x(), x);
            assert_eq!(p.y(), y);
        }
    }
}

#[test]
fn wiring_twice_changes_nothing() {
    let mut b = Board::new(3, 3).init();
    b.set_boardstate(1, 1, true);
    let snap_alive = alive_set(&b);
    let snap_counts = count_grid(&b);
    let refcnts: Vec<usize> =
        (0..b.height).flat_map(|y| (0..b.width).map(move |x| (x, y)).collect::<Vec<_>>())
            .map(|(x, y)| b.cell_at(x, y).get_aroundcell_refcnts())
            .collect();
    b.set_ref();
    assert_eq!(alive_set(&b), snap_alive);
    assert_eq!(count_grid(&b), snap_counts);
    let refcnts2: Vec<usize> =
        (0..b.height).flat_map(|y| (0..b.width).map(move |x| (x, y)).collect::<Vec<_>>())
            .map(|(x, y)| b.cell_at(x, y).get_aroundcell_refcnts())
            .collect();
    assert_eq!(refcnts2, refcnts);
}

#[test]
fn cached_counts_match_brute_force_recount() {
    let mut b = Board::new(6, 6).init();
    for (x, y) in [(1, 1), (2, 1), (1, 2), (4, 4), (3, 2)] {
        b.set_boardstate(x, y, true);
    }
    assert_eq!(count_grid(&b), recount(&b));
    b.refresh();
    assert_eq!(count_grid(&b), recount(&b));
}

#[test]
fn born_on_live_cell_is_a_no_op() {
    let mut b = Board::new(4, 4).init();
    b.born(2, 2);
    let snap_alive = alive_set(&b);
    let snap_counts = count_grid(&b);
    b.born(2, 2);
    assert_eq!(alive_set(&b), snap_alive);
    assert_eq!(count_grid(&b), snap_counts);
}

#[test]
fn kill_on_dead_cell_is_a_no_op() {
    let mut b = Board::new(4, 4).init();
    b.born(2, 2);
    let snap_alive = alive_set(&b);
    let snap_counts = count_grid(&b);
    b.kill(3, 3);
    assert_eq!(alive_set(&b), snap_alive);
    assert_eq!(count_grid(&b), snap_counts);
}

#[test]
fn born_raises_each_neighbor_count_by_one() {
    let mut b = Board::new(4, 4).init();
    b.born(2, 2);
    for y in 1..4 {
        for x in 1..4 {
            let expected = if x == 2 && y == 2 { 0 } else { 1 };
            assert_eq!(b.cell_at(x, y).get_around_survivers_count(), expected);
        }
    }
    b.kill(2, 2);
    for y in 0..b.height {
        for x in 0..b.width {
            assert_eq!(b.cell_at(x, y).get_around_survivers_count(), 0);
        }
    }
}

#[test]
fn lone_live_cell_dies_out() {
    let mut b = Board::new(5, 5).init();
    b.set_boardstate(2, 2, true);
    assert_eq!(alive_set(&b), vec![(3, 3)]);
    b.refresh();
    assert_eq!(alive_set(&b), vec![]);
    for c in count_grid(&b) {
        assert_eq!(c, 0);
    }
}

#[test]
fn dead_cell_with_three_live_neighbors_is_born() {
    let mut b = Board::new(6, 6).init();
    for (x, y) in [(1, 1), (2, 1), (1, 2)] {
        b.set_boardstate(x, y, true);
    }
    b.refresh();
    // The corner of the L sees three live neighbors and completes a block.
    assert_eq!(alive_set(&b), vec![(2, 2), (3, 2), (2, 3), (3, 3)]);
}

#[test]
fn block_of_four_is_stable() {
    let mut b = Board::new(6, 6).init();
    for (x, y) in [(1, 1), (2, 1), (1, 2), (2, 2)] {
        b.set_boardstate(x, y, true);
    }
    let snapshot = b.clone();
    b.refresh();
    assert!(b == snapshot);
    assert_eq!(count_grid(&b), recount(&b));
}

#[test]
fn scan_order_pass_and_convergence_detection() {
    // Three vertically adjacent live cells.  The pass visits cells in
    // row-major order and lets each flip reach the cells still to come,
    // so the top cell of the trio sees a count of one, dies, and its
    // death cascades: one pass empties the board.  The clone-and-compare
    // loop of the driver then detects the stable state one pass later.
    let mut board = Board::new(10, 10).init();
    board.set_boardstate(1, 0, true);
    board.set_boardstate(1, 1, true);
    board.set_boardstate(1, 2, true);
    assert_eq!(alive_set(&board), vec![(2, 1), (2, 2), (2, 3)]);
    let mut converged_at = None;
    for i in 0..10 {
        let old_board = board.clone();
        board.refresh();
        if old_board == board {
            converged_at = Some(i);
            break;
        }
    }
    assert_eq!(alive_set(&board), vec![]);
    assert_eq!(converged_at, Some(1));
}

#[test]
fn clone_matches_and_mutating_it_leaves_the_source_alone() {
    let mut b = Board::new(6, 6).init();
    for (x, y) in [(1, 1), (2, 1), (1, 2)] {
        b.set_boardstate(x, y, true);
    }
    let mut c = b.clone();
    assert!(c == b);
    assert_eq!(alive_set(&c), alive_set(&b));
    assert_eq!(count_grid(&c), count_grid(&b));
    let snap_alive = alive_set(&b);
    let snap_counts = count_grid(&b);
    c.set_boardstate(4, 4, true);
    c.set_boardstate(1, 1, false);
    c.refresh();
    assert_eq!(alive_set(&b), snap_alive);
    assert_eq!(count_grid(&b), snap_counts);
    assert!(!(c == b));
}

#[test]
fn out_of_range_set_changes_nothing() {
    let mut b = Board::new(10, 10).init();
    b.set_boardstate(1, 1, true);
    let snap_alive = alive_set(&b);
    let snap_counts = count_grid(&b);
    b.set_boardstate(10, 0, true);
    b.set_boardstate(0, 10, true);
    b.set_boardstate(10, 10, true);
    b.set_boardstate(usize::MAX - 1, 3, true);
    assert_eq!(alive_set(&b), snap_alive);
    assert_eq!(count_grid(&b), snap_counts);
}

#[test]
fn border_cells_stay_dead_and_unwired_across_generations() {
    let mut b = Board::new(6, 6).init();
    for (x, y) in [(0, 0), (1, 0), (0, 1), (3, 3), (4, 4), (4, 3), (3, 4)] {
        b.set_boardstate(x, y, true);
    }
    for _ in 0..5 {
        b.refresh();
        for y in 0..b.height {
            for x in 0..b.width {
                if x == 0 || x == b.width - 1 || y == 0 || y == b.height - 1 {
                    assert!(!b.cell_at(x, y).get_survive());
                    assert_eq!(b.cell_at(x, y).get_aroundcell_refcnts(), 0);
                }
            }
        }
    }
}

#[test]
fn zero_sized_board_is_all_border_and_inert() {
    let mut b = Board::new(0, 0).init();
    assert_eq!(b.width, 2);
    assert_eq!(b.height, 2);
    for y in 0..2 {
        for x in 0..2 {
            assert_eq!(b.cell_at(x, y).get_aroundcell_refcnts(), 0);
        }
    }
    b.set_boardstate(0, 0, true);
    b.refresh();
    assert_eq!(alive_set(&b), vec![]);
    assert_eq!(count_grid(&b), vec![0, 0, 0, 0]);
}

#[test]
fn equality_ignores_counts_but_not_dimensions() {
    let a = Board::new(4, 4).init();
    let b = Board::new(4, 4).init();
    let c = Board::new(4, 5).init();
    assert!(a == b);
    assert!(!(a == c));
    let mut d = Board::new(4, 4).init();
    d.set_boardstate(1, 1, true);
    assert!(!(a == d));
    d.set_boardstate(1, 1, false);
    assert!(a == d);
}
