use dna_life::{BoardError, Universe};

fn board(rows: u32, cols: u32, dna: &[u8]) -> Universe {
    Universe::new(rows, cols, dna).expect("valid dimensions")
}

fn alive_cells(u: &Universe) -> Vec<(u32, u32)> {
    let mut out = Vec::new();
    for row in 0..u.rows() {
        for col in 0..u.cols() {
            if u.is_alive(row, col) {
                out.push((row, col));
            }
        }
    }
    out
}

#[test]
fn seed_sized_to_board_marks_g_and_c_alive() {
    let u = board(2, 3, b"GATCCA");
    assert_eq!(u.cells(), &[true, false, false, true, true, false]);
}

#[test]
fn seed_longer_than_board_is_cut_off() {
    let u = board(2, 2, b"ATGCGGCC");
    assert_eq!(u.cells(), &[false, false, true, true]);
}

#[test]
fn seed_shorter_than_board_leaves_trailing_cells_dead() {
    let u = board(3, 3, b"GC");
    assert_eq!(u.cells(), &[true, true, false, false, false, false, false, false, false]);
}

#[test]
fn lowercase_and_other_bytes_seed_dead_cells() {
    let u = board(1, 5, b"gcNxC");
    assert_eq!(u.cells(), &[false, false, false, false, true]);
}

#[test]
fn zero_rows_or_columns_are_rejected() {
    assert!(matches!(Universe::new(0, 4, b"GC"), Err(BoardError::InvalidDimensions)));
    assert!(matches!(Universe::new(4, 0, b"GC"), Err(BoardError::InvalidDimensions)));
    assert!(matches!(Universe::new(0, 0, b""), Err(BoardError::InvalidDimensions)));
}

#[test]
fn cell_count_matches_dimensions_after_ticks() {
    let mut u = board(4, 7, b"GGCATTCGCGATCGGCCATGCATCGATCGGG");
    assert_eq!(u.cells().len(), 28);
    for _ in 0..5 {
        u.tick();
        assert_eq!(u.cells().len(), 28);
        assert_eq!((u.rows(), u.cols()), (4, 7));
    }
}

#[test]
fn horizontal_triple_on_three_by_three_torus_fills_board() {
    // Every cell of a 3×3 torus neighbours every other cell: the live triple
    // each see two live neighbours and survive, the dead cells see three and
    // are born.
    let mut u = board(3, 3, b"AAAGGGAAA");
    u.tick();
    assert_eq!(u.cells(), &[true; 9]);
}

#[test]
fn blinker_turns_vertical_then_back() {
    let mut u = board(5, 5, b"AAAAAAAAAAAGGGAAAAAAAAAAA");
    u.tick();
    assert_eq!(alive_cells(&u), vec![(1, 2), (2, 2), (3, 2)]);
    u.tick();
    assert_eq!(alive_cells(&u), vec![(2, 1), (2, 2), (2, 3)]);
}

#[test]
fn blinker_wraps_across_the_edges() {
    // Live cells at row 0, columns 3, 0 and 1: a horizontal triple that
    // crosses the right edge turns into a vertical one that crosses the top.
    let mut u = board(4, 4, b"GGAG");
    u.tick();
    assert_eq!(alive_cells(&u), vec![(0, 0), (1, 0), (3, 0)]);
}

#[test]
fn block_is_still_life() {
    let mut u = board(4, 4, b"AAAAAGGAAGGAAAAA");
    let before = u.cells().to_vec();
    u.tick();
    assert_eq!(u.cells(), before.as_slice());
}

#[test]
fn lonely_and_crowded_cells_die() {
    // A single live cell dies of loneliness.
    let mut lonely = board(5, 5, b"AAAAAAAAAAAAGAAAAAAAAAAAA");
    lonely.tick();
    assert!(alive_cells(&lonely).is_empty());
    // The centre of a plus sign has four live neighbours and dies.
    let mut plus = board(5, 5, b"AAAAAAAGAAAGGGAAAGAAAAAAA");
    plus.tick();
    assert!(!plus.is_alive(2, 2));
}

#[test]
fn dead_board_stays_dead() {
    for (rows, cols) in [(1, 1), (1, 4), (2, 2), (3, 5), (8, 8)] {
        let mut u = board(rows, cols, b"ATATAT");
        assert!(alive_cells(&u).is_empty());
        u.tick();
        assert!(alive_cells(&u).is_empty());
    }
}

#[test]
fn toggle_flips_one_cell() {
    let mut u = board(2, 3, b"GATCCA");
    assert_eq!(u.toggle(1, 2), Ok(()));
    assert_eq!(u.cells(), &[true, false, false, true, true, true]);
}

#[test]
fn toggle_twice_restores_every_cell() {
    let initial = board(3, 4, b"GATCCAGATCGA");
    for row in 0..3 {
        for col in 0..4 {
            let mut u = board(3, 4, b"GATCCAGATCGA");
            u.toggle(row, col).unwrap();
            assert_ne!(u.cells(), initial.cells());
            u.toggle(row, col).unwrap();
            assert_eq!(u.cells(), initial.cells());
        }
    }
}

#[test]
fn toggle_out_of_bounds_is_refused_and_changes_nothing() {
    let mut u = board(3, 4, b"GATCCAGATCGA");
    let before = u.cells().to_vec();
    assert_eq!(u.toggle(3, 0), Err(BoardError::OutOfBounds));
    assert_eq!(u.toggle(0, 4), Err(BoardError::OutOfBounds));
    assert_eq!(u.toggle(u32::MAX, u32::MAX), Err(BoardError::OutOfBounds));
    assert_eq!(u.cells(), before.as_slice());
}
