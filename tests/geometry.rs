use dna_life::{create_grid_vertices, resolve_click, GridVertex, Universe, GRID_ORIGIN};

fn v(x: i64, y: i64, alive: bool) -> GridVertex {
    GridVertex { x, y, alive }
}

#[test]
fn one_by_two_board_has_exact_vertices() {
    let u = Universe::new(1, 2, b"GA").unwrap();
    let vertices = create_grid_vertices(&u, 800, 200);
    assert_eq!(
        vertices,
        vec![
            v(-6000, -5200, true),
            v(-6000, -6000, true),
            v(-5200, -6000, true),
            v(-6000, -5200, true),
            v(-5200, -6000, true),
            v(-5200, -5200, true),
            v(-5000, -5200, false),
            v(-5000, -6000, false),
            v(-4200, -6000, false),
            v(-5000, -5200, false),
            v(-4200, -6000, false),
            v(-4200, -5200, false),
        ]
    );
}

#[test]
fn second_row_starts_one_pitch_up() {
    let u = Universe::new(2, 1, b"AC").unwrap();
    let vertices = create_grid_vertices(&u, 800, 200);
    assert_eq!(vertices.len(), 12);
    assert_eq!(vertices[7], v(GRID_ORIGIN, GRID_ORIGIN + 1000, true));
    assert!(!vertices[0].alive);
    assert!(vertices[11].alive);
}

#[test]
fn geometry_has_six_vertices_per_cell() {
    for (rows, cols) in [(1, 1), (3, 4), (10, 10), (7, 2)] {
        let u = Universe::new(rows, cols, b"GATTACA").unwrap();
        let vertices = create_grid_vertices(&u, 800, 200);
        assert_eq!(vertices.len(), (rows * cols * 6) as usize);
    }
}

#[test]
fn geometry_is_deterministic() {
    let u = Universe::new(10, 10, b"GATCCAGATCGATCCGATCGATC").unwrap();
    let first = create_grid_vertices(&u, 800, 200);
    let second = create_grid_vertices(&u, 800, 200);
    assert_eq!(first, second);
}

#[test]
fn geometry_follows_the_board_after_a_toggle() {
    let mut u = Universe::new(2, 2, b"AAAA").unwrap();
    u.toggle(1, 0).unwrap();
    let vertices = create_grid_vertices(&u, 800, 200);
    let alive: Vec<bool> = vertices.iter().map(|vertex| vertex.alive).collect();
    assert_eq!(&alive[..12], &[false; 12]);
    assert_eq!(&alive[12..18], &[true; 6]);
    assert_eq!(&alive[18..], &[false; 6]);
}

#[test]
fn click_at_each_centre_selects_that_cell() {
    for row in 0..10u32 {
        for col in 0..10u32 {
            let x = GRID_ORIGIN + col as i64 * 1000 + 400;
            let y = GRID_ORIGIN + row as i64 * 1000 + 400;
            assert_eq!(resolve_click(x, y, 10, 10, 800, 200), Some((row, col)));
        }
    }
}

#[test]
fn click_in_a_gap_selects_nothing() {
    // Between columns 2 and 3, and between rows 4 and 5.
    assert_eq!(resolve_click(GRID_ORIGIN + 2900, GRID_ORIGIN + 400, 10, 10, 800, 200), None);
    assert_eq!(resolve_click(GRID_ORIGIN + 400, GRID_ORIGIN + 4850, 10, 10, 800, 200), None);
    assert_eq!(resolve_click(GRID_ORIGIN + 2801, GRID_ORIGIN + 4801, 10, 10, 800, 200), None);
}

#[test]
fn click_off_the_grid_selects_nothing() {
    assert_eq!(resolve_click(GRID_ORIGIN - 1, GRID_ORIGIN + 400, 10, 10, 800, 200), None);
    assert_eq!(resolve_click(GRID_ORIGIN + 400, GRID_ORIGIN + 9801, 10, 10, 800, 200), None);
    assert_eq!(resolve_click(9000, 9000, 10, 10, 800, 200), None);
    assert_eq!(resolve_click(0, 0, 0, 0, 800, 200), None);
}

#[test]
fn click_on_square_edges_selects_the_cell() {
    assert_eq!(resolve_click(GRID_ORIGIN, GRID_ORIGIN, 3, 3, 800, 200), Some((0, 0)));
    assert_eq!(resolve_click(GRID_ORIGIN + 1800, GRID_ORIGIN + 2800, 3, 3, 800, 200), Some((2, 1)));
}

#[test]
fn shared_edge_goes_to_the_first_cell_in_row_major_order() {
    // Without padding, the right edge of (0, 0) is the left edge of (0, 1),
    // and the top edge of (0, 1) is the bottom edge of (1, 1).
    assert_eq!(resolve_click(GRID_ORIGIN + 800, GRID_ORIGIN + 400, 2, 2, 800, 0), Some((0, 0)));
    assert_eq!(resolve_click(GRID_ORIGIN + 1200, GRID_ORIGIN + 800, 2, 2, 800, 0), Some((0, 1)));
}
