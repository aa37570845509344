use dna_life::{create_grid_vertices, BoardError, Simulation, GRID_ORIGIN, TICK_INTERVAL_MS};

fn blinker() -> Simulation {
    Simulation::new(5, 5, b"AAAAAAAAAAAGGGAAAAAAAAAAA", 800, 200).unwrap()
}

#[test]
fn new_simulation_draws_its_board() {
    let sim = blinker();
    assert_eq!(sim.vertices(), create_grid_vertices(sim.universe(), 800, 200).as_slice());
    assert_eq!(sim.vertices().len(), 150);
    assert!(!sim.alternate_background());
}

#[test]
fn new_simulation_rejects_empty_board() {
    assert!(matches!(Simulation::new(0, 5, b"GC", 800, 200), Err(BoardError::InvalidDimensions)));
}

#[test]
fn frame_before_interval_does_not_advance() {
    let mut sim = blinker();
    let before = sim.universe().cells().to_vec();
    assert!(!sim.on_frame(TICK_INTERVAL_MS - 1));
    assert!(!sim.on_frame(0));
    assert_eq!(sim.universe().cells(), before.as_slice());
}

#[test]
fn frame_after_interval_advances_and_redraws() {
    let mut sim = blinker();
    assert_eq!(TICK_INTERVAL_MS, 200);
    assert!(sim.on_frame(200));
    assert!(sim.universe().is_alive(1, 2));
    assert!(sim.universe().is_alive(3, 2));
    assert!(!sim.universe().is_alive(2, 1));
    assert_eq!(sim.vertices(), create_grid_vertices(sim.universe(), 800, 200).as_slice());
    assert!(sim.on_frame(5000));
    assert!(sim.universe().is_alive(2, 1));
}

#[test]
fn click_toggles_the_cell_under_it_and_redraws() {
    let mut sim = blinker();
    let hit = sim.on_click(GRID_ORIGIN + 4400, GRID_ORIGIN + 400);
    assert_eq!(hit, Some((0, 4)));
    assert!(sim.universe().is_alive(0, 4));
    assert!(sim.vertices()[24].alive);
    assert_eq!(sim.on_click(GRID_ORIGIN + 4400, GRID_ORIGIN + 400), Some((0, 4)));
    assert!(!sim.universe().is_alive(0, 4));
}

#[test]
fn click_in_a_gap_changes_nothing() {
    let mut sim = blinker();
    let before = sim.universe().cells().to_vec();
    assert_eq!(sim.on_click(GRID_ORIGIN + 900, GRID_ORIGIN + 400), None);
    assert_eq!(sim.universe().cells(), before.as_slice());
}

#[test]
fn key_press_switches_background() {
    let mut sim = blinker();
    sim.on_key();
    assert!(sim.alternate_background());
    sim.on_key();
    assert!(!sim.alternate_background());
}
