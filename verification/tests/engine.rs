use sand_simulation::material::{AIR, SAND, STONE, WATER};
use sand_simulation::particle_manager::ParticleManager;
use sand_simulation::material::Particle;
use sand_simulation::simulate::simulate_particles;

fn count(grid: &[u8], m: u8) -> usize {
    grid.iter().filter(|c| **c == m).count()
}

#[test]
fn sand_falls_one_row_per_tick_and_rests_on_the_bottom() {
    let mut g = ParticleManager::new(3, 3).unwrap();
    assert!(g.set(1, 0, Particle::Sand));
    g.simulate_particles();
    assert_eq!(g.get(1, 1), Some(Particle::Sand));
    assert_eq!(g.get(1, 0), Some(Particle::Air));
    assert_eq!(g.particle_grid(), &[0, 0, 0, 0, 1, 0, 0, 0, 0]);
    g.simulate_particles();
    assert_eq!(g.get(1, 2), Some(Particle::Sand));
    assert_eq!(g.get(1, 1), Some(Particle::Air));
    assert_eq!(g.particle_grid(), &[0, 0, 0, 0, 0, 0, 0, 1, 0]);
    g.simulate_particles();
    assert_eq!(g.particle_grid(), &[0, 0, 0, 0, 0, 0, 0, 1, 0]);
}

#[test]
fn free_function_returns_the_updated_grid() {
    let mut grid = vec![AIR, SAND, AIR, AIR, AIR, AIR];
    let out = simulate_particles(&mut grid, 2, 3).to_vec();
    assert_eq!(out, vec![AIR, AIR, AIR, AIR, SAND, AIR]);
    assert_eq!(grid, vec![AIR, AIR, AIR, AIR, SAND, AIR]);
}

#[test]
fn straight_down_is_preferred_over_both_diagonals() {
    let mut grid = vec![
        AIR, SAND, AIR,
        AIR, AIR, AIR,
    ];
    simulate_particles(&mut grid, 2, 3);
    assert_eq!(grid, vec![AIR, AIR, AIR, AIR, SAND, AIR]);
}

#[test]
fn down_right_is_preferred_over_down_left() {
    let mut grid = vec![
        AIR, SAND, AIR,
        AIR, STONE, AIR,
    ];
    simulate_particles(&mut grid, 2, 3);
    assert_eq!(grid, vec![AIR, AIR, AIR, AIR, STONE, SAND]);
}

#[test]
fn down_left_is_taken_when_down_right_is_blocked() {
    let mut grid = vec![
        AIR, SAND, AIR,
        AIR, STONE, STONE,
    ];
    simulate_particles(&mut grid, 2, 3);
    assert_eq!(grid, vec![AIR, AIR, AIR, SAND, STONE, STONE]);
}

#[test]
fn a_particle_with_no_open_cell_below_stays() {
    let mut grid = vec![
        AIR, SAND, AIR,
        STONE, STONE, STONE,
    ];
    simulate_particles(&mut grid, 2, 3);
    assert_eq!(grid, vec![AIR, SAND, AIR, STONE, STONE, STONE]);
}

#[test]
fn particle_at_left_edge_does_not_wrap_to_the_row_above() {
    // Sand in column 0, blocked below and down-right: down-left does not
    // exist, so it stays, though the index before the cell below is air.
    let mut grid = vec![
        AIR, AIR, AIR,
        SAND, AIR, AIR,
        STONE, STONE, AIR,
    ];
    let mut expected = grid.clone();
    // the sand cannot move; nothing else can either
    simulate_particles(&mut grid, 3, 3);
    expected[3] = SAND;
    assert_eq!(grid, expected);
}

#[test]
fn particle_at_right_edge_does_not_wrap_to_the_row_below() {
    // Sand in the last column, blocked below: down-right does not exist, so
    // it goes down-left, not to the first cell two rows down.
    let mut grid = vec![
        AIR, AIR, SAND,
        AIR, AIR, STONE,
        AIR, AIR, STONE,
    ];
    simulate_particles(&mut grid, 3, 3);
    assert_eq!(grid, vec![AIR, AIR, AIR, AIR, SAND, STONE, AIR, AIR, STONE]);
}

#[test]
fn right_edge_particle_stays_when_down_and_down_left_are_blocked() {
    let mut grid = vec![
        AIR, AIR, SAND,
        AIR, STONE, STONE,
        AIR, AIR, AIR,
    ];
    simulate_particles(&mut grid, 3, 3);
    // the stones of the middle row fall; the sand was visited after them
    assert_eq!(grid, vec![AIR, AIR, AIR, AIR, AIR, SAND, AIR, STONE, STONE]);
}

#[test]
fn bottom_row_material_is_not_moved() {
    let mut grid = vec![
        AIR, AIR, AIR, AIR,
        SAND, STONE, WATER, 9,
    ];
    simulate_particles(&mut grid, 2, 4);
    assert_eq!(grid, vec![AIR, AIR, AIR, AIR, SAND, STONE, WATER, 9]);
}

#[test]
fn a_tick_conserves_every_material() {
    let mut grid = vec![
        SAND, STONE, WATER, SAND, AIR,
        AIR, SAND, SAND, STONE, AIR,
        STONE, AIR, WATER, AIR, SAND,
        AIR, AIR, SAND, AIR, AIR,
    ];
    let before = grid.clone();
    simulate_particles(&mut grid, 4, 5);
    assert_ne!(grid, before);
    for m in [AIR, SAND, STONE, WATER] {
        assert_eq!(count(&grid, m), count(&before, m));
    }
    assert_eq!(grid.len(), before.len());
}

#[test]
fn a_stack_falls_by_one_row_only() {
    // two grains above each other over three rows of air
    let mut grid = vec![
        SAND,
        SAND,
        AIR,
        AIR,
        AIR,
    ];
    simulate_particles(&mut grid, 5, 1);
    assert_eq!(grid, vec![AIR, SAND, SAND, AIR, AIR]);
    simulate_particles(&mut grid, 5, 1);
    assert_eq!(grid, vec![AIR, AIR, SAND, SAND, AIR]);
}

#[test]
fn stone_falls_straight_and_never_sideways() {
    let mut grid = vec![
        AIR, STONE, AIR,
        AIR, SAND, AIR,
    ];
    simulate_particles(&mut grid, 2, 3);
    assert_eq!(grid, vec![AIR, STONE, AIR, AIR, SAND, AIR]);
    let mut falling = vec![STONE, AIR];
    simulate_particles(&mut falling, 2, 1);
    assert_eq!(falling, vec![AIR, STONE]);
}

#[test]
fn water_spreads_like_sand() {
    let mut grid = vec![
        AIR, WATER, AIR,
        AIR, STONE, AIR,
    ];
    simulate_particles(&mut grid, 2, 3);
    assert_eq!(grid, vec![AIR, AIR, AIR, AIR, STONE, WATER]);
}

#[test]
fn unknown_byte_is_an_obstacle() {
    let mut grid = vec![
        7, SAND,
        AIR, 7,
    ];
    simulate_particles(&mut grid, 2, 2);
    // the unknown byte over air stays; the sand slides down-left past the other
    assert_eq!(grid, vec![7, AIR, SAND, 7]);
}

#[test]
fn left_neighbour_can_take_the_cell_below_first() {
    // Both grains see air below at the start of the tick, but the left one
    // is visited first and, blocked below, slides into the cell under the
    // right one, which then goes down-right.
    let mut grid = vec![
        SAND, SAND, AIR,
        STONE, AIR, AIR,
    ];
    simulate_particles(&mut grid, 2, 3);
    assert_eq!(grid, vec![AIR, AIR, AIR, STONE, SAND, SAND]);
}

#[test]
fn grid_of_height_one_or_zero_is_left_alone() {
    let mut one = vec![SAND, AIR, STONE];
    simulate_particles(&mut one, 1, 3);
    assert_eq!(one, vec![SAND, AIR, STONE]);
    let mut none: Vec<u8> = vec![];
    simulate_particles(&mut none, 0, 3);
    assert!(none.is_empty());
    let mut no_columns: Vec<u8> = vec![];
    simulate_particles(&mut no_columns, 4, 0);
    assert!(no_columns.is_empty());
}
