use sand_simulation::application::AppError;
use sand_simulation::brush::cursor_to_grid;
use sand_simulation::buffers::grid_dims_bytes;
use sand_simulation::clock::{SimulationClock, NANOS_PER_SECOND};
use sand_simulation::material::{
    movement_class, particles_to_bgra, Movement, Particle, AIR, SAND, STONE, WATER,
};
use sand_simulation::particle_manager::{GridError, ParticleManager, RADIUS_ADD_PARTICLES};

#[test]
fn new_grid_is_all_air_with_sand_selected() {
    let g = ParticleManager::new(4, 3).unwrap();
    assert_eq!(g.width(), 4);
    assert_eq!(g.height(), 3);
    assert_eq!(g.particle_grid(), &[0u8; 12]);
    assert_eq!(g.selected_material(), SAND);
}

#[test]
fn degenerate_dimensions_are_refused() {
    assert!(matches!(ParticleManager::new(0, 5), Err(GridError::DegenerateDimensions)));
    assert!(matches!(ParticleManager::new(5, 0), Err(GridError::DegenerateDimensions)));
    assert!(matches!(
        ParticleManager::with_palette(0, 0, vec![]),
        Err(GridError::DegenerateDimensions)
    ));
}

#[test]
fn a_grid_beyond_what_a_vector_holds_is_refused() {
    assert!(matches!(ParticleManager::new(u32::MAX, u32::MAX), Err(GridError::TooLarge)));
}

#[test]
fn an_empty_palette_is_refused() {
    assert!(matches!(ParticleManager::with_palette(2, 2, vec![]), Err(GridError::EmptyPalette)));
}

#[test]
fn get_and_set_are_bounds_checked() {
    let mut g = ParticleManager::new(3, 2).unwrap();
    assert!(g.set(2, 1, Particle::Stone));
    assert_eq!(g.get(2, 1), Some(Particle::Stone));
    assert_eq!(g.particle_grid(), &[0, 0, 0, 0, 0, STONE]);
    assert!(!g.set(3, 0, Particle::Sand));
    assert!(!g.set(0, 2, Particle::Sand));
    assert_eq!(g.get(3, 0), None);
    assert_eq!(g.get(0, 2), None);
    assert_eq!(g.particle_grid(), &[0, 0, 0, 0, 0, STONE]);
}

#[test]
fn cycling_three_materials_up_three_times_returns() {
    let palette = vec![Particle::Sand, Particle::Stone, Particle::Water];
    let mut g = ParticleManager::with_palette(2, 2, palette).unwrap();
    assert_eq!(g.selected_material(), SAND);
    g.cycle_material_up();
    assert_eq!(g.selected_material(), STONE);
    g.cycle_material_up();
    assert_eq!(g.selected_material(), WATER);
    g.cycle_material_up();
    assert_eq!(g.selected_material(), SAND);
}

#[test]
fn cycling_down_from_the_first_material_wraps_to_the_last() {
    let palette = vec![Particle::Sand, Particle::Stone, Particle::Water];
    let mut g = ParticleManager::with_palette(2, 2, palette).unwrap();
    g.cycle_material_down();
    assert_eq!(g.selected_material(), WATER);
    g.cycle_material_down();
    assert_eq!(g.selected_material(), STONE);
}

#[test]
fn default_palette_cycles_air_sand_stone() {
    let mut g = ParticleManager::new(1, 1).unwrap();
    assert_eq!(g.selected_material(), SAND);
    g.cycle_material_up();
    assert_eq!(g.selected_material(), STONE);
    g.cycle_material_up();
    assert_eq!(g.selected_material(), AIR);
    g.cycle_material_up();
    assert_eq!(g.selected_material(), SAND);
    g.cycle_material_down();
    assert_eq!(g.selected_material(), AIR);
    g.cycle_material_down();
    assert_eq!(g.selected_material(), STONE);
}

#[test]
fn cycling_a_palette_of_one_stays() {
    let mut g = ParticleManager::with_palette(1, 1, vec![Particle::Water]).unwrap();
    g.cycle_material_up();
    assert_eq!(g.selected_material(), WATER);
    g.cycle_material_down();
    assert_eq!(g.selected_material(), WATER);
}

#[test]
fn stamp_of_radius_two_covers_the_disc_and_nothing_else() {
    let mut g = ParticleManager::new(10, 10).unwrap();
    g.stamp_with_radius(5, 5, 2);
    let mut painted = 0;
    for y in 0..10i64 {
        for x in 0..10i64 {
            let inside = (x - 5) * (x - 5) + (y - 5) * (y - 5) <= 4;
            let want = if inside { Particle::Sand } else { Particle::Air };
            assert_eq!(g.get(x as u32, y as u32), Some(want));
            if inside {
                painted += 1;
            }
        }
    }
    assert_eq!(painted, 13);
    assert_eq!(g.get(5, 3), Some(Particle::Sand));
    assert_eq!(g.get(7, 5), Some(Particle::Sand));
    assert_eq!(g.get(6, 6), Some(Particle::Sand));
    assert_eq!(g.get(7, 6), Some(Particle::Air));
    assert_eq!(g.get(7, 7), Some(Particle::Air));
}

#[test]
fn stamp_uses_the_fixed_radius() {
    assert_eq!(RADIUS_ADD_PARTICLES, 2);
    let mut a = ParticleManager::new(10, 10).unwrap();
    let mut b = ParticleManager::new(10, 10).unwrap();
    a.stamp(5, 5);
    b.stamp_with_radius(5, 5, RADIUS_ADD_PARTICLES);
    assert_eq!(a.particle_grid(), b.particle_grid());
    assert_eq!(a.particle_grid().iter().filter(|c| **c == SAND).count(), 13);
}

#[test]
fn stamp_at_a_corner_drops_what_lies_outside() {
    let mut g = ParticleManager::new(4, 4).unwrap();
    g.stamp_with_radius(0, 0, 2);
    assert_eq!(
        g.particle_grid(),
        &[
            1, 1, 1, 0,
            1, 1, 0, 0,
            1, 0, 0, 0,
            0, 0, 0, 0,
        ]
    );
}

#[test]
fn stamp_centred_outside_the_grid_paints_the_part_inside() {
    let mut g = ParticleManager::new(3, 3).unwrap();
    g.stamp_with_radius(-1, 1, 2);
    assert_eq!(g.particle_grid(), &[1, 0, 0, 1, 1, 0, 1, 0, 0]);
    let mut far = ParticleManager::new(3, 3).unwrap();
    far.stamp_with_radius(100, -100, 2);
    far.stamp_with_radius(i64::MIN, i64::MAX, u32::MAX);
    assert_eq!(far.particle_grid(), &[0u8; 9]);
}

#[test]
fn stamp_of_radius_zero_paints_one_cell() {
    let mut g = ParticleManager::new(3, 3).unwrap();
    g.stamp_with_radius(2, 1, 0);
    assert_eq!(g.particle_grid(), &[0, 0, 0, 0, 0, 1, 0, 0, 0]);
}

#[test]
fn stamp_with_a_huge_radius_paints_everything() {
    let mut g = ParticleManager::new(3, 2).unwrap();
    g.stamp_with_radius(1, 1, u32::MAX);
    assert_eq!(g.particle_grid(), &[1u8; 6]);
}

#[test]
fn stamp_overwrites_what_was_there() {
    let mut g = ParticleManager::new(3, 3).unwrap();
    g.stamp_with_radius(1, 1, 1);
    g.cycle_material_up();
    g.stamp_with_radius(1, 1, 0);
    assert_eq!(g.particle_grid(), &[0, 1, 0, 1, 2, 1, 0, 1, 0]);
    g.cycle_material_up();
    assert_eq!(g.selected_material(), AIR);
    g.stamp_with_radius(1, 1, 1);
    assert_eq!(g.particle_grid(), &[0u8; 9]);
}

#[test]
fn painting_does_not_advance_the_simulation() {
    let mut g = ParticleManager::new(3, 3).unwrap();
    g.stamp_with_radius(1, 0, 0);
    g.stamp_with_radius(1, 0, 0);
    assert_eq!(g.particle_grid(), &[0, 1, 0, 0, 0, 0, 0, 0, 0]);
}

#[test]
fn cursor_is_scaled_to_the_grid_and_rounded_down() {
    assert_eq!(cursor_to_grid(0, 800, 200), 0);
    assert_eq!(cursor_to_grid(3, 800, 200), 0);
    assert_eq!(cursor_to_grid(4, 800, 200), 1);
    assert_eq!(cursor_to_grid(799, 800, 200), 199);
    assert_eq!(cursor_to_grid(800, 800, 200), 200);
    assert_eq!(cursor_to_grid(5, 3, 10), 16);
    assert_eq!(cursor_to_grid(-1, 800, 200), -1);
    assert_eq!(cursor_to_grid(-4, 800, 200), -1);
    assert_eq!(cursor_to_grid(-5, 800, 200), -2);
    assert_eq!(cursor_to_grid(-7, 1, 3), -21);
    assert_eq!(cursor_to_grid(-1, 800, 0), 0);
    assert_eq!(cursor_to_grid(i32::MIN, 1, u32::MAX), -(1i64 << 31) * (u32::MAX as i64));
    assert_eq!(cursor_to_grid(i32::MAX, 1, u32::MAX), (i32::MAX as i64) * (u32::MAX as i64));
}

#[test]
fn material_is_added_under_the_cursor() {
    let mut g = ParticleManager::new(10, 10).unwrap();
    // pixel (400, 440) of an 800 by 800 window lies over cell (5, 5)
    g.add_material_at_cursor(800, 800, 400, 440);
    let mut want = ParticleManager::new(10, 10).unwrap();
    want.stamp(5, 5);
    assert_eq!(g.particle_grid(), want.particle_grid());
    assert_eq!(g.get(5, 5), Some(Particle::Sand));
    assert_eq!(g.get(5, 8), Some(Particle::Air));
}

#[test]
fn a_cursor_left_of_the_window_paints_the_edge() {
    let mut g = ParticleManager::new(4, 4).unwrap();
    g.add_material_at_cursor(400, 400, -1, 0);
    assert_eq!(
        g.particle_grid(),
        &[
            1, 1, 0, 0,
            1, 0, 0, 0,
            0, 0, 0, 0,
            0, 0, 0, 0,
        ]
    );
}

#[test]
fn a_window_without_size_paints_nothing() {
    let mut g = ParticleManager::new(4, 4).unwrap();
    g.add_material_at_cursor(0, 400, 10, 10);
    g.add_material_at_cursor(400, 0, 10, 10);
    assert_eq!(g.particle_grid(), &[0u8; 16]);
}

#[test]
fn material_table_maps_bytes_classes_and_colours() {
    assert_eq!(Particle::Air.id(), AIR);
    assert_eq!(Particle::Sand.id(), SAND);
    assert_eq!(Particle::Stone.id(), STONE);
    assert_eq!(Particle::Water.id(), WATER);
    assert_eq!((AIR, SAND, STONE, WATER), (0, 1, 2, 3));
    assert_eq!(Particle::from_id(0), Some(Particle::Air));
    assert_eq!(Particle::from_id(1), Some(Particle::Sand));
    assert_eq!(Particle::from_id(2), Some(Particle::Stone));
    assert_eq!(Particle::from_id(3), Some(Particle::Water));
    assert_eq!(Particle::from_id(4), None);
    assert_eq!(Particle::from_id(255), None);
    assert_eq!(Particle::Air.movement(), Movement::Immovable);
    assert_eq!(Particle::Sand.movement(), Movement::DiagonalFall);
    assert_eq!(Particle::Stone.movement(), Movement::StraightFall);
    assert_eq!(Particle::Water.movement(), Movement::DiagonalFall);
    assert_eq!(movement_class(0), Movement::Immovable);
    assert_eq!(movement_class(1), Movement::DiagonalFall);
    assert_eq!(movement_class(2), Movement::StraightFall);
    assert_eq!(movement_class(3), Movement::DiagonalFall);
    assert_eq!(movement_class(4), Movement::Immovable);
    assert_eq!(Particle::Air.to_bgra(), [255, 255, 255, 255]);
    assert_eq!(Particle::Sand.to_bgra(), [128, 178, 194, 255]);
    assert_eq!(Particle::Stone.to_bgra(), [128, 128, 128, 255]);
    assert_eq!(Particle::Water.to_bgra(), [230, 144, 64, 255]);
}

#[test]
fn clock_runs_a_tick_when_the_interval_has_passed() {
    let mut clock = SimulationClock::new(1_000, 50);
    assert_eq!(clock.last_update(), 1_000);
    assert_eq!(clock.update_interval(), 50);
    assert!(!clock.is_due(1_049));
    assert!(!clock.tick(1_049));
    assert_eq!(clock.last_update(), 1_000);
    assert!(clock.is_due(1_050));
    assert!(clock.tick(1_050));
    assert_eq!(clock.last_update(), 1_050);
    assert!(!clock.tick(1_050));
}

#[test]
fn clock_reading_before_the_last_tick_counts_as_no_time() {
    let mut clock = SimulationClock::new(1_000, 1);
    assert!(!clock.tick(10));
    assert_eq!(clock.last_update(), 1_000);
    let mut always = SimulationClock::new(1_000, 0);
    assert!(always.tick(10));
    assert_eq!(always.last_update(), 10);
}

#[test]
fn simulation_speed_sets_the_interval_in_nanoseconds() {
    let mut clock = SimulationClock::new(0, 5);
    clock.set_simulation_speed(60);
    assert_eq!(clock.update_interval(), 16_666_666);
    clock.set_simulation_speed(1);
    assert_eq!(clock.update_interval(), NANOS_PER_SECOND);
    clock.set_simulation_speed(u32::MAX);
    assert_eq!(clock.update_interval(), 0);
    clock.set_update_interval(20_000_000);
    assert_eq!(clock.update_interval(), 20_000_000);
    assert_eq!(clock.last_update(), 0);
}

#[test]
fn missed_ticks_are_not_made_up_for() {
    let mut g = ParticleManager::new(1, 5).unwrap();
    g.set(0, 0, Particle::Sand);
    let mut clock = SimulationClock::new(0, 10);
    // a hundred intervals late: one tick all the same
    assert!(clock.advance(&mut g, 1_000));
    assert_eq!(g.particle_grid(), &[0, 1, 0, 0, 0]);
    assert_eq!(clock.last_update(), 1_000);
    assert!(!clock.advance(&mut g, 1_009));
    assert_eq!(g.particle_grid(), &[0, 1, 0, 0, 0]);
    assert_eq!(clock.last_update(), 1_000);
    assert!(clock.advance(&mut g, 1_010));
    assert_eq!(g.particle_grid(), &[0, 0, 1, 0, 0]);
}

#[test]
fn a_stroke_before_the_check_is_seen_by_that_tick() {
    let mut g = ParticleManager::new(3, 3).unwrap();
    let mut clock = SimulationClock::new(0, 10);
    g.stamp_with_radius(1, 0, 0);
    assert!(clock.advance(&mut g, 10));
    assert_eq!(g.particle_grid(), &[0, 0, 0, 0, 1, 0, 0, 0, 0]);
}

#[test]
fn window_error_has_its_message() {
    assert_eq!(AppError::WindowUninitialized.message(), "Window not initialized while in use");
}

#[test]
fn particles_become_four_bytes_each() {
    let bytes = particles_to_bgra(&[Particle::Sand, Particle::Air, Particle::Water]);
    assert_eq!(bytes, vec![128, 178, 194, 255, 255, 255, 255, 255, 230, 144, 64, 255]);
    assert_eq!(particles_to_bgra(&[]), Vec::<u8>::new());
}

#[test]
fn grid_dimensions_become_eight_bytes_in_memory_order() {
    let bytes = grid_dims_bytes(200, 0x0102_0304);
    let mut want = 200u32.to_ne_bytes().to_vec();
    want.extend_from_slice(&0x0102_0304u32.to_ne_bytes());
    assert_eq!(bytes, want);
    let low = vec![200, 0, 0, 0, 4, 3, 2, 1];
    let high = vec![0, 0, 0, 200, 1, 2, 3, 4];
    assert!(bytes == low || bytes == high);
}
