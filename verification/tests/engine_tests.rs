use crumb::engine::{Api, Engine, World, DEFAULT_HEIGHT, DEFAULT_WIDTH};
use crumb::interface::{is_in_window, Button};
use crumb::species::{Cell, Species, Wind, SPECIES_COUNT};

#[test]
fn species_all_is_stable_palette_order() {
    let all = Species::all();
    assert_eq!(all.len(), SPECIES_COUNT);
    assert_eq!(all[0], Species::EMPT);
    assert_eq!(all[1], Species::WALL);
    assert_eq!(all[2], Species::DUST);
    assert_eq!(all[3], Species::SAND);
    assert_eq!(all[4], Species::WATR);
    assert_eq!(all[5], Species::GAS);
    assert_eq!(all[6], Species::OIL);
    assert_eq!(all[7], Species::FIRE);
    assert_eq!(all[8], Species::SMKE);
    assert_eq!(all[9], Species::GOL);
    assert_eq!(all[10], Species::WOOD);
    assert_eq!(all[11], Species::OXGN);
    assert_eq!(all[12], Species::HYGN);
}

#[test]
fn cell_new_sets_species_payload() {
    let c = Cell::new(Species::SAND);
    assert_eq!(c.species, Species::SAND);
    assert_eq!(c.ra, 100);
    assert_eq!(c.rb, 0);
    assert_eq!(c.clock, 0);
    assert_eq!(c.get_species(), Species::SAND);
    let g = Cell::new(Species::GOL);
    assert_eq!(g.rb, 1);
}

#[test]
fn world_new_is_all_empty() {
    let w = World::new(10, 8);
    assert_eq!(w.width(), 10);
    assert_eq!(w.height(), 8);
    assert_eq!(w.generation(), 0);
    for y in 0..8 {
        for x in 0..10 {
            assert_eq!(w.get(x, y).species, Species::EMPT);
        }
    }
}

#[test]
fn world_get_out_of_range_is_empty_sentinel() {
    let w = World::new(6, 6);
    assert_eq!(w.get(6, 0), Cell::empty());
    assert_eq!(w.get(0, 6), Cell::empty());
    assert_eq!(w.get(100, 100), Cell::empty());
}

#[test]
fn world_set_out_of_range_is_silent_noop() {
    let mut w = World::new(6, 6);
    w.set(100, 100, Cell::new(Species::WALL));
    for y in 0..6 {
        for x in 0..6 {
            assert_eq!(w.get(x, y).species, Species::EMPT);
        }
    }
}

#[test]
fn is_free_only_for_in_range_empty_cells() {
    let mut w = World::new(6, 6);
    assert!(w.is_free(2, 2));
    w.set(2, 2, Cell::new(Species::WOOD));
    assert!(!w.is_free(2, 2));
    assert!(!w.is_free(6, 0));
    assert!(!w.is_free(0, 6));
}

#[test]
fn world_set_and_get_roundtrip() {
    let mut w = World::new(6, 6);
    let c = Cell::new(Species::WOOD);
    w.set(3, 4, c);
    assert_eq!(w.get(3, 4), c);
    assert_eq!(w.get(4, 3).species, Species::EMPT);
}

#[test]
fn world_clear_resets_everything() {
    let mut w = World::new(6, 6);
    w.set(1, 1, Cell::new(Species::SAND));
    w.set(2, 3, Cell::new(Species::WALL));
    w.clear();
    for y in 0..6 {
        for x in 0..6 {
            assert_eq!(w.get(x, y), Cell::empty());
        }
    }
}

#[test]
fn new_cell_draws_bias_from_world_generator() {
    let mut w = World::new(6, 6);
    for _ in 0..20 {
        let c = w.new_cell(Species::WATR);
        assert_eq!(c.species, Species::WATR);
        assert_eq!(c.rb, 0);
        assert_eq!(c.clock, 0);
        assert!(c.ra == 100 || c.ra == 150);
    }
}

#[test]
fn api_boundary_reads_are_solid_walls() {
    let w = World::new(4, 4);
    let api = Api { x: 0, y: 0 };
    assert_eq!(api.get(&w, -1, 0).species, Species::WALL);
    assert_eq!(api.get(&w, 0, -2).species, Species::WALL);
    assert_eq!(api.get(&w, -2, -2).species, Species::WALL);
    let bottom = Api { x: 3, y: 3 };
    assert_eq!(bottom.get(&w, 1, 0).species, Species::WALL);
    assert_eq!(bottom.get(&w, 0, 1).species, Species::WALL);
    // in range it is the grid cell itself
    assert_eq!(api.get(&w, 1, 1).species, Species::EMPT);
}

#[test]
fn api_boundary_wall_carries_generation_stamp() {
    let w = World::new(4, 4);
    let api = Api { x: 0, y: 0 };
    let wall = api.get(&w, -1, 0);
    assert_eq!(wall.clock, w.generation());
}

#[test]
fn api_set_stamps_written_cell() {
    let mut w = World::new(4, 4);
    let api = Api { x: 1, y: 1 };
    api.set(&mut w, 1, 0, Cell::new(Species::WOOD));
    let written = w.get(2, 1);
    assert_eq!(written.species, Species::WOOD);
    assert_eq!(written.clock, w.generation().wrapping_add(1));
}

#[test]
fn api_set_out_of_range_is_dropped() {
    let mut w = World::new(4, 4);
    let api = Api { x: 0, y: 0 };
    api.set(&mut w, -2, -2, Cell::new(Species::WALL));
    for y in 0..4 {
        for x in 0..4 {
            assert_eq!(w.get(x, y).species, Species::EMPT);
        }
    }
}

#[test]
fn api_random_helpers_stay_in_range() {
    let mut w = World::new(4, 4);
    let api = Api { x: 1, y: 1 };
    for _ in 0..200 {
        let r = api.rand_int(&mut w, 5);
        assert!((0..5).contains(&r));
        let d = api.rand_dir(&mut w);
        assert!(d == -1 || d == 0 || d == 1);
        let d2 = api.rand_dir_2(&mut w);
        assert!(d2 == -1 || d2 == 1);
        let (vx, vy) = api.rand_vec(&mut w);
        assert!((-1..=1).contains(&vx) && (-1..=1).contains(&vy));
        let (ex, ey) = api.rand_vec_8(&mut w);
        assert!((-1..=1).contains(&ex) && (-1..=1).contains(&ey));
        assert!(!(ex == 0 && ey == 0));
        // a 1-in-1 chance always hits
        assert!(api.once_in(&mut w, 1));
    }
}

#[test]
fn api_fluid_reads_ambient_writes_turbulence() {
    let mut w = World::new(4, 4);
    let api = Api { x: 2, y: 2 };
    let ambient = api.get_fluid(&w);
    assert_eq!(ambient, Wind { dx: 0, dy: 0, pressure: 100, density: 0 });
    // turbulence goes to the transient field, not the ambient one
    api.set_fluid(&mut w, Wind { dx: 9, dy: 9, pressure: 9, density: 9 });
    assert_eq!(api.get_fluid(&w), ambient);
}

#[test]
fn blow_wind_pushes_sand_along_the_flow() {
    let mut w = World::new(6, 6);
    let sand = Cell::new(Species::SAND);
    w.set(1, 1, sand);
    let api = Api { x: 1, y: 1 };
    // wind.dy drives the x push: 200 - 126 = 74 exceeds sand's threshold
    let wind = Wind { dx: 126, dy: 200, pressure: 0, density: 0 };
    World::blow_wind(sand, wind, &mut w, api);
    assert_eq!(w.get(1, 1).species, Species::EMPT);
    assert_eq!(w.get(2, 1).species, Species::SAND);
}

#[test]
fn blow_wind_needs_an_empty_target() {
    let mut w = World::new(6, 6);
    let sand = Cell::new(Species::SAND);
    w.set(1, 1, sand);
    w.set(2, 1, Cell::new(Species::WALL));
    let api = Api { x: 1, y: 1 };
    let wind = Wind { dx: 126, dy: 200, pressure: 0, density: 0 };
    World::blow_wind(sand, wind, &mut w, api);
    assert_eq!(w.get(1, 1).species, Species::SAND);
}

#[test]
fn engine_new_uses_default_dimensions() {
    let e = Engine::new();
    assert_eq!(e.world.width(), DEFAULT_WIDTH);
    assert_eq!(e.world.height(), DEFAULT_HEIGHT);
    assert_eq!(e.world.get(0, 0).species, Species::EMPT);
}

#[test]
fn simulation_is_deterministic_for_a_fixed_seed() {
    let build = || {
        let mut w = World::new(16, 16);
        for x in 4..12 {
            w.set(x, 2, Cell::new(Species::SAND));
            w.set(x, 3, Cell::new(Species::WATR));
        }
        for _ in 0..12 {
            w.tick();
        }
        w
    };
    let a = build();
    let b = build();
    for y in 0..16 {
        for x in 0..16 {
            assert_eq!(a.get(x, y), b.get(x, y));
        }
    }
}

#[test]
fn is_in_window_checks_both_axes() {
    assert!(is_in_window(0, 0, 10, 10));
    assert!(is_in_window(9, 9, 10, 10));
    assert!(!is_in_window(10, 9, 10, 10));
    assert!(!is_in_window(9, 10, 10, 10));
    assert!(!is_in_window(-1, 5, 10, 10));
    assert!(!is_in_window(5, -1, 10, 10));
}

#[test]
fn button_update_fires_only_on_a_press_inside() {
    let b = Button::new(10, 10, 20, 10, String::from("clear"));
    assert!(b.update((15, 15), true));
    assert!(!b.update((15, 15), false));
    assert!(!b.update((10, 15), true)); // the border does not count
    assert!(!b.update((31, 15), true));
    assert!(!b.update((15, 21), true));
    assert_eq!(b.text, "clear");
}

#[test]
fn tick_advances_the_generation_twice() {
    let mut w = World::new(4, 4);
    assert_eq!(w.generation(), 0);
    w.tick();
    assert_eq!(w.generation(), 2);
    w.tick();
    assert_eq!(w.generation(), 4);
}
