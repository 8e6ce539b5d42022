use crumb::engine::World;
use crumb::species::{Cell, Species};

fn count(w: &World, sp: Species) -> usize {
    let mut n = 0;
    for y in 0..w.height() as usize {
        for x in 0..w.width() as usize {
            if w.get(x, y).species == sp {
                n += 1;
            }
        }
    }
    n
}

fn find(w: &World, sp: Species) -> Option<(usize, usize)> {
    for y in 0..w.height() as usize {
        for x in 0..w.width() as usize {
            if w.get(x, y).species == sp {
                return Some((x, y));
            }
        }
    }
    None
}

#[test]
fn inert_grid_is_unchanged_by_ticks() {
    let mut w = World::new(8, 8);
    for x in 0..8 {
        w.set(x, 7, Cell::new(Species::WALL));
    }
    w.set(3, 3, Cell::new(Species::WALL));
    w.set(4, 2, Cell::new(Species::WALL));
    let mut before = Vec::new();
    for y in 0..8 {
        for x in 0..8 {
            before.push(w.get(x, y));
        }
    }
    for _ in 0..5 {
        w.tick();
    }
    let mut i = 0;
    for y in 0..8 {
        for x in 0..8 {
            assert_eq!(w.get(x, y), before[i]);
            i += 1;
        }
    }
}

#[test]
fn sand_falls_one_row_per_tick_to_the_bottom() {
    let h: usize = 8;
    let mut w = World::new(5, h as i32);
    w.set(2, 0, Cell::new(Species::SAND));
    for row in 1..h {
        w.tick();
        assert_eq!(w.get(2, row).species, Species::SAND);
        assert_eq!(w.get(2, row - 1).species, Species::EMPT);
        assert_eq!(count(&w, Species::SAND), 1);
    }
    // at the bottom row the boundary is solid: the sand rests
    for _ in 0..4 {
        w.tick();
        assert_eq!(w.get(2, h - 1).species, Species::SAND);
        assert_eq!(count(&w, Species::SAND), 1);
    }
}

#[test]
fn sand_rests_on_a_wall_floor() {
    let mut w = World::new(5, 6);
    for x in 0..5 {
        w.set(x, 4, Cell::new(Species::WALL));
    }
    w.set(2, 0, Cell::new(Species::SAND));
    for _ in 0..10 {
        w.tick();
    }
    assert_eq!(w.get(2, 3).species, Species::SAND);
    assert_eq!(count(&w, Species::SAND), 1);
}

#[test]
fn water_sinks_through_oil_in_one_tick() {
    let mut w = World::new(5, 6);
    let water = Cell::new(Species::WATR);
    w.set(2, 2, water);
    w.set(2, 3, Cell::new(Species::OIL));
    w.tick();
    assert_eq!(w.get(2, 2).species, Species::OIL);
    let sunk = w.get(2, 3);
    assert_eq!(sunk.species, Species::WATR);
    assert_eq!(sunk.rb, water.rb);
    assert!(sunk.ra == water.ra || (100..150).contains(&sunk.ra));
}

#[test]
fn water_falls_into_empty_space() {
    let mut w = World::new(5, 6);
    w.set(2, 1, Cell::new(Species::WATR));
    w.tick();
    assert_eq!(w.get(2, 1).species, Species::EMPT);
    assert_eq!(w.get(2, 2).species, Species::WATR);
}

#[test]
fn dust_falls_into_the_row_below() {
    let mut w = World::new(5, 6);
    w.set(2, 1, Cell::new(Species::DUST));
    w.tick();
    assert_eq!(count(&w, Species::DUST), 1);
    let (x, y) = find(&w, Species::DUST).unwrap();
    assert_eq!(y, 2);
    assert!((1..=3).contains(&x));
}

#[test]
fn oil_falls_into_empty_space() {
    let mut w = World::new(5, 6);
    w.set(2, 1, Cell::new(Species::OIL));
    w.tick();
    assert_eq!(w.get(2, 1).species, Species::EMPT);
    assert_eq!(w.get(2, 2).species, Species::OIL);
}

#[test]
fn oil_burnout_leaves_an_empty_residue() {
    let mut w = World::new(5, 5);
    w.set(2, 2, Cell { species: Species::OIL, ra: 33, rb: 1, clock: 0 });
    w.tick();
    let residue = w.get(2, 2);
    assert_eq!(residue.species, Species::EMPT);
    assert_eq!(residue.ra, 33);
    assert_eq!(residue.rb, 90);
    assert_eq!(count(&w, Species::OIL), 0);
}

#[test]
fn exhausted_fire_converts_to_smoke() {
    let mut w = World::new(5, 5);
    w.set(2, 2, Cell { species: Species::FIRE, ra: 3, rb: 0, clock: 0 });
    w.tick();
    assert_eq!(count(&w, Species::FIRE), 0);
    assert_eq!(w.get(2, 2).species, Species::SMKE);
    assert_eq!(count(&w, Species::SMKE), 1);
}

#[test]
fn doused_fire_converts_to_smoke() {
    // every neighbor is water, so whichever offset the flame samples
    // extinguishes it on the spot
    let mut w = World::new(5, 5);
    for y in 1..4 {
        for x in 1..4 {
            if !(x == 2 && y == 2) {
                w.set(x, y, Cell::new(Species::WATR));
            }
        }
    }
    w.set(2, 2, Cell { species: Species::FIRE, ra: 200, rb: 0, clock: 0 });
    w.tick();
    assert_eq!(count(&w, Species::FIRE), 0);
    assert_eq!(w.get(2, 2).species, Species::SMKE);
}

#[test]
fn wood_stays_in_place() {
    let mut w = World::new(5, 5);
    w.set(2, 1, Cell::new(Species::WOOD));
    for _ in 0..6 {
        w.tick();
    }
    assert_eq!(w.get(2, 1).species, Species::WOOD);
    assert_eq!(count(&w, Species::WOOD), 1);
}

#[test]
fn gas_is_inert_and_stays_put() {
    let mut w = World::new(5, 5);
    w.set(2, 1, Cell::new(Species::GAS));
    for _ in 0..4 {
        w.tick();
    }
    assert_eq!(w.get(2, 1).species, Species::GAS);
}

#[test]
fn smoke_drifts_one_row_up() {
    let mut w = World::new(5, 6);
    w.set(2, 3, Cell::new(Species::SMKE));
    w.tick();
    assert_eq!(count(&w, Species::SMKE), 1);
    let (x, y) = find(&w, Species::SMKE).unwrap();
    assert_eq!(y, 2);
    assert!((1..=3).contains(&x));
}

#[test]
fn lone_life_cell_dies_of_underpopulation() {
    let mut w = World::new(5, 5);
    w.set(2, 2, Cell::new(Species::GOL));
    assert_eq!(w.get(2, 2).rb, 1);
    w.tick();
    let c = w.get(2, 2);
    assert_eq!(c.species, Species::GOL);
    assert_eq!(c.rb, 0);
}

#[test]
fn life_block_is_stable() {
    let mut w = World::new(6, 6);
    for &(x, y) in &[(1, 1), (2, 1), (1, 2), (2, 2)] {
        w.set(x, y, Cell::new(Species::GOL));
    }
    for _ in 0..3 {
        w.tick();
        for &(x, y) in &[(1usize, 1usize), (2, 1), (1, 2), (2, 2)] {
            let c = w.get(x, y);
            assert_eq!(c.species, Species::GOL);
            assert_eq!(c.rb, 1, "block cell ({x},{y}) should stay alive");
        }
    }
}

#[test]
fn dead_life_cell_is_born_on_three_neighbors() {
    let mut w = World::new(6, 6);
    // a dead Life cell, its three live neighbors in the column to its
    // right, which the first (left-to-right) sweep reaches later
    w.set(2, 2, Cell { species: Species::GOL, ra: 0, rb: 0, clock: 0 });
    for &(x, y) in &[(3, 1), (3, 2), (3, 3)] {
        w.set(x, y, Cell::new(Species::GOL));
    }
    w.tick();
    let c = w.get(2, 2);
    assert_eq!(c.species, Species::GOL);
    assert_eq!(c.rb, 1);
}

#[test]
fn blinker_decays_under_the_in_place_sweep() {
    // Under a synchronous update a blinker oscillates with period two;
    // this engine updates in place during the sweep, so the row's cells
    // see their left neighbors already updated and the blinker dies out.
    let mut w = World::new(7, 7);
    for &(x, y) in &[(2, 3), (3, 3), (4, 3)] {
        w.set(x, y, Cell::new(Species::GOL));
    }
    w.tick();
    for &(x, y) in &[(2usize, 3usize), (3, 3), (4, 3)] {
        let c = w.get(x, y);
        assert_eq!(c.species, Species::GOL);
        assert_eq!(c.rb, 0, "cell ({x},{y}) should be dead after one sweep");
    }
}

#[test]
fn hydrogen_and_oxygen_combine_into_one_water() {
    // a walled box confining one hydrogen above one oxygen
    let mut w = World::new(3, 4);
    for y in 0..4 {
        for x in 0..3 {
            if !(x == 1 && (y == 1 || y == 2)) {
                w.set(x, y, Cell::new(Species::WALL));
            }
        }
    }
    w.set(1, 1, Cell::new(Species::HYGN));
    w.set(1, 2, Cell::new(Species::OXGN));
    let mut reacted = false;
    for _ in 0..2000 {
        w.tick();
        let h = count(&w, Species::HYGN);
        let o = count(&w, Species::OXGN);
        let water = count(&w, Species::WATR);
        assert!(
            (h == 1 && o == 1 && water == 0) || (h == 0 && o == 0 && water == 1),
            "mass must be conserved: h={h} o={o} water={water}"
        );
        if water == 1 {
            reacted = true;
            break;
        }
    }
    assert!(reacted, "the confined pair should combine");
    assert_eq!(w.get(1, 2).species, Species::WATR);
    assert_eq!(w.get(1, 1).species, Species::EMPT);
}

#[test]
fn sand_displaces_lighter_water_below() {
    let mut w = World::new(5, 6);
    // block the diagonals so the sand must displace the water below it
    w.set(1, 2, Cell::new(Species::WALL));
    w.set(3, 2, Cell::new(Species::WALL));
    w.set(2, 1, Cell::new(Species::SAND));
    w.set(2, 2, Cell::new(Species::WATR));
    w.tick();
    assert_eq!(w.get(2, 2).species, Species::SAND);
    assert_eq!(w.get(2, 1).species, Species::WATR);
}

#[test]
fn water_scoots_along_a_floor() {
    let mut w = World::new(7, 5);
    for x in 0..7 {
        w.set(x, 3, Cell::new(Species::WALL));
    }
    // an even lateral bias prefers the right; both slots there are free
    w.set(2, 2, Cell::new(Species::WATR));
    assert_eq!(w.get(2, 2).ra % 2, 0);
    w.tick();
    assert_eq!(w.get(2, 2).species, Species::EMPT);
    let scooted = w.get(4, 2);
    assert_eq!(scooted.species, Species::WATR);
    assert_eq!(scooted.rb, 6, "a double scoot leaves a fresh commitment");
}

#[test]
fn boxed_smoke_past_its_age_expires() {
    let mut w = World::new(3, 3);
    for y in 0..3 {
        for x in 0..3 {
            if !(x == 1 && y == 1) {
                w.set(x, y, Cell::new(Species::WALL));
            }
        }
    }
    w.set(1, 1, Cell { species: Species::SMKE, ra: 0, rb: 0, clock: 120 });
    w.tick();
    assert_eq!(w.get(1, 1).species, Species::EMPT);
}

#[test]
fn boxed_fire_decays_its_fuel_and_goes_out() {
    let mut w = World::new(3, 3);
    for y in 0..3 {
        for x in 0..3 {
            if !(x == 1 && y == 1) {
                w.set(x, y, Cell::new(Species::WALL));
            }
        }
    }
    w.set(1, 1, Cell { species: Species::FIRE, ra: 60, rb: 0, clock: 0 });
    let mut fuel: u8 = 60;
    let mut burned_out = false;
    for _ in 0..80 {
        w.tick();
        let c = w.get(1, 1);
        if c.species != Species::FIRE {
            // the exhausted flame leaves smoke behind
            assert_eq!(c.species, Species::SMKE);
            burned_out = true;
            break;
        }
        // each step burns one, two or three units of fuel
        assert!(c.ra < fuel && fuel - c.ra <= 3, "fuel {} -> {}", fuel, c.ra);
        fuel = c.ra;
    }
    assert!(burned_out, "the boxed flame must exhaust its fuel");
}
