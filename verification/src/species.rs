//! The closed set of particle species, the canonical cell values, and the
//! per-species update rules.
//!
//! Each rule receives the cell's value by copy and a mediator bound to its
//! position; every grid effect goes back through mediator writes. Each rule
//! is specified against its functional model in [`crate::model`]: the final
//! world is the model applied to the start world for some valid draw record,
//! the draws being exactly the values sampled from the generator.

use vstd::prelude::*;

use crate::engine::{api_ok, Api, World};
use crate::model::{
    draws_ok, gol_neighbors, lemma_idx_bounds, step_cell, step_dust, step_fire, step_fire_burns,
    step_gol, step_hydrogen, step_oil, step_oxygen, step_sand, step_smoke, step_water, step_wood,
    wrap8, Draws,
};

verus! {

/// The number of species, and the length of [`Species::all`].
pub const SPECIES_COUNT: usize = 13;

/// The immutable type tag of a cell. The declaration order is the stable
/// palette order consumed by any picker UI.
#[allow(non_camel_case_types)]
#[derive(Clone, Copy, PartialEq, Eq, Structural, Debug)]
pub enum Species {
    EMPT,
    WALL,
    DUST,
    SAND,
    WATR,
    GAS,
    OIL,
    FIRE,
    SMKE,
    GOL,
    WOOD,
    OXGN,
    HYGN,
}

impl Species {
    /// Every species, in declaration order.
    pub fn all() -> (r: [Species; 13])
        ensures
            r@ == Self::all_spec(),
    {
        let r = [
            Species::EMPT,
            Species::WALL,
            Species::DUST,
            Species::SAND,
            Species::WATR,
            Species::GAS,
            Species::OIL,
            Species::FIRE,
            Species::SMKE,
            Species::GOL,
            Species::WOOD,
            Species::OXGN,
            Species::HYGN,
        ];
        proof {
            assert(r@ =~= Self::all_spec());
        }
        r
    }

    /// The palette order as a sequence.
    pub open spec fn all_spec() -> Seq<Species> {
        seq![
            Species::EMPT,
            Species::WALL,
            Species::DUST,
            Species::SAND,
            Species::WATR,
            Species::GAS,
            Species::OIL,
            Species::FIRE,
            Species::SMKE,
            Species::GOL,
            Species::WOOD,
            Species::OXGN,
            Species::HYGN,
        ]
    }
}

/// One grid slot. A value type, copied freely; the grid overwrites cells in
/// place and never allocates them individually.
///
/// `ra` and `rb` are species-specific payload bytes: a direction bias for
/// powders and liquids, remaining fuel for Fire, a burn countdown for Oil,
/// the alive flag for Life. `clock` is the generation at which the slot was
/// last written; it drives scheduling only and is never part of the
/// physical model.
#[derive(Clone, Copy, PartialEq, Eq, Structural, Debug)]
pub struct Cell {
    pub species: Species,
    pub ra: u8,
    pub rb: u8,
    pub clock: u8,
}

/// The canonical empty cell, the comparison baseline for emptiness tests.
pub open spec fn empty_cell() -> Cell {
    Cell { species: Species::EMPT, ra: 0, rb: 0, clock: 0 }
}

impl Cell {
    /// A freshly painted cell of the given species: canonical bias byte,
    /// alive flag set for Life. For a randomized spawn bias drawn from the
    /// world's seeded generator, see `World::new_cell`.
    pub fn new(species: Species) -> (c: Cell)
        ensures
            c.species == species,
            c.ra == 100,
            c.rb == (if species == Species::GOL { 1u8 } else { 0u8 }),
            c.clock == 0,
    {
        let rb: u8 = if species == Species::GOL { 1 } else { 0 };
        Cell { species, ra: 100, rb, clock: 0 }
    }

    /// The canonical empty cell.
    pub fn empty() -> (c: Cell)
        ensures
            c == empty_cell(),
    {
        Cell { species: Species::EMPT, ra: 0, rb: 0, clock: 0 }
    }

    pub fn get_species(&self) -> (s: Species)
        ensures
            s == self.species,
    {
        self.species
    }
}

/// A sample of the ambient fluid field: a direction, a pressure and a
/// density, each biased around a small byte range.
#[derive(Clone, Copy, PartialEq, Eq, Structural, Debug)]
pub struct Wind {
    pub dx: u8,
    pub dy: u8,
    pub pressure: u8,
    pub density: u8,
}

/// A draw record with no information: the witness for rules that sample
/// nothing.
pub open spec fn no_draws() -> Draws {
    Draws { dir: 0, dir_b: 0, dir2: 1, coin: false, amt_water: 0, amt_oil: 0, vx: 0, vy: 1 }
}

impl Cell {
    /// Run this cell's species rule at the mediator's origin.
    pub fn update(&self, world: &mut World, api: Api)
        requires
            old(world).wf(),
            api_ok(api, old(world)@),
        ensures
            final(world).wf(),
            final(world).burns_view().len() == old(world).burns_view().len(),
            self.species != Species::FIRE && self.species != Species::OIL
                ==> final(world).burns_view() == old(world).burns_view(),
            exists|d: Draws|
                draws_ok(d) && final(world)@ == step_cell(
                    old(world)@,
                    api.x as int,
                    api.y as int,
                    *self,
                    d,
                ),
    {
        let s = self.species;
        s.update(*self, world, api);
    }
}

impl Species {
    /// Dispatch to the species' rule. Empty, Wall and Gas are inert.
    pub fn update(&self, cell: Cell, world: &mut World, api: Api)
        requires
            *self == cell.species,
            old(world).wf(),
            api_ok(api, old(world)@),
        ensures
            final(world).wf(),
            final(world).burns_view().len() == old(world).burns_view().len(),
            cell.species != Species::FIRE && cell.species != Species::OIL
                ==> final(world).burns_view() == old(world).burns_view(),
            exists|d: Draws|
                draws_ok(d) && final(world)@ == step_cell(
                    old(world)@,
                    api.x as int,
                    api.y as int,
                    cell,
                    d,
                ),
    {
        match self {
            Species::EMPT => {
                proof {
                    assert(draws_ok(no_draws()) && world@ == step_cell(
                        old(world)@,
                        api.x as int,
                        api.y as int,
                        cell,
                        no_draws(),
                    ));
                }
            },
            Species::WALL => {
                proof {
                    assert(draws_ok(no_draws()) && world@ == step_cell(
                        old(world)@,
                        api.x as int,
                        api.y as int,
                        cell,
                        no_draws(),
                    ));
                }
            },
            Species::GAS => {
                proof {
                    assert(draws_ok(no_draws()) && world@ == step_cell(
                        old(world)@,
                        api.x as int,
                        api.y as int,
                        cell,
                        no_draws(),
                    ));
                }
            },
            Species::DUST => update_dust(cell, world, api),
            Species::SAND => update_sand(cell, world, api),
            Species::WATR => update_water(cell, world, api),
            Species::OIL => update_oil(cell, world, api),
            Species::FIRE => update_fire(cell, world, api),
            Species::SMKE => update_smoke(cell, world, api),
            Species::GOL => update_gol(cell, world, api),
            Species::WOOD => update_wood(cell, world, api),
            Species::OXGN => update_oxygen(cell, world, api),
            Species::HYGN => update_hydrogen(cell, world, api),
        }
    }
}

/// Granular powder: fall into the first empty slot of the row below, trying
/// a random column first, then its right and left neighbors.
pub fn update_dust(cell: Cell, world: &mut World, api: Api)
    requires
        old(world).wf(),
        api_ok(api, old(world)@),
    ensures
        final(world).wf(),
        final(world).burns_view() == old(world).burns_view(),
        exists|d: Draws|
            draws_ok(d) && final(world)@ == step_dust(
                old(world)@,
                api.x as int,
                api.y as int,
                cell,
                d,
            ),
{
    let dx = api.rand_dir(world);
    let nb = api.get(world, dx, 1);
    let nbr = api.get(world, dx + 1, 1);
    let nbl = api.get(world, dx - 1, 1);

    if nb.species == Species::EMPT {
        api.set(world, dx, 1, cell);
        api.set(world, 0, 0, Cell::empty());
    } else if nbr.species == Species::EMPT {
        api.set(world, dx + 1, 1, cell);
        api.set(world, 0, 0, Cell::empty());
    } else if nbl.species == Species::EMPT {
        api.set(world, dx - 1, 1, cell);
        api.set(world, 0, 0, Cell::empty());
    }
    proof {
        let d = Draws { dir: dx as int, ..no_draws() };
        assert(draws_ok(d) && world@ =~= step_dust(
            old(world)@,
            api.x as int,
            api.y as int,
            cell,
            d,
        ));
    }
}

/// Granular powder: fall straight down, then try one random diagonal, then
/// displace a lighter fluid below, else stay put.
pub fn update_sand(cell: Cell, world: &mut World, api: Api)
    requires
        old(world).wf(),
        api_ok(api, old(world)@),
    ensures
        final(world).wf(),
        final(world).burns_view() == old(world).burns_view(),
        exists|d: Draws|
            draws_ok(d) && final(world)@ == step_sand(
                old(world)@,
                api.x as int,
                api.y as int,
                cell,
                d,
            ),
{
    let dx = api.rand_dir_2(world);
    let nbr = api.get(world, 0, 1);
    if nbr.species == Species::EMPT {
        api.set(world, 0, 0, Cell::empty());
        api.set(world, 0, 1, cell);
    } else if api.get(world, dx, 1).species == Species::EMPT {
        api.set(world, 0, 0, Cell::empty());
        api.set(world, dx, 1, cell);
    } else if nbr.species == Species::WATR || nbr.species == Species::GAS || nbr.species
        == Species::OIL {
        api.set(world, 0, 0, nbr);
        api.set(world, 0, 1, cell);
    } else {
        api.set(world, 0, 0, cell);
    }
    proof {
        let d = Draws { dir2: dx as int, ..no_draws() };
        assert(draws_ok(d) && world@ =~= step_sand(
            old(world)@,
            api.x as int,
            api.y as int,
            cell,
            d,
        ));
    }
}

/// Liquid relaxation: fall (displacing Oil), slide diagonally, then move
/// laterally by the parity of `ra`, spreading that lateral opinion to a
/// random water neighbor; the commitment counter `rb` resists bumping.
pub fn update_water(cell: Cell, world: &mut World, api: Api)
    requires
        old(world).wf(),
        api_ok(api, old(world)@),
    ensures
        final(world).wf(),
        final(world).burns_view() == old(world).burns_view(),
        exists|d: Draws|
            draws_ok(d) && final(world)@ == step_water(
                old(world)@,
                api.x as int,
                api.y as int,
                cell,
                d,
            ),
{
    let dx = api.rand_dir(world);
    let below = api.get(world, 0, 1);
    let dx1 = api.get(world, dx, 1);
    let mut coin = false;
    let mut amt: i32 = 0;
    let mut vec8: (i32, i32) = (0, 1);

    if below.species == Species::EMPT || below.species == Species::OIL {
        api.set(world, 0, 0, below);
        coin = api.once_in(world, 20);
        let mut ra = cell.ra;
        if coin {
            amt = api.rand_int(world, 50);
            ra = 100 + amt as u8;
        }
        api.set(world, 0, 1, Cell { ra, ..cell });
    } else if dx1.species == Species::EMPT || dx1.species == Species::OIL {
        api.set(world, 0, 0, dx1);
        api.set(world, dx, 1, cell);
    } else if api.get(world, -dx, 1).species == Species::EMPT {
        api.set(world, 0, 0, Cell::empty());
        api.set(world, -dx, 1, cell);
    } else {
        let lx: i32 = if cell.ra % 2 == 0 {
            1
        } else {
            -1
        };
        let dx0 = api.get(world, lx, 0);
        let dxd = api.get(world, 2 * lx, 0);

        if dx0.species == Species::EMPT && dxd.species == Species::EMPT {
            // scoot double
            api.set(world, 0, 0, dxd);
            api.set(world, 2 * lx, 0, Cell { rb: 6, ..cell });
            vec8 = api.rand_vec_8(world);
            let nbr = api.get(world, vec8.0, vec8.1);
            // spread opinion
            if nbr.species == Species::WATR && nbr.ra % 2 != cell.ra % 2 {
                api.set(world, vec8.0, vec8.1, cell);
            }
        } else if dx0.species == Species::EMPT || dx0.species == Species::OIL {
            api.set(world, 0, 0, dx0);
            api.set(world, lx, 0, Cell { rb: 3, ..cell });
            vec8 = api.rand_vec_8(world);
            let nbr = api.get(world, vec8.0, vec8.1);
            if nbr.species == Species::WATR && nbr.ra % 2 != cell.ra % 2 {
                api.set(world, vec8.0, vec8.1, cell);
            }
        } else if cell.rb == 0 {
            if api.get(world, -lx, 0).species == Species::EMPT {
                // bump: nudge the opinion towards the blocked side
                let ra2: u8 = if lx == 1 {
                    if cell.ra == 255 {
                        0
                    } else {
                        cell.ra + 1
                    }
                } else {
                    if cell.ra == 0 {
                        255
                    } else {
                        cell.ra - 1
                    }
                };
                api.set(world, 0, 0, Cell { ra: ra2, ..cell });
            }
        } else {
            // become less certain (more bumpable)
            api.set(world, 0, 0, Cell { rb: cell.rb - 1, ..cell });
        }
    }
    proof {
        let d = Draws {
            dir: dx as int,
            dir_b: 0,
            dir2: 1,
            coin,
            amt_water: amt as int,
            amt_oil: 0,
            vx: vec8.0 as int,
            vy: vec8.1 as int,
        };
        assert(draws_ok(d) && world@ =~= step_water(
            old(world)@,
            api.x as int,
            api.y as int,
            cell,
            d,
        ));
    }
}

/// Fire decays its fuel, ignites a randomly chosen flammable neighbor,
/// converts to smoke on exhausted fuel or adjacent water, and otherwise
/// drifts into an empty neighbor, signalling turbulence each step.
pub fn update_fire(cell: Cell, world: &mut World, api: Api)
    requires
        old(world).wf(),
        api_ok(api, old(world)@),
    ensures
        final(world).wf(),
        final(world).burns_view().len() == old(world).burns_view().len(),
        exists|d: Draws|
            draws_ok(d) && final(world)@ == step_fire(
                old(world)@,
                api.x as int,
                api.y as int,
                cell,
                d,
            ) && final(world).burns_view() == step_fire_burns(
                old(world)@,
                api.x as int,
                api.y as int,
                d,
                old(world).burns_view(),
            ),
{
    let dirv = api.rand_dir(world);
    let amt: u8 = (2 + dirv) as u8;
    let ra = cell.ra;
    let v: i32 = ra as i32 - amt as i32;
    let dra: u8 = if v >= 0 {
        v as u8
    } else {
        (v + 256) as u8
    };
    let degraded = Cell { ra: dra, ..cell };

    let (dx, dy) = api.rand_vec(world);
    api.set_fluid(world, Wind { dx: 0, dy: 150, pressure: 1, density: 120 });

    let t0 = api.get(world, dx, dy);
    if t0.species == Species::GAS || t0.species == Species::DUST {
        api.set(
            world,
            dx,
            dy,
            Cell { species: Species::FIRE, ra: (150 + (dx + dy) * 10) as u8, rb: 0, clock: 0 },
        );
        api.set_fluid(world, Wind { dx: 0, dy: 0, pressure: 80, density: 40 });
    }
    let after = api.get(world, dx, dy);
    if ra < 5 || after.species == Species::WATR {
        // the flame is out: what is left of it rises as smoke
        api.set(world, 0, 0, Cell { species: Species::SMKE, ra: cell.ra, rb: cell.rb, clock: 0 });
    } else if after.species == Species::EMPT {
        api.set(world, 0, 0, Cell::empty());
        api.set(world, dx, dy, degraded);
    } else {
        api.set(world, 0, 0, degraded);
    }
    proof {
        let d = Draws { dir: dirv as int, vx: dx as int, vy: dy as int, ..no_draws() };
        assert(dra == wrap8(cell.ra - (2 + dirv)));
        lemma_idx_bounds(old(world)@, api.x as int, api.y as int);
        assert(world.burns_view() =~= step_fire_burns(
            old(world)@,
            api.x as int,
            api.y as int,
            d,
            old(world).burns_view(),
        ));
        assert(draws_ok(d) && world@ =~= step_fire(
            old(world)@,
            api.x as int,
            api.y as int,
            cell,
            d,
        ));
    }
}

/// Smoke drifts one row up with lateral jitter into empty slots and
/// expires once its stamp is old enough.
pub fn update_smoke(cell: Cell, world: &mut World, api: Api)
    requires
        old(world).wf(),
        api_ok(api, old(world)@),
    ensures
        final(world).wf(),
        final(world).burns_view() == old(world).burns_view(),
        exists|d: Draws|
            draws_ok(d) && final(world)@ == step_smoke(
                old(world)@,
                api.x as int,
                api.y as int,
                cell,
                d,
            ),
{
    let dx = api.rand_dir(world);
    let nu = api.get(world, dx, -1);
    if nu.species == Species::EMPT {
        api.set(world, dx, -1, cell);
        api.set(world, 0, 0, Cell::empty());
    }
    if cell.clock > 100 {
        api.set(world, 0, 0, Cell::empty());
    }
    proof {
        let d = Draws { dir: dx as int, ..no_draws() };
        assert(draws_ok(d) && world@ =~= step_smoke(
            old(world)@,
            api.x as int,
            api.y as int,
            cell,
            d,
        ));
    }
}

/// The Life hybrid: count live 8-neighbors that are Life cells and apply
/// the standard survive-on-two-or-three, birth-on-three rule in place.
pub fn update_gol(cell: Cell, world: &mut World, api: Api)
    requires
        old(world).wf(),
        api_ok(api, old(world)@),
    ensures
        final(world).wf(),
        final(world).burns_view() == old(world).burns_view(),
        exists|d: Draws|
            draws_ok(d) && final(world)@ == step_gol(
                old(world)@,
                api.x as int,
                api.y as int,
                cell,
                d,
            ),
{
    let gol_dead = Cell { species: Species::GOL, ra: 0, rb: 0, clock: 0 };
    let gol_alive = Cell { species: Species::GOL, ra: 0, rb: 1, clock: 0 };

    let nb = api.get(world, 0, 1);
    let nt = api.get(world, 0, -1);
    let nr = api.get(world, 1, 0);
    let nl = api.get(world, -1, 0);
    let ntr = api.get(world, 1, -1);
    let nbr = api.get(world, 1, 1);
    let nbl = api.get(world, -1, 1);
    let ntl = api.get(world, -1, -1);

    let c1: i32 = if nb.species == Species::GOL && nb.rb == 1 {
        1
    } else {
        0
    };
    let c2: i32 = if nt.species == Species::GOL && nt.rb == 1 {
        1
    } else {
        0
    };
    let c3: i32 = if nr.species == Species::GOL && nr.rb == 1 {
        1
    } else {
        0
    };
    let c4: i32 = if nl.species == Species::GOL && nl.rb == 1 {
        1
    } else {
        0
    };
    let c5: i32 = if ntr.species == Species::GOL && ntr.rb == 1 {
        1
    } else {
        0
    };
    let c6: i32 = if nbr.species == Species::GOL && nbr.rb == 1 {
        1
    } else {
        0
    };
    let c7: i32 = if nbl.species == Species::GOL && nbl.rb == 1 {
        1
    } else {
        0
    };
    let c8: i32 = if ntl.species == Species::GOL && ntl.rb == 1 {
        1
    } else {
        0
    };
    let neighbors = c1 + c2 + c3 + c4 + c5 + c6 + c7 + c8;
    proof {
        assert(neighbors as int == gol_neighbors(old(world)@, api.x as int, api.y as int));
    }

    if cell.rb == 1 {
        if neighbors < 2 {
            api.set(world, 0, 0, gol_dead);
        } else if neighbors > 3 {
            api.set(world, 0, 0, gol_dead);
        } else {
            api.set(world, 0, 0, gol_alive);
        }
    } else {
        if neighbors == 3 {
            api.set(world, 0, 0, gol_alive);
        } else {
            api.set(world, 0, 0, gol_dead);
        }
    }
    proof {
        assert(draws_ok(no_draws()) && world@ =~= step_gol(
            old(world)@,
            api.x as int,
            api.y as int,
            cell,
            no_draws(),
        ));
    }
}

/// Wood is static: it re-writes itself unchanged.
pub fn update_wood(cell: Cell, world: &mut World, api: Api)
    requires
        old(world).wf(),
        api_ok(api, old(world)@),
    ensures
        final(world).wf(),
        final(world).burns_view() == old(world).burns_view(),
        exists|d: Draws|
            draws_ok(d) && final(world)@ == step_wood(
                old(world)@,
                api.x as int,
                api.y as int,
                cell,
                d,
            ),
{
    api.set(world, 0, 0, cell);
    proof {
        assert(draws_ok(no_draws()) && world@ =~= step_wood(
            old(world)@,
            api.x as int,
            api.y as int,
            cell,
            no_draws(),
        ));
    }
}

/// Oil ignites from adjacent flame or burning oil, counts a burn down in
/// `rb` while spawning fire into sampled empty neighbors, is quenched by
/// water, expires to an empty residue, and otherwise moves as a liquid:
/// down first, then diagonal, then lateral.
pub fn update_oil(cell: Cell, world: &mut World, api: Api)
    requires
        old(world).wf(),
        api_ok(api, old(world)@),
    ensures
        final(world).wf(),
        final(world).burns_view().len() == old(world).burns_view().len(),
        final(world).burns_view() == if cell.rb > 1 {
            old(world).burns_view().update(
                old(world)@.idx(api.x as int, api.y as int),
                Wind { dx: 0, dy: 10, pressure: 10, density: 180 },
            )
        } else {
            old(world).burns_view()
        },
        exists|d: Draws|
            draws_ok(d) && final(world)@ == step_oil(
                old(world)@,
                api.x as int,
                api.y as int,
                cell,
                d,
            ),
{
    let rbv = cell.rb;
    let (dx, dy) = api.rand_vec(world);
    let mut amt: i32 = 0;
    let nbr = api.get(world, dx, dy);

    let mut new_cell = cell;
    if (rbv == 0 && nbr.species == Species::FIRE) || (nbr.species == Species::OIL && nbr.rb > 1
        && nbr.rb < 20) {
        new_cell = Cell { species: Species::OIL, ra: cell.ra, rb: 50, clock: 0 };
    }

    if rbv == 1 {
        // the countdown ends: leave an empty residue behind
        api.set(world, 0, 0, Cell { species: Species::EMPT, ra: cell.ra, rb: 90, clock: 0 });
    } else {
        if rbv > 1 {
            new_cell = Cell { species: Species::OIL, ra: cell.ra, rb: rbv - 1, clock: 0 };
            api.set_fluid(world, Wind { dx: 0, dy: 10, pressure: 10, density: 180 });
            if rbv % 4 != 0 && nbr.species == Species::EMPT {
                amt = api.rand_int(world, 30);
                api.set(
                    world,
                    dx,
                    dy,
                    Cell { species: Species::FIRE, ra: 20 + amt as u8, rb: 0, clock: 0 },
                );
            }
            if nbr.species == Species::WATR {
                new_cell = Cell { species: Species::OIL, ra: 50, rb: 0, clock: 0 };
            }
        }
        if api.get(world, 0, 1).species == Species::EMPT {
            api.set(world, 0, 0, Cell::empty());
            api.set(world, 0, 1, new_cell);
        } else if api.get(world, dx, 1).species == Species::EMPT {
            api.set(world, 0, 0, Cell::empty());
            api.set(world, dx, 1, new_cell);
        } else if api.get(world, -dx, 1).species == Species::EMPT {
            api.set(world, 0, 0, Cell::empty());
            api.set(world, -dx, 1, new_cell);
        } else if api.get(world, dx, 0).species == Species::EMPT {
            api.set(world, 0, 0, Cell::empty());
            api.set(world, dx, 0, new_cell);
        } else if api.get(world, -dx, 0).species == Species::EMPT {
            api.set(world, 0, 0, Cell::empty());
            api.set(world, -dx, 0, new_cell);
        } else {
            api.set(world, 0, 0, new_cell);
        }
    }
    proof {
        let d = Draws { vx: dx as int, vy: dy as int, amt_oil: amt as int, ..no_draws() };
        assert(draws_ok(d) && world@ =~= step_oil(
            old(world)@,
            api.x as int,
            api.y as int,
            cell,
            d,
        ));
    }
}

/// Oxygen drifts into a randomly sampled neighbor slot when it is empty.
pub fn update_oxygen(cell: Cell, world: &mut World, api: Api)
    requires
        old(world).wf(),
        api_ok(api, old(world)@),
    ensures
        final(world).wf(),
        final(world).burns_view() == old(world).burns_view(),
        exists|d: Draws|
            draws_ok(d) && final(world)@ == step_oxygen(
                old(world)@,
                api.x as int,
                api.y as int,
                cell,
                d,
            ),
{
    let dx = api.rand_dir(world);
    let dy = api.rand_dir(world);
    let nu = api.get(world, dx, dy);
    if nu.species == Species::EMPT {
        api.set(world, dx, dy, cell);
        api.set(world, 0, 0, Cell::empty());
    }
    proof {
        let d = Draws { dir: dx as int, dir_b: dy as int, ..no_draws() };
        assert(draws_ok(d) && world@ =~= step_oxygen(
            old(world)@,
            api.x as int,
            api.y as int,
            cell,
            d,
        ));
    }
}

/// Hydrogen drifts like oxygen; it then tests one sampled offset and, on
/// finding oxygen there, combines: that slot becomes water and this cell
/// becomes empty. The reaction check deliberately samples a single offset
/// rather than scanning the eight distinct neighbors.
pub fn update_hydrogen(cell: Cell, world: &mut World, api: Api)
    requires
        old(world).wf(),
        api_ok(api, old(world)@),
    ensures
        final(world).wf(),
        final(world).burns_view() == old(world).burns_view(),
        exists|d: Draws|
            draws_ok(d) && final(world)@ == step_hydrogen(
                old(world)@,
                api.x as int,
                api.y as int,
                cell,
                d,
            ),
{
    let dx = api.rand_dir(world);
    let dy = api.rand_dir(world);
    let nu = api.get(world, dx, dy);
    if nu.species == Species::EMPT {
        api.set(world, dx, dy, cell);
        api.set(world, 0, 0, Cell::empty());
    }
    let t = api.get(world, dx, dy);
    if t.species == Species::OXGN {
        api.set(world, dx, dy, Cell { species: Species::WATR, ra: 0, rb: 0, clock: 0 });
        api.set(world, 0, 0, Cell::empty());
    }
    proof {
        let d = Draws { dir: dx as int, dir_b: dy as int, ..no_draws() };
        assert(draws_ok(d) && world@ =~= step_hydrogen(
            old(world)@,
            api.x as int,
            api.y as int,
            cell,
            d,
        ));
    }
}

} // verus!
