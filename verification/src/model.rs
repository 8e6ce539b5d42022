//! The functional model of the engine.
//!
//! [`Board`] is the mathematical value of a world: dimensions, the cell
//! sequence, the ambient wind field and the generation counter. Every
//! executable update rule is specified against a spec function over boards;
//! one whole tick is [`tick_model`], a fold of per-position visits in the
//! alternating scan order. Randomness is factored out: each visit consumes
//! one [`Draws`] record holding the values the rule may sample, so a tick is
//! a deterministic function of the start board and a sequence of draws.

use vstd::prelude::*;

use crate::species::{empty_cell, Cell, Species, Wind};

verus! {

/// The largest grid dimension a world accepts: it keeps every row-major
/// slot index within `i32`.
pub const MAX_DIM: i32 = 32767;

/// The mathematical value of a [`crate::engine::World`].
#[verifier::ext_equal]
pub ghost struct Board {
    pub width: int,
    pub height: int,
    pub generation: int,
    pub cells: Seq<Cell>,
    pub winds: Seq<Wind>,
}

impl Board {
    /// Shape and bounds every world maintains.
    pub open spec fn wf(self) -> bool {
        &&& 1 <= self.width <= MAX_DIM as int
        &&& 1 <= self.height <= MAX_DIM as int
        &&& self.cells.len() == self.width * self.height
        &&& self.winds.len() == self.width * self.height
        &&& 0 <= self.generation < 255
    }

    pub open spec fn in_bounds(self, x: int, y: int) -> bool {
        0 <= x < self.width && 0 <= y < self.height
    }

    /// The row-major slot index of an in-bounds coordinate.
    pub open spec fn idx(self, x: int, y: int) -> int {
        x + y * self.width
    }
}

/// The two boards agree on everything but the cell contents.
pub open spec fn same_shape(a: Board, b: Board) -> bool {
    &&& b.width == a.width
    &&& b.height == a.height
    &&& b.generation == a.generation
    &&& b.winds == a.winds
    &&& b.cells.len() == a.cells.len()
}

pub proof fn lemma_idx_bounds(b: Board, x: int, y: int)
    requires
        b.wf(),
        b.in_bounds(x, y),
    ensures
        0 <= b.idx(x, y) < b.width * b.height,
{
    assert(0 <= x + y * b.width < b.width * b.height) by (nonlinear_arith)
        requires
            0 <= x < b.width,
            0 <= y < b.height,
    ;
}

pub proof fn lemma_idx_injective(b: Board, x1: int, y1: int, x2: int, y2: int)
    requires
        b.wf(),
        b.in_bounds(x1, y1),
        b.in_bounds(x2, y2),
        b.idx(x1, y1) == b.idx(x2, y2),
    ensures
        x1 == x2 && y1 == y2,
{
    assert(x1 == x2 && y1 == y2) by (nonlinear_arith)
        requires
            0 <= x1 < b.width,
            0 <= x2 < b.width,
            0 <= y1 < b.height,
            0 <= y2 < b.height,
            x1 + y1 * b.width == x2 + y2 * b.width,
    ;
}

/// The values one rule invocation may sample from the generator. A rule
/// that draws fewer values ignores the rest; validity bounds match the
/// ranges of the corresponding sampling helpers.
pub ghost struct Draws {
    /// A three-way direction, as `Api::rand_dir` yields.
    pub dir: int,
    /// A second, independent three-way direction.
    pub dir_b: int,
    /// A two-way direction, as `Api::rand_dir_2` yields.
    pub dir2: int,
    /// A probability gate, as `Api::once_in` yields.
    pub coin: bool,
    /// Water's bias re-randomization amount.
    pub amt_water: int,
    /// Oil's spawned-fire fuel amount.
    pub amt_oil: int,
    /// A unit offset, as `Api::rand_vec` / `Api::rand_vec_8` yield.
    pub vx: int,
    pub vy: int,
}

pub open spec fn draws_ok(d: Draws) -> bool {
    &&& -1 <= d.dir <= 1
    &&& -1 <= d.dir_b <= 1
    &&& (d.dir2 == -1 || d.dir2 == 1)
    &&& 0 <= d.amt_water < 50
    &&& 0 <= d.amt_oil < 30
    &&& -1 <= d.vx <= 1
    &&& -1 <= d.vy <= 1
}

/// All draws a sweep consumes are valid and one is provided per slot.
pub open spec fn draws_seq_ok(ds: Seq<Draws>, n: int) -> bool {
    &&& ds.len() == n
    &&& forall|i: int| 0 <= i < ds.len() ==> draws_ok(#[trigger] ds[i])
}

/// A byte value reduced modulo 256, for the rules' wrapping byte updates.
pub open spec fn wrap8(v: int) -> u8 {
    (((v % 256) + 256) % 256) as u8
}

/// The synthetic solid cell a rule sees beyond the world edge.
pub open spec fn wall_cell(generation: int) -> Cell {
    Cell { species: Species::WALL, ra: 0, rb: 0, clock: generation as u8 }
}

/// A written cell carries the stamp of the running generation: one past
/// the counter, marking the slot as already handled this sweep.
pub open spec fn stamped(c: Cell, generation: int) -> Cell {
    Cell { clock: (generation + 1) as u8, ..c }
}

/// Whether a cell's stamp marks it as already handled under the given
/// generation counter.
pub open spec fn already_stamped(c: Cell, generation: int) -> bool {
    c.clock as int == generation + 1
}

/// What a mediator read at relative offset `(dx, dy)` from `(x, y)` yields:
/// the grid cell in bounds, a generation-stamped Wall beyond the edge.
pub open spec fn model_get(b: Board, x: int, y: int, dx: int, dy: int) -> Cell {
    if b.in_bounds(x + dx, y + dy) {
        b.cells[b.idx(x + dx, y + dy)]
    } else {
        wall_cell(b.generation)
    }
}

/// What a mediator write at relative offset `(dx, dy)` does: stamps and
/// stores the cell in bounds, silently drops the write beyond the edge.
pub open spec fn model_set(b: Board, x: int, y: int, dx: int, dy: int, v: Cell) -> Board {
    if b.in_bounds(x + dx, y + dy) {
        Board { cells: b.cells.update(b.idx(x + dx, y + dy), stamped(v, b.generation)), ..b }
    } else {
        b
    }
}

/// Dust falls into the first empty slot of the row below, trying a random
/// column first, then its right and left; otherwise it stays untouched.
pub open spec fn step_dust(b: Board, x: int, y: int, cell: Cell, d: Draws) -> Board {
    let nb = model_get(b, x, y, d.dir, 1);
    let nbr = model_get(b, x, y, d.dir + 1, 1);
    let nbl = model_get(b, x, y, d.dir - 1, 1);
    if nb.species == Species::EMPT {
        model_set(model_set(b, x, y, d.dir, 1, cell), x, y, 0, 0, empty_cell())
    } else if nbr.species == Species::EMPT {
        model_set(model_set(b, x, y, d.dir + 1, 1, cell), x, y, 0, 0, empty_cell())
    } else if nbl.species == Species::EMPT {
        model_set(model_set(b, x, y, d.dir - 1, 1, cell), x, y, 0, 0, empty_cell())
    } else {
        b
    }
}

/// Sand falls straight down, then tries one random diagonal, then displaces
/// a lighter fluid below, and otherwise re-asserts itself in place.
pub open spec fn step_sand(b: Board, x: int, y: int, cell: Cell, d: Draws) -> Board {
    let below = model_get(b, x, y, 0, 1);
    if below.species == Species::EMPT {
        model_set(model_set(b, x, y, 0, 0, empty_cell()), x, y, 0, 1, cell)
    } else if model_get(b, x, y, d.dir2, 1).species == Species::EMPT {
        model_set(model_set(b, x, y, 0, 0, empty_cell()), x, y, d.dir2, 1, cell)
    } else if below.species == Species::WATR || below.species == Species::GAS || below.species
        == Species::OIL {
        model_set(model_set(b, x, y, 0, 0, below), x, y, 0, 1, cell)
    } else {
        model_set(b, x, y, 0, 0, cell)
    }
}

/// Water falls (displacing Oil), slides diagonally, and otherwise relaxes
/// laterally: a parity bit of `ra` picks the preferred side, a commitment
/// counter in `rb` resists bumping, and a copy of the cell spreads its
/// lateral opinion to a randomly chosen water neighbor.
pub open spec fn step_water(b: Board, x: int, y: int, cell: Cell, d: Draws) -> Board {
    let below = model_get(b, x, y, 0, 1);
    let diag = model_get(b, x, y, d.dir, 1);
    if below.species == Species::EMPT || below.species == Species::OIL {
        let b1 = model_set(b, x, y, 0, 0, below);
        let ra = if d.coin {
            (100 + d.amt_water) as u8
        } else {
            cell.ra
        };
        model_set(b1, x, y, 0, 1, Cell { ra, ..cell })
    } else if diag.species == Species::EMPT || diag.species == Species::OIL {
        model_set(model_set(b, x, y, 0, 0, diag), x, y, d.dir, 1, cell)
    } else if model_get(b, x, y, -d.dir, 1).species == Species::EMPT {
        model_set(model_set(b, x, y, 0, 0, empty_cell()), x, y, -d.dir, 1, cell)
    } else {
        let lx: int = if cell.ra % 2 == 0 {
            1
        } else {
            -1
        };
        let dx0 = model_get(b, x, y, lx, 0);
        let dxd = model_get(b, x, y, 2 * lx, 0);
        if dx0.species == Species::EMPT && dxd.species == Species::EMPT {
            let b1 = model_set(model_set(b, x, y, 0, 0, dxd), x, y, 2 * lx, 0, Cell { rb: 6, ..cell });
            let nbr = model_get(b1, x, y, d.vx, d.vy);
            if nbr.species == Species::WATR && nbr.ra % 2 != cell.ra % 2 {
                model_set(b1, x, y, d.vx, d.vy, cell)
            } else {
                b1
            }
        } else if dx0.species == Species::EMPT || dx0.species == Species::OIL {
            let b1 = model_set(model_set(b, x, y, 0, 0, dx0), x, y, lx, 0, Cell { rb: 3, ..cell });
            let nbr = model_get(b1, x, y, d.vx, d.vy);
            if nbr.species == Species::WATR && nbr.ra % 2 != cell.ra % 2 {
                model_set(b1, x, y, d.vx, d.vy, cell)
            } else {
                b1
            }
        } else if cell.rb == 0 {
            if model_get(b, x, y, -lx, 0).species == Species::EMPT {
                model_set(b, x, y, 0, 0, Cell { ra: wrap8(cell.ra + lx), ..cell })
            } else {
                b
            }
        } else {
            model_set(b, x, y, 0, 0, Cell { rb: (cell.rb - 1) as u8, ..cell })
        }
    }
}

/// The smoke a flame leaves behind when its fuel is exhausted or water
/// douses it: the cell's payload bytes survive the phase change.
pub open spec fn extinguished_smoke(cell: Cell) -> Cell {
    Cell { species: Species::SMKE, ra: cell.ra, rb: cell.rb, clock: 0 }
}

/// Fire decays its fuel by a small random amount, ignites a randomly chosen
/// flammable neighbor, converts to smoke on exhausted fuel or adjacent
/// water, and otherwise drifts into an empty neighbor or burns in place.
pub open spec fn step_fire(b: Board, x: int, y: int, cell: Cell, d: Draws) -> Board {
    let degraded = Cell { ra: wrap8(cell.ra - (2 + d.dir)), ..cell };
    let target = model_get(b, x, y, d.vx, d.vy);
    let b1 = if target.species == Species::GAS || target.species == Species::DUST {
        model_set(
            b,
            x,
            y,
            d.vx,
            d.vy,
            Cell { species: Species::FIRE, ra: (150 + (d.vx + d.vy) * 10) as u8, rb: 0, clock: 0 },
        )
    } else {
        b
    };
    let after = model_get(b1, x, y, d.vx, d.vy);
    if cell.ra < 5 || after.species == Species::WATR {
        model_set(b1, x, y, 0, 0, extinguished_smoke(cell))
    } else if after.species == Species::EMPT {
        model_set(model_set(b1, x, y, 0, 0, empty_cell()), x, y, d.vx, d.vy, degraded)
    } else {
        model_set(b1, x, y, 0, 0, degraded)
    }
}

/// What fire leaves in the transient turbulence field: a buoyancy pulse at
/// the origin on every step, overwritten by the stronger ignition pulse
/// when the sampled neighbor catches.
pub open spec fn step_fire_burns(
    b: Board,
    x: int,
    y: int,
    d: Draws,
    burns: Seq<Wind>,
) -> Seq<Wind> {
    let target = model_get(b, x, y, d.vx, d.vy);
    if target.species == Species::GAS || target.species == Species::DUST {
        burns.update(b.idx(x, y), Wind { dx: 0, dy: 0, pressure: 80, density: 40 })
    } else {
        burns.update(b.idx(x, y), Wind { dx: 0, dy: 150, pressure: 1, density: 120 })
    }
}

/// Smoke drifts one row up with random lateral jitter into an empty slot,
/// and expires once its stamp is old enough.
pub open spec fn step_smoke(b: Board, x: int, y: int, cell: Cell, d: Draws) -> Board {
    let nu = model_get(b, x, y, d.dir, -1);
    let b1 = if nu.species == Species::EMPT {
        model_set(model_set(b, x, y, d.dir, -1, cell), x, y, 0, 0, empty_cell())
    } else {
        b
    };
    if cell.clock > 100 {
        model_set(b1, x, y, 0, 0, empty_cell())
    } else {
        b1
    }
}

/// A dead Life cell.
pub open spec fn gol_dead() -> Cell {
    Cell { species: Species::GOL, ra: 0, rb: 0, clock: 0 }
}

/// A live Life cell.
pub open spec fn gol_alive() -> Cell {
    Cell { species: Species::GOL, ra: 0, rb: 1, clock: 0 }
}

/// Whether the cell at the given relative offset is a live Life cell.
pub open spec fn gol_alive_at(b: Board, x: int, y: int, dx: int, dy: int) -> bool {
    let c = model_get(b, x, y, dx, dy);
    c.species == Species::GOL && c.rb == 1
}

/// The number of live Life cells among the eight neighbors.
pub open spec fn gol_neighbors(b: Board, x: int, y: int) -> int {
    (if gol_alive_at(b, x, y, 0, 1) {
        1int
    } else {
        0int
    }) + (if gol_alive_at(b, x, y, 0, -1) {
        1int
    } else {
        0int
    }) + (if gol_alive_at(b, x, y, 1, 0) {
        1int
    } else {
        0int
    }) + (if gol_alive_at(b, x, y, -1, 0) {
        1int
    } else {
        0int
    }) + (if gol_alive_at(b, x, y, 1, -1) {
        1int
    } else {
        0int
    }) + (if gol_alive_at(b, x, y, 1, 1) {
        1int
    } else {
        0int
    }) + (if gol_alive_at(b, x, y, -1, 1) {
        1int
    } else {
        0int
    }) + (if gol_alive_at(b, x, y, -1, -1) {
        1int
    } else {
        0int
    })
}

/// The standard Life rule on the live-neighbor count: survival on two or
/// three, birth on exactly three.
pub open spec fn step_gol(b: Board, x: int, y: int, cell: Cell, d: Draws) -> Board {
    let n = gol_neighbors(b, x, y);
    if cell.rb == 1 {
        if n < 2 || n > 3 {
            model_set(b, x, y, 0, 0, gol_dead())
        } else {
            model_set(b, x, y, 0, 0, gol_alive())
        }
    } else {
        if n == 3 {
            model_set(b, x, y, 0, 0, gol_alive())
        } else {
            model_set(b, x, y, 0, 0, gol_dead())
        }
    }
}

/// Wood is static: it re-writes itself unchanged (refreshing its stamp).
pub open spec fn step_wood(b: Board, x: int, y: int, cell: Cell, d: Draws) -> Board {
    model_set(b, x, y, 0, 0, cell)
}

/// The burn-countdown state oil takes when ignited.
pub open spec fn oil_ignited(cell: Cell) -> Cell {
    Cell { species: Species::OIL, ra: cell.ra, rb: 50, clock: 0 }
}

/// Oil's liquid movement: down, then the sampled diagonal and its mirror,
/// then the sampled side and its mirror, else it re-asserts itself.
pub open spec fn oil_move(b: Board, x: int, y: int, nc: Cell, d: Draws) -> Board {
    if model_get(b, x, y, 0, 1).species == Species::EMPT {
        model_set(model_set(b, x, y, 0, 0, empty_cell()), x, y, 0, 1, nc)
    } else if model_get(b, x, y, d.vx, 1).species == Species::EMPT {
        model_set(model_set(b, x, y, 0, 0, empty_cell()), x, y, d.vx, 1, nc)
    } else if model_get(b, x, y, -d.vx, 1).species == Species::EMPT {
        model_set(model_set(b, x, y, 0, 0, empty_cell()), x, y, -d.vx, 1, nc)
    } else if model_get(b, x, y, d.vx, 0).species == Species::EMPT {
        model_set(model_set(b, x, y, 0, 0, empty_cell()), x, y, d.vx, 0, nc)
    } else if model_get(b, x, y, -d.vx, 0).species == Species::EMPT {
        model_set(model_set(b, x, y, 0, 0, empty_cell()), x, y, -d.vx, 0, nc)
    } else {
        model_set(b, x, y, 0, 0, nc)
    }
}

/// Oil ignites from an adjacent flame or burning oil, counts its burn down
/// in `rb` (spawning fire into a sampled empty neighbor, quenched to a
/// fresh state by water), expires to an empty residue at the end of the
/// countdown, and otherwise moves as a liquid.
pub open spec fn step_oil(b: Board, x: int, y: int, cell: Cell, d: Draws) -> Board {
    let nbr = model_get(b, x, y, d.vx, d.vy);
    let ignited = if (cell.rb == 0 && nbr.species == Species::FIRE) || (nbr.species == Species::OIL
        && nbr.rb > 1 && nbr.rb < 20) {
        oil_ignited(cell)
    } else {
        cell
    };
    if cell.rb > 1 {
        let burning = if nbr.species == Species::WATR {
            Cell { species: Species::OIL, ra: 50, rb: 0, clock: 0 }
        } else {
            Cell { species: Species::OIL, ra: cell.ra, rb: (cell.rb - 1) as u8, clock: 0 }
        };
        let b1 = if cell.rb % 4 != 0 && nbr.species == Species::EMPT {
            model_set(
                b,
                x,
                y,
                d.vx,
                d.vy,
                Cell { species: Species::FIRE, ra: (20 + d.amt_oil) as u8, rb: 0, clock: 0 },
            )
        } else {
            b
        };
        oil_move(b1, x, y, burning, d)
    } else if cell.rb == 1 {
        model_set(b, x, y, 0, 0, Cell { species: Species::EMPT, ra: cell.ra, rb: 90, clock: 0 })
    } else {
        oil_move(b, x, y, ignited, d)
    }
}

/// Oxygen drifts into a randomly sampled empty neighbor.
pub open spec fn step_oxygen(b: Board, x: int, y: int, cell: Cell, d: Draws) -> Board {
    let nu = model_get(b, x, y, d.dir, d.dir_b);
    if nu.species == Species::EMPT {
        model_set(model_set(b, x, y, d.dir, d.dir_b, cell), x, y, 0, 0, empty_cell())
    } else {
        b
    }
}

/// The water produced by the oxygen–hydrogen combination.
pub open spec fn reaction_water() -> Cell {
    Cell { species: Species::WATR, ra: 0, rb: 0, clock: 0 }
}

/// Hydrogen drifts like oxygen; afterwards it tests one sampled offset
/// (not the eight distinct neighbors: every direction check re-reads the
/// same sampled slot) and, on finding oxygen there, combines: the oxygen
/// slot becomes water and this cell becomes empty.
pub open spec fn step_hydrogen(b: Board, x: int, y: int, cell: Cell, d: Draws) -> Board {
    let nu = model_get(b, x, y, d.dir, d.dir_b);
    let b1 = if nu.species == Species::EMPT {
        model_set(model_set(b, x, y, d.dir, d.dir_b, cell), x, y, 0, 0, empty_cell())
    } else {
        b
    };
    let t = model_get(b1, x, y, d.dir, d.dir_b);
    if t.species == Species::OXGN {
        model_set(model_set(b1, x, y, d.dir, d.dir_b, reaction_water()), x, y, 0, 0, empty_cell())
    } else {
        b1
    }
}

/// One rule invocation: the dispatch on the cell's species.
pub open spec fn step_cell(b: Board, x: int, y: int, cell: Cell, d: Draws) -> Board {
    match cell.species {
        Species::EMPT => b,
        Species::WALL => b,
        Species::GAS => b,
        Species::DUST => step_dust(b, x, y, cell, d),
        Species::SAND => step_sand(b, x, y, cell, d),
        Species::WATR => step_water(b, x, y, cell, d),
        Species::OIL => step_oil(b, x, y, cell, d),
        Species::FIRE => step_fire(b, x, y, cell, d),
        Species::SMKE => step_smoke(b, x, y, cell, d),
        Species::GOL => step_gol(b, x, y, cell, d),
        Species::WOOD => step_wood(b, x, y, cell, d),
        Species::OXGN => step_oxygen(b, x, y, cell, d),
        Species::HYGN => step_hydrogen(b, x, y, cell, d),
    }
}

/// One scheduler visit: skip the slot if its stamp marks it as already
/// handled this sweep, otherwise run its rule.
pub open spec fn visit_model(b: Board, x: int, y: int, d: Draws) -> Board {
    let c = b.cells[b.idx(x, y)];
    if already_stamped(c, b.generation) {
        b
    } else {
        step_cell(b, x, y, c, d)
    }
}

/// The physical column the sweep's `x`-th column maps to: the scan
/// direction alternates with the generation's parity.
pub open spec fn scan_col(g: int, w: int, x: int) -> int {
    if g % 2 == 0 {
        w - 1 - x
    } else {
        x
    }
}

/// The board after the sweep has processed columns `0..x` completely and
/// then rows `0..y` of column `x`, drawing `ds[x * h + row]` at each visit.
pub open spec fn sweep_upto(b: Board, ds: Seq<Draws>, w: int, h: int, g: int, x: int, y: int) -> Board
    decreases x, y,
{
    if y <= 0 {
        if x <= 0 {
            b
        } else {
            sweep_upto(b, ds, w, h, g, x - 1, h)
        }
    } else {
        visit_model(sweep_upto(b, ds, w, h, g, x, y - 1), scan_col(g, w, x), y - 1, ds[x * h + (y - 1)])
    }
}

/// The wrapping advance of the generation counter.
pub open spec fn next_gen(g: int) -> int {
    (g + 1) % 255
}

/// One whole tick: bump the generation, sweep every slot in the
/// alternating scan order, bump the generation again.
pub open spec fn tick_model(b: Board, ds: Seq<Draws>) -> Board {
    let g = next_gen(b.generation);
    let b0 = Board { generation: g, ..b };
    let b1 = sweep_upto(b0, ds, b.width, b.height, g, b.width, 0);
    Board { generation: next_gen(g), ..b1 }
}

/// The ambient-flow threshold of a species: how strong the wind must be
/// to carry it.
pub open spec fn wind_threshold(s: Species) -> int {
    match s {
        Species::EMPT => 500,
        Species::WALL => 500,
        Species::GOL => 500,
        Species::OIL => 50,
        Species::WATR => 50,
        Species::SAND => 30,
        Species::DUST => 10,
        Species::FIRE => 5,
        Species::GAS => 5,
        _ => 40,
    }
}

/// The species the wind sweep may lift two rows at once.
pub open spec fn wind_carried(s: Species) -> bool {
    ||| s == Species::SAND
    ||| s == Species::WATR
    ||| s == Species::DUST
    ||| s == Species::OIL
    ||| s == Species::GOL
}

/// One wind-sweep visit: an unstamped, non-empty cell whose species'
/// threshold the ambient flow exceeds is pushed one cell along the flow
/// (two rows when lifted and the slot above is free too).
pub open spec fn blow_wind_model(b: Board, cell: Cell, wind: Wind, x: int, y: int) -> Board {
    if already_stamped(cell, b.generation) {
        b
    } else if cell.species == Species::EMPT {
        b
    } else {
        let threshold = wind_threshold(cell.species);
        let wx = wind.dy as int - 126;
        let wy = wind.dx as int - 126;
        let dx: int = if wx > threshold {
            1
        } else if wx < -threshold {
            -1
        } else {
            0
        };
        let dy: int = if wy > threshold {
            1
        } else if wy < -threshold {
            -1
        } else {
            0
        };
        if (dx != 0 || dy != 0) && model_get(b, x, y, dx, dy).species == Species::EMPT {
            let b1 = model_set(b, x, y, 0, 0, empty_cell());
            let dy2: int = if dy == -1 && model_get(b1, x, y, dx, -2).species == Species::EMPT
                && wind_carried(cell.species) {
                -2
            } else {
                dy
            };
            model_set(b1, x, y, dx, dy2, cell)
        } else {
            b
        }
    }
}

/// A mediator write keeps the board's shape and well-formedness.
pub broadcast proof fn lemma_model_set_shape(b: Board, x: int, y: int, dx: int, dy: int, v: Cell)
    ensures
        b.wf() ==> same_shape(b, #[trigger] model_set(b, x, y, dx, dy, v)) && model_set(
            b,
            x,
            y,
            dx,
            dy,
            v,
        ).wf(),
{
    if b.wf() && b.in_bounds(x + dx, y + dy) {
        lemma_idx_bounds(b, x + dx, y + dy);
    }
}

pub proof fn lemma_step_shape(b: Board, x: int, y: int, cell: Cell, d: Draws)
    requires
        b.wf(),
    ensures
        same_shape(b, step_cell(b, x, y, cell, d)),
        step_cell(b, x, y, cell, d).wf(),
{
    broadcast use lemma_model_set_shape;

    match cell.species {
        Species::EMPT => {},
        Species::WALL => {},
        Species::GAS => {},
        Species::DUST => assert(same_shape(b, step_dust(b, x, y, cell, d))),
        Species::SAND => assert(same_shape(b, step_sand(b, x, y, cell, d))),
        Species::WATR => assert(same_shape(b, step_water(b, x, y, cell, d))),
        Species::OIL => assert(same_shape(b, step_oil(b, x, y, cell, d))),
        Species::FIRE => assert(same_shape(b, step_fire(b, x, y, cell, d))),
        Species::SMKE => assert(same_shape(b, step_smoke(b, x, y, cell, d))),
        Species::GOL => assert(same_shape(b, step_gol(b, x, y, cell, d))),
        Species::WOOD => assert(same_shape(b, step_wood(b, x, y, cell, d))),
        Species::OXGN => assert(same_shape(b, step_oxygen(b, x, y, cell, d))),
        Species::HYGN => assert(same_shape(b, step_hydrogen(b, x, y, cell, d))),
    }
}

pub proof fn lemma_visit_shape(b: Board, x: int, y: int, d: Draws)
    requires
        b.wf(),
    ensures
        same_shape(b, visit_model(b, x, y, d)),
        visit_model(b, x, y, d).wf(),
{
    if !already_stamped(b.cells[b.idx(x, y)], b.generation) {
        lemma_step_shape(b, x, y, b.cells[b.idx(x, y)], d);
    }
}

/// The sweep only reads the draws of the visits it has made: two draw
/// sequences that agree on that prefix drive it to the same board.
pub proof fn lemma_sweep_prefix(
    b: Board,
    ds1: Seq<Draws>,
    ds2: Seq<Draws>,
    w: int,
    h: int,
    g: int,
    x: int,
    y: int,
)
    requires
        0 <= y <= h,
        0 <= x,
        1 <= h,
        forall|i: int| 0 <= i < x * h + y ==> ds1[i] == ds2[i],
    ensures
        sweep_upto(b, ds1, w, h, g, x, y) == sweep_upto(b, ds2, w, h, g, x, y),
    decreases x, y,
{
    if y <= 0 {
        if x > 0 {
            assert((x - 1) * h + h == x * h) by (nonlinear_arith);
            lemma_sweep_prefix(b, ds1, ds2, w, h, g, x - 1, h);
        }
    } else {
        lemma_sweep_prefix(b, ds1, ds2, w, h, g, x, y - 1);
        assert(0 <= x * h) by (nonlinear_arith)
            requires
                0 <= x,
                1 <= h,
        ;
        assert(ds1[x * h + (y - 1)] == ds2[x * h + (y - 1)]);
    }
}

/// A board holding only inert cells: Empty and Wall.
pub open spec fn inert(b: Board) -> bool {
    forall|i: int| 0 <= i < b.cells.len() ==> (#[trigger] b.cells[i]).species == Species::EMPT
        || b.cells[i].species == Species::WALL
}

} // verus!
