//! The world: grid storage, the bounded neighbor mediator, and the tick
//! scheduler.

use vstd::prelude::*;

use crate::laws::lemma_tick_inert;
use crate::model::{
    blow_wind_model, draws_ok, draws_seq_ok, inert, lemma_idx_bounds, lemma_sweep_prefix,
    lemma_visit_shape, model_get, model_set, next_gen, scan_col, sweep_upto, tick_model,
    visit_model, Board, Draws, MAX_DIM,
};
use crate::species::{empty_cell, Cell, Species, Wind};

verus! {

#[verifier::external_type_specification]
#[verifier::external_body]
/// The seedable generator all randomness flows through, one per world.
pub struct ExSplitMix64(rand_xoshiro::SplitMix64);

/// Relies on `rand_xoshiro::SplitMix64::seed_from_u64`: builds a generator
/// from a 64-bit seed.
#[verifier::external_body]
fn rng_from_seed(seed: u64) -> rand_xoshiro::SplitMix64 {
    <rand_xoshiro::SplitMix64 as rand::SeedableRng>::seed_from_u64(seed)
}

/// Relies on `rand::Rng::gen_range` over `0..n`: the sample lies in
/// `[0, n)`. The range is nonempty, so the call cannot panic.
#[verifier::external_body]
fn rng_below(rng: &mut rand_xoshiro::SplitMix64, n: i32) -> (r: i32)
    requires
        n >= 1,
    ensures
        0 <= r < n,
{
    rand::Rng::gen_range(rng, 0..n)
}

/// The default grid dimensions used by [`Engine::new`].
pub const DEFAULT_WIDTH: i32 = 300;

pub const DEFAULT_HEIGHT: i32 = 200;

/// The seed every world starts from, for reproducible simulations.
pub const WORLD_SEED: u64 = 0x734f6b89de5f83cc;

/// The single owner of all cell memory: the grid, the ambient wind field,
/// the transient turbulence field, the generation counter and the seeded
/// generator.
pub struct World {
    width: i32,
    height: i32,
    cells: Vec<Cell>,
    winds: Vec<Wind>,
    burns: Vec<Wind>,
    generation: u8,
    rng: rand_xoshiro::SplitMix64,
}

impl View for World {
    type V = Board;

    closed spec fn view(&self) -> Board {
        Board {
            width: self.width as int,
            height: self.height as int,
            generation: self.generation as int,
            cells: self.cells@,
            winds: self.winds@,
        }
    }
}

impl World {
    /// The transient turbulence field, written by Fire and Oil and reset by
    /// the sweep at every visit.
    pub closed spec fn burns_view(self) -> Seq<Wind> {
        self.burns@
    }

    pub open spec fn wf(self) -> bool {
        self@.wf() && self.burns_view().len() == self@.width * self@.height
    }
}

/// The generator state is no part of a world's value: a call that only
/// draws from it leaves the world unchanged.
pub open spec fn rng_only(pre: World, post: World) -> bool {
    post@ == pre@ && post.burns_view() == pre.burns_view()
}

impl World {
    /// A world of the given dimensions, all cells empty, the wind field
    /// calm and the generator freshly seeded.
    pub fn new(width: i32, height: i32) -> (w: World)
        requires
            1 <= width <= MAX_DIM,
            1 <= height <= MAX_DIM,
        ensures
            w.wf(),
            w@.width == width as int,
            w@.height == height as int,
            w@.generation == 0,
            forall|i: int| 0 <= i < w@.cells.len() ==> w@.cells[i] == empty_cell(),
            forall|i: int|
                0 <= i < w@.winds.len() ==> w@.winds[i] == (Wind {
                    dx: 0,
                    dy: 0,
                    pressure: 100,
                    density: 0,
                }),
    {
        proof {
            assert(1 <= width * height <= 32767 * 32767) by (nonlinear_arith)
                requires
                    1 <= width <= 32767,
                    1 <= height <= 32767,
            ;
        }
        let n: usize = (width as usize) * (height as usize);
        let mut cells: Vec<Cell> = Vec::new();
        let mut winds: Vec<Wind> = Vec::new();
        let mut burns: Vec<Wind> = Vec::new();
        let mut i: usize = 0;
        while i < n
            invariant
                i <= n,
                cells.len() == i,
                winds.len() == i,
                burns.len() == i,
                forall|j: int| 0 <= j < i ==> cells@[j] == empty_cell(),
                forall|j: int|
                    0 <= j < i ==> winds@[j] == (Wind { dx: 0, dy: 0, pressure: 100, density: 0 }),
            decreases n - i,
        {
            cells.push(Cell::empty());
            winds.push(Wind { dx: 0, dy: 0, pressure: 100, density: 0 });
            burns.push(Wind { dx: 0, dy: 0, pressure: 0, density: 0 });
            i += 1;
        }
        World { width, height, cells, winds, burns, generation: 0, rng: rng_from_seed(WORLD_SEED) }
    }

    pub fn width(&self) -> (r: i32)
        ensures
            r as int == self@.width,
    {
        self.width
    }

    pub fn height(&self) -> (r: i32)
        ensures
            r as int == self@.height,
    {
        self.height
    }

    pub fn generation(&self) -> (r: u8)
        ensures
            r as int == self@.generation,
    {
        self.generation
    }

    /// The row-major slot index of an in-bounds coordinate. Indices must
    /// not be carried across worlds of different dimensions.
    pub fn get_index(&self, x: i32, y: i32) -> (i: usize)
        requires
            self.wf(),
            self@.in_bounds(x as int, y as int),
        ensures
            i as int == self@.idx(x as int, y as int),
            i < self@.cells.len(),
    {
        proof {
            lemma_idx_bounds(self@, x as int, y as int);
            assert(y * self.width <= 32766 * 32767) by (nonlinear_arith)
                requires
                    0 <= y < self.height,
                    self.height <= 32767,
                    1 <= self.width <= 32767,
            ;
        }
        (x + y * self.width) as usize
    }

    /// The cell at an in-bounds coordinate.
    fn get_cell(&self, x: i32, y: i32) -> (c: Cell)
        requires
            self.wf(),
            self@.in_bounds(x as int, y as int),
        ensures
            c == self@.cells[self@.idx(x as int, y as int)],
    {
        let i = self.get_index(x, y);
        self.cells[i]
    }

    /// A read-only query for any coordinate: out of range resolves to the
    /// canonical empty cell, never an error.
    pub fn get(&self, x: usize, y: usize) -> (c: Cell)
        requires
            self.wf(),
        ensures
            c == if self@.in_bounds(x as int, y as int) {
                self@.cells[self@.idx(x as int, y as int)]
            } else {
                empty_cell()
            },
    {
        if x >= self.width as usize || y >= self.height as usize {
            Cell::empty()
        } else {
            self.get_cell(x as i32, y as i32)
        }
    }

    /// True only for in-range Empty cells: out of range is never free.
    pub fn is_free(&self, x: usize, y: usize) -> (r: bool)
        requires
            self.wf(),
        ensures
            r == (self@.in_bounds(x as int, y as int) && self@.cells[self@.idx(
                x as int,
                y as int,
            )].species == Species::EMPT),
    {
        if x >= self.width as usize || y >= self.height as usize {
            false
        } else {
            self.get_cell(x as i32, y as i32).species == Species::EMPT
        }
    }

    /// Store a cell at a coordinate, unstamped: the painting entry point.
    /// Out of range is a silent no-op.
    pub fn set(&mut self, x: usize, y: usize, cell: Cell)
        requires
            old(self).wf(),
        ensures
            final(self).wf(),
            final(self)@.width == old(self)@.width,
            final(self)@.height == old(self)@.height,
            final(self)@.generation == old(self)@.generation,
            final(self)@.winds == old(self)@.winds,
            final(self).burns_view() == old(self).burns_view(),
            final(self)@.cells == if old(self)@.in_bounds(x as int, y as int) {
                old(self)@.cells.update(old(self)@.idx(x as int, y as int), cell)
            } else {
                old(self)@.cells
            },
    {
        if x < self.width as usize && y < self.height as usize {
            let i = self.get_index(x as i32, y as i32);
            self.cells.set(i, cell);
        }
    }

    /// Reset every cell to the canonical empty value.
    pub fn clear(&mut self)
        requires
            old(self).wf(),
        ensures
            final(self).wf(),
            final(self)@.width == old(self)@.width,
            final(self)@.height == old(self)@.height,
            final(self)@.generation == old(self)@.generation,
            final(self)@.winds == old(self)@.winds,
            final(self).burns_view() == old(self).burns_view(),
            final(self)@.cells.len() == old(self)@.cells.len(),
            forall|i: int| 0 <= i < final(self)@.cells.len() ==> final(self)@.cells[i] == empty_cell(),
    {
        let n = self.cells.len();
        let mut cells: Vec<Cell> = Vec::new();
        let mut i: usize = 0;
        while i < n
            invariant
                i <= n,
                cells.len() == i,
                forall|j: int| 0 <= j < i ==> cells@[j] == empty_cell(),
            decreases n - i,
        {
            cells.push(Cell::empty());
            i += 1;
        }
        self.cells = cells;
    }

    /// The ambient wind at an in-bounds coordinate.
    fn get_wind(&self, x: i32, y: i32) -> (r: Wind)
        requires
            self.wf(),
            self@.in_bounds(x as int, y as int),
        ensures
            r == self@.winds[self@.idx(x as int, y as int)],
    {
        let i = self.get_index(x, y);
        self.winds[i]
    }

    /// A freshly spawned cell whose bias byte is drawn from the world's
    /// seeded generator, so painted particles vary reproducibly.
    pub fn new_cell(&mut self, species: Species) -> (c: Cell)
        ensures
            rng_only(*old(self), *final(self)),
            c.species == species,
            c.clock == 0,
            c.rb == (if species == Species::GOL { 1u8 } else { 0u8 }),
            c.ra == 100 || c.ra == 150,
    {
        let coin = rng_below(&mut self.rng, 2);
        let ra: u8 = if coin == 0 { 100 } else { 150 };
        let rb: u8 = if species == Species::GOL { 1 } else { 0 };
        proof {
            assert(self@ =~= old(self)@);
        }
        Cell { species, ra, rb, clock: 0 }
    }
}

/// The bounded neighbor mediator: a short-lived handle binding one grid
/// position for the duration of a single rule invocation. Rules touch the
/// grid exclusively through it, and only within the `[-2, 2]` neighborhood.
pub struct Api {
    pub x: i32,
    pub y: i32,
}

/// The mediator's origin lies on the grid.
pub open spec fn api_ok(api: Api, b: Board) -> bool {
    b.in_bounds(api.x as int, api.y as int)
}

impl Api {
    /// Read the cell at a relative offset. Offsets beyond the edge of the
    /// grid resolve to a synthetic Wall stamped with the current
    /// generation, so world edges behave as solid boundaries, never empty.
    pub fn get(&self, world: &World, dx: i32, dy: i32) -> (r: Cell)
        requires
            world.wf(),
            api_ok(*self, world@),
            -2 <= dx <= 2,
            -2 <= dy <= 2,
        ensures
            r == model_get(world@, self.x as int, self.y as int, dx as int, dy as int),
            !world@.in_bounds(self.x as int + dx as int, self.y as int + dy as int) ==> r.species
                == Species::WALL,
    {
        let nx = self.x + dx;
        let ny = self.y + dy;
        if nx < 0 || nx > world.width - 1 || ny < 0 || ny > world.height - 1 {
            Cell { species: Species::WALL, ra: 0, rb: 0, clock: world.generation }
        } else {
            world.get_cell(nx, ny)
        }
    }

    /// Write a cell at a relative offset, stamping its clock with one past
    /// the current generation so the sweep skips the slot for the rest of
    /// this tick. Writes beyond the edge are silently dropped.
    pub fn set(&self, world: &mut World, dx: i32, dy: i32, v: Cell)
        requires
            old(world).wf(),
            api_ok(*self, old(world)@),
            -2 <= dx <= 2,
            -2 <= dy <= 2,
        ensures
            final(world).wf(),
            final(world)@ == model_set(
                old(world)@,
                self.x as int,
                self.y as int,
                dx as int,
                dy as int,
                v,
            ),
            final(world).burns_view() == old(world).burns_view(),
    {
        let nx = self.x + dx;
        let ny = self.y + dy;
        if nx < 0 || nx > world.width - 1 || ny < 0 || ny > world.height - 1 {
            proof {
                assert(world@ =~= model_set(
                    old(world)@,
                    self.x as int,
                    self.y as int,
                    dx as int,
                    dy as int,
                    v,
                ));
            }
        } else {
            let i = world.get_index(nx, ny);
            let c = Cell { clock: world.generation + 1, ..v };
            world.cells.set(i, c);
            proof {
                assert(world@ =~= model_set(
                    old(world)@,
                    self.x as int,
                    self.y as int,
                    dx as int,
                    dy as int,
                    v,
                ));
            }
        }
    }

    /// A sample in `[0, n)` from the world's seeded generator.
    pub fn rand_int(&self, world: &mut World, n: i32) -> (r: i32)
        requires
            n >= 1,
        ensures
            rng_only(*old(world), *final(world)),
            0 <= r < n,
    {
        let r = rng_below(&mut world.rng, n);
        proof {
            assert(world@ =~= old(world)@);
        }
        r
    }

    /// A three-way direction: -1, 0 or 1.
    pub fn rand_dir(&self, world: &mut World) -> (r: i32)
        ensures
            rng_only(*old(world), *final(world)),
            -1 <= r <= 1,
    {
        let i = self.rand_int(world, 1000);
        (i % 3) - 1
    }

    /// A two-way direction: -1 or 1.
    pub fn rand_dir_2(&self, world: &mut World) -> (r: i32)
        ensures
            rng_only(*old(world), *final(world)),
            r == -1 || r == 1,
    {
        let i = self.rand_int(world, 100);
        if (i % 2) == 0 {
            -1
        } else {
            1
        }
    }

    /// True with probability `1/n`; a one-in-one gate always fires.
    pub fn once_in(&self, world: &mut World, n: i32) -> (r: bool)
        requires
            n >= 1,
        ensures
            rng_only(*old(world), *final(world)),
            n == 1 ==> r,
    {
        self.rand_int(world, n) == 0
    }

    /// One of the nine unit offsets, the origin included.
    pub fn rand_vec(&self, world: &mut World) -> (r: (i32, i32))
        ensures
            rng_only(*old(world), *final(world)),
            -1 <= r.0 <= 1,
            -1 <= r.1 <= 1,
    {
        let i = self.rand_int(world, 2000);
        match i % 9 {
            0 => (1, 1),
            1 => (1, 0),
            2 => (1, -1),
            3 => (0, -1),
            4 => (-1, -1),
            5 => (-1, 0),
            6 => (-1, 1),
            7 => (0, 1),
            _ => (0, 0),
        }
    }

    /// One of the eight unit offsets, the origin excluded.
    pub fn rand_vec_8(&self, world: &mut World) -> (r: (i32, i32))
        ensures
            rng_only(*old(world), *final(world)),
            -1 <= r.0 <= 1,
            -1 <= r.1 <= 1,
            !(r.0 == 0 && r.1 == 0),
    {
        let i = self.rand_int(world, 8);
        match i {
            0 => (1, 1),
            1 => (1, 0),
            2 => (1, -1),
            3 => (0, -1),
            4 => (-1, -1),
            5 => (-1, 0),
            6 => (-1, 1),
            _ => (0, 1),
        }
    }

    /// The ambient wind at the origin.
    pub fn get_fluid(&self, world: &World) -> (r: Wind)
        requires
            world.wf(),
            api_ok(*self, world@),
        ensures
            r == world@.winds[world@.idx(self.x as int, self.y as int)],
    {
        world.get_wind(self.x, self.y)
    }

    /// Write a turbulence sample at the origin, consumed by the wind sweep.
    pub fn set_fluid(&self, world: &mut World, v: Wind)
        requires
            old(world).wf(),
            api_ok(*self, old(world)@),
        ensures
            final(world).wf(),
            final(world)@ == old(world)@,
            final(world).burns_view() == old(world).burns_view().update(
                old(world)@.idx(self.x as int, self.y as int),
                v,
            ),
    {
        let i = world.get_index(self.x, self.y);
        world.burns.set(i, v);
        proof {
            assert(world@ =~= old(world)@);
            assert(world.burns_view() =~= old(world).burns_view().update(
                old(world)@.idx(self.x as int, self.y as int),
                v,
            ));
        }
    }
}

impl World {
    /// One wind-sweep visit: push an unstamped, non-empty cell along the
    /// ambient flow when it exceeds the species' threshold.
    pub fn blow_wind(cell: Cell, wind: Wind, world: &mut World, api: Api)
        requires
            old(world).wf(),
            api_ok(api, old(world)@),
        ensures
            final(world).wf(),
            final(world).burns_view() == old(world).burns_view(),
            final(world)@ == blow_wind_model(old(world)@, cell, wind, api.x as int, api.y as int),
    {
        if cell.clock == world.generation + 1 {
            return ;
        }
        if cell.species == Species::EMPT {
            return ;
        }
        let threshold: i32 = match cell.species {
            Species::EMPT => 500,
            Species::WALL => 500,
            Species::GOL => 500,
            Species::OIL => 50,
            Species::WATR => 50,
            Species::SAND => 30,
            Species::DUST => 10,
            Species::FIRE => 5,
            Species::GAS => 5,
            _ => 40,
        };
        let wx = wind.dy as i32 - 126;
        let wy = wind.dx as i32 - 126;
        let mut dx: i32 = 0;
        let mut dy: i32 = 0;
        if wx > threshold {
            dx = 1;
        }
        if wy > threshold {
            dy = 1;
        }
        if wx < -threshold {
            dx = -1;
        }
        if wy < -threshold {
            dy = -1;
        }
        if (dx != 0 || dy != 0) && api.get(world, dx, dy).species == Species::EMPT {
            api.set(world, 0, 0, Cell::empty());
            if dy == -1 && api.get(world, dx, -2).species == Species::EMPT && (cell.species
                == Species::SAND || cell.species == Species::WATR || cell.species == Species::DUST
                || cell.species == Species::OIL || cell.species == Species::GOL) {
                dy = -2;
            }
            api.set(world, dx, dy, cell);
        }
        proof {
            assert(world@ =~= blow_wind_model(
                old(world)@,
                cell,
                wind,
                api.x as int,
                api.y as int,
            ));
        }
    }

    /// One scheduler visit: skip the cell when its stamp marks it as
    /// already handled this sweep, otherwise run its rule.
    fn update_cell(cell: Cell, world: &mut World, api: Api)
        requires
            old(world).wf(),
            api_ok(api, old(world)@),
            cell == old(world)@.cells[old(world)@.idx(api.x as int, api.y as int)],
        ensures
            final(world).wf(),
            final(world).burns_view().len() == old(world).burns_view().len(),
            exists|d: Draws|
                draws_ok(d) && final(world)@ == visit_model(
                    old(world)@,
                    api.x as int,
                    api.y as int,
                    d,
                ),
    {
        if cell.clock == world.generation + 1 {
            proof {
                let d = Draws {
                    dir: 0,
                    dir_b: 0,
                    dir2: 1,
                    coin: false,
                    amt_water: 0,
                    amt_oil: 0,
                    vx: 0,
                    vy: 1,
                };
                assert(draws_ok(d) && world@ == visit_model(
                    old(world)@,
                    api.x as int,
                    api.y as int,
                    d,
                ));
            }
            return ;
        }
        cell.update(world, api);
    }

    /// Advance the simulation by exactly one tick: bump the generation,
    /// sweep every column (the scan direction alternating with the
    /// generation's parity) top to bottom, bump the generation again.
    pub fn tick(&mut self)
        requires
            old(self).wf(),
        ensures
            final(self).wf(),
            final(self)@.width == old(self)@.width,
            final(self)@.height == old(self)@.height,
            final(self)@.generation == next_gen(next_gen(old(self)@.generation)),
            exists|ds: Seq<Draws>|
                draws_seq_ok(ds, old(self)@.width * old(self)@.height) && final(self)@
                    == tick_model(old(self)@, ds),
            inert(old(self)@) ==> final(self)@.cells == old(self)@.cells && inert(final(self)@),
    {
        self.generation = (self.generation + 1) % 255;
        let g = self.generation;
        let w = self.width;
        let h = self.height;
        let ghost b0 = self@;
        let ghost mut ds: Seq<Draws> = Seq::empty();
        proof {
            assert(b0 =~= (Board { generation: g as int, ..old(self)@ }));
            assert(sweep_upto(b0, ds, w as int, h as int, g as int, 0, 0) == b0);
        }
        let mut x: i32 = 0;
        while x < w
            invariant
                0 <= x <= w,
                self.wf(),
                1 <= w <= MAX_DIM,
                1 <= h <= MAX_DIM,
                self@.width == w as int,
                self@.height == h as int,
                self@.generation == g as int,
                b0 == (Board { generation: g as int, ..old(self)@ }),
                ds.len() == x as int * h as int,
                forall|i: int| 0 <= i < ds.len() ==> draws_ok(#[trigger] ds[i]),
                self@ == sweep_upto(b0, ds, w as int, h as int, g as int, x as int, 0),
            decreases w - x,
        {
            let scanx = if g % 2 == 0 {
                w - (1 + x)
            } else {
                x
            };
            proof {
                assert(scanx as int == scan_col(g as int, w as int, x as int));
            }
            let mut y: i32 = 0;
            while y < h
                invariant
                    0 <= y <= h,
                    0 <= x < w,
                    self.wf(),
                    1 <= w <= MAX_DIM,
                    1 <= h <= MAX_DIM,
                    self@.width == w as int,
                    self@.height == h as int,
                    self@.generation == g as int,
                    b0 == (Board { generation: g as int, ..old(self)@ }),
                    scanx as int == scan_col(g as int, w as int, x as int),
                    0 <= scanx < w,
                    ds.len() == x as int * h as int + y as int,
                    forall|i: int| 0 <= i < ds.len() ==> draws_ok(#[trigger] ds[i]),
                    self@ == sweep_upto(b0, ds, w as int, h as int, g as int, x as int, y as int),
                decreases h - y,
            {
                let i = self.get_index(scanx, y);
                let cell = self.cells[i];
                self.burns.set(i, Wind { dx: 0, dy: 0, pressure: 0, density: 0 });
                let ghost prev = self@;
                let api = Api { x: scanx, y };
                World::update_cell(cell, self, api);
                proof {
                    let d = choose|d: Draws|
                        draws_ok(d) && self@ == visit_model(prev, scanx as int, y as int, d);
                    lemma_visit_shape(prev, scanx as int, y as int, d);
                    let ds2 = ds.push(d);
                    lemma_sweep_prefix(
                        b0,
                        ds2,
                        ds,
                        w as int,
                        h as int,
                        g as int,
                        x as int,
                        y as int,
                    );
                    assert(ds2[x as int * h as int + y as int] == d);
                    assert(self@ == sweep_upto(
                        b0,
                        ds2,
                        w as int,
                        h as int,
                        g as int,
                        x as int,
                        y as int + 1,
                    ));
                    ds = ds2;
                }
                y += 1;
            }
            proof {
                assert((x as int + 1) * h as int == x as int * h as int + h as int)
                    by (nonlinear_arith);
                assert(self@ == sweep_upto(
                    b0,
                    ds,
                    w as int,
                    h as int,
                    g as int,
                    x as int + 1,
                    0,
                ));
            }
            x += 1;
        }
        self.generation = (self.generation + 1) % 255;
        proof {
            assert(self@ =~= tick_model(old(self)@, ds));
            assert(draws_seq_ok(ds, old(self)@.width * old(self)@.height));
            if inert(old(self)@) {
                lemma_tick_inert(old(self)@, ds);
            }
        }
    }
}

/// The engine: a world of the default dimensions.
pub struct Engine {
    pub world: World,
}

impl Engine {
    pub fn new() -> (e: Engine)
        ensures
            e.world.wf(),
            e.world@.width == DEFAULT_WIDTH as int,
            e.world@.height == DEFAULT_HEIGHT as int,
            e.world@.generation == 0,
            forall|i: int| 0 <= i < e.world@.cells.len() ==> e.world@.cells[i] == empty_cell(),
    {
        Engine { world: World::new(DEFAULT_WIDTH, DEFAULT_HEIGHT) }
    }
}

} // verus!
