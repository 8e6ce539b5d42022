//! Laws of the engine, proved over the functional model in [`crate::model`].
//!
//! `World::tick` guarantees that the world it leaves behind is
//! `tick_model` of the world it found, for some valid draw sequence; the
//! lemmas here hold for every draw sequence, so each is a statement about
//! every possible tick.

use vstd::prelude::*;

use crate::model::{
    already_stamped, draws_ok, draws_seq_ok, gol_alive, gol_dead, gol_neighbors, inert,
    lemma_idx_bounds, lemma_idx_injective, lemma_model_set_shape, lemma_step_shape, model_get,
    model_set, next_gen, reaction_water, scan_col, stamped, step_cell, sweep_upto, tick_model,
    visit_model, Board, Draws,
};
use crate::species::{empty_cell, Cell, Species};

verus! {

/// Every cell the post board holds either survives from the pre board or
/// carries the pre board's generation stamp.
pub open spec fn changes_stamped(pre: Board, post: Board) -> bool {
    forall|i: int|
        0 <= i < post.cells.len() ==> (#[trigger] post.cells[i]) == pre.cells[i]
            || already_stamped(post.cells[i], pre.generation)
}

/// A mediator write touches one slot and stamps what it stores there.
pub broadcast proof fn lemma_model_set_stamps(b: Board, x: int, y: int, dx: int, dy: int, v: Cell)
    ensures
        b.wf() ==> changes_stamped(b, #[trigger] model_set(b, x, y, dx, dy, v)),
{
    if b.wf() && b.in_bounds(x + dx, y + dy) {
        lemma_idx_bounds(b, x + dx, y + dy);
    }
}

/// Every slot a rule invocation changes is stamped with the running
/// generation.
pub proof fn lemma_step_changes_stamped(b: Board, x: int, y: int, cell: Cell, d: Draws)
    requires
        b.wf(),
    ensures
        changes_stamped(b, step_cell(b, x, y, cell, d)),
{
    broadcast use lemma_model_set_shape, lemma_model_set_stamps;

    match cell.species {
        Species::EMPT => {},
        Species::WALL => {},
        Species::GAS => {},
        Species::DUST => assert(changes_stamped(b, step_cell(b, x, y, cell, d))),
        Species::SAND => assert(changes_stamped(b, step_cell(b, x, y, cell, d))),
        Species::WATR => assert(changes_stamped(b, step_cell(b, x, y, cell, d))),
        Species::OIL => assert(changes_stamped(b, step_cell(b, x, y, cell, d))),
        Species::FIRE => assert(changes_stamped(b, step_cell(b, x, y, cell, d))),
        Species::SMKE => assert(changes_stamped(b, step_cell(b, x, y, cell, d))),
        Species::GOL => assert(changes_stamped(b, step_cell(b, x, y, cell, d))),
        Species::WOOD => assert(changes_stamped(b, step_cell(b, x, y, cell, d))),
        Species::OXGN => assert(changes_stamped(b, step_cell(b, x, y, cell, d))),
        Species::HYGN => assert(changes_stamped(b, step_cell(b, x, y, cell, d))),
    }
}

/// A visit of a slot holding an inert species changes nothing at all.
pub proof fn lemma_visit_trivial(b: Board, x: int, y: int, d: Draws)
    requires
        b.cells[b.idx(x, y)].species == Species::EMPT || b.cells[b.idx(x, y)].species
            == Species::WALL,
    ensures
        visit_model(b, x, y, d) == b,
{
}

/// Every slot the sweep has changed so far is stamped, and the sweep
/// keeps the board's shape.
pub proof fn lemma_sweep_changes_stamped(
    b0: Board,
    ds: Seq<Draws>,
    w: int,
    h: int,
    g: int,
    x: int,
    y: int,
)
    requires
        b0.wf(),
        w == b0.width,
        h == b0.height,
        g == b0.generation,
        0 <= x <= w,
        0 <= y <= h,
        y > 0 ==> x < w,
    ensures
        changes_stamped(b0, sweep_upto(b0, ds, w, h, g, x, y)),
        sweep_upto(b0, ds, w, h, g, x, y).wf(),
        sweep_upto(b0, ds, w, h, g, x, y).generation == g,
        sweep_upto(b0, ds, w, h, g, x, y).width == w,
        sweep_upto(b0, ds, w, h, g, x, y).height == h,
        sweep_upto(b0, ds, w, h, g, x, y).winds == b0.winds,
    decreases x, y,
{
    if y <= 0 {
        if x > 0 {
            lemma_sweep_changes_stamped(b0, ds, w, h, g, x - 1, h);
        }
    } else {
        lemma_sweep_changes_stamped(b0, ds, w, h, g, x, y - 1);
        let prev = sweep_upto(b0, ds, w, h, g, x, y - 1);
        let col = scan_col(g, w, x);
        let d = ds[x * h + (y - 1)];
        let c = prev.cells[prev.idx(col, y - 1)];
        let next = visit_model(prev, col, y - 1, d);
        if !already_stamped(c, prev.generation) {
            lemma_step_changes_stamped(prev, col, y - 1, c, d);
            lemma_step_shape(prev, col, y - 1, c, d);
            assert forall|i: int|
                0 <= i < next.cells.len() implies (#[trigger] next.cells[i]) == b0.cells[i]
                || already_stamped(next.cells[i], b0.generation) by {
                if next.cells[i] == prev.cells[i] {
                    assert(prev.cells[i] == b0.cells[i] || already_stamped(
                        prev.cells[i],
                        b0.generation,
                    ));
                }
            }
        }
    }
}

/// **No double update.** When the sweep reaches a slot and does not skip
/// it, the slot still holds exactly the cell it held when the sweep began:
/// every slot written earlier in the same sweep carries the generation
/// stamp, so a cell relocated into not-yet-scanned territory is never
/// passed to a rule a second time. (Each slot is reached exactly once per
/// sweep: see [`lemma_visit_slots_distinct`].)
pub proof fn lemma_no_double_update(b0: Board, ds: Seq<Draws>, w: int, h: int, g: int, x: int, y: int)
    requires
        b0.wf(),
        w == b0.width,
        h == b0.height,
        g == b0.generation,
        0 <= x < w,
        0 <= y < h,
    ensures
        ({
            let at = sweep_upto(b0, ds, w, h, g, x, y);
            let s = b0.idx(scan_col(g, w, x), y);
            !already_stamped(at.cells[s], g) ==> at.cells[s] == b0.cells[s]
        }),
{
    lemma_sweep_changes_stamped(b0, ds, w, h, g, x, y);
    let col = scan_col(g, w, x);
    assert(0 <= col < w);
    lemma_idx_bounds(b0, col, y);
}

/// The same guarantee read off one whole tick: the sweep a tick runs (at
/// the pre-bumped generation) never dispatches a slot that an earlier rule
/// invocation of the same tick has written.
pub proof fn lemma_tick_no_double_update(b: Board, ds: Seq<Draws>, x: int, y: int)
    requires
        b.wf(),
        0 <= x < b.width,
        0 <= y < b.height,
    ensures
        ({
            let g = next_gen(b.generation);
            let b0 = Board { generation: g, ..b };
            let at = sweep_upto(b0, ds, b.width, b.height, g, x, y);
            let s = b0.idx(scan_col(g, b.width, x), y);
            !already_stamped(at.cells[s], g) ==> at.cells[s] == b0.cells[s]
        }),
{
    let g = next_gen(b.generation);
    let b0 = Board { generation: g, ..b };
    lemma_no_double_update(b0, ds, b.width, b.height, g, x, y);
}

/// Two distinct sweep positions visit two distinct slots: the scan order
/// reaches every slot exactly once per tick.
pub proof fn lemma_visit_slots_distinct(
    b: Board,
    g: int,
    x1: int,
    y1: int,
    x2: int,
    y2: int,
)
    requires
        b.wf(),
        0 <= x1 < b.width,
        0 <= x2 < b.width,
        0 <= y1 < b.height,
        0 <= y2 < b.height,
        !(x1 == x2 && y1 == y2),
    ensures
        b.idx(scan_col(g, b.width, x1), y1) != b.idx(scan_col(g, b.width, x2), y2),
{
    let c1 = scan_col(g, b.width, x1);
    let c2 = scan_col(g, b.width, x2);
    if b.idx(c1, y1) == b.idx(c2, y2) {
        lemma_idx_injective(b, c1, y1, c2, y2);
    }
}

/// An inert board is a fixed point of the sweep.
pub proof fn lemma_sweep_inert(b0: Board, ds: Seq<Draws>, w: int, h: int, g: int, x: int, y: int)
    requires
        b0.wf(),
        inert(b0),
        w == b0.width,
        h == b0.height,
        g == b0.generation,
        0 <= x <= w,
        0 <= y <= h,
        y > 0 ==> x < w,
    ensures
        sweep_upto(b0, ds, w, h, g, x, y) == b0,
    decreases x, y,
{
    if y <= 0 {
        if x > 0 {
            lemma_sweep_inert(b0, ds, w, h, g, x - 1, h);
        }
    } else {
        lemma_sweep_inert(b0, ds, w, h, g, x, y - 1);
        let col = scan_col(g, w, x);
        lemma_idx_bounds(b0, col, y - 1);
        lemma_visit_trivial(b0, col, y - 1, ds[x * h + (y - 1)]);
    }
}

/// **Idempotence of Wall and Empty.** A tick of a board holding only Wall
/// and Empty cells leaves every cell untouched, and the board inert — so
/// any number of ticks leaves it unchanged.
pub proof fn lemma_tick_inert(b: Board, ds: Seq<Draws>)
    requires
        b.wf(),
        inert(b),
    ensures
        tick_model(b, ds).cells == b.cells,
        tick_model(b, ds).winds == b.winds,
        tick_model(b, ds).width == b.width,
        tick_model(b, ds).height == b.height,
        inert(tick_model(b, ds)),
        tick_model(b, ds).wf(),
{
    let g = next_gen(b.generation);
    let b0 = Board { generation: g, ..b };
    lemma_sweep_inert(b0, ds, b.width, b.height, g, b.width, 0);
}

/// A board inert (Empty or Wall) everywhere but one active slot `(c, y0)`
/// — and possibly the slot directly below it — whose cell the sweep has
/// not yet handled.
pub open spec fn solo_board(b: Board, c: int, y0: int) -> bool {
    let a = b.idx(c, y0);
    let a2 = if y0 + 1 < b.height {
        b.idx(c, y0 + 1)
    } else {
        a
    };
    &&& 0 <= c < b.width
    &&& 0 <= y0 < b.height
    &&& forall|i: int|
        0 <= i < b.cells.len() && i != a && i != a2 ==> (#[trigger] b.cells[i]).species
            == Species::EMPT || b.cells[i].species == Species::WALL
    &&& !already_stamped(b.cells[a], b.generation)
}

/// The rule of the active cell confines its effect to the active slot and
/// the slot below, leaving the latter stamped or untouched-and-inert.
pub open spec fn solo_step_confined(b: Board, c: int, y0: int, d: Draws) -> bool {
    let a = b.idx(c, y0);
    let a2 = if y0 + 1 < b.height {
        b.idx(c, y0 + 1)
    } else {
        a
    };
    let nb = step_cell(b, c, y0, b.cells[a], d);
    &&& forall|i: int|
        0 <= i < nb.cells.len() && i != a && i != a2 ==> (#[trigger] nb.cells[i]) == b.cells[i]
    &&& (y0 + 1 < b.height ==> (already_stamped(nb.cells[a2], b.generation) || (nb.cells[a2]
        == b.cells[a2] && (b.cells[a2].species == Species::EMPT || b.cells[a2].species
        == Species::WALL))))
}

/// The physical column `c` is reached at scan index `xa`.
pub open spec fn scan_index_of(g: int, w: int, c: int) -> int {
    if g % 2 == 0 {
        w - 1 - c
    } else {
        c
    }
}

proof fn lemma_sweep_solo_upto(
    b0: Board,
    ds: Seq<Draws>,
    w: int,
    h: int,
    g: int,
    c: int,
    y0: int,
    x: int,
    y: int,
)
    requires
        b0.wf(),
        w == b0.width,
        h == b0.height,
        g == b0.generation,
        solo_board(b0, c, y0),
        forall|d: Draws| draws_ok(d) ==> #[trigger] solo_step_confined(b0, c, y0, d),
        forall|i: int| 0 <= i < ds.len() ==> draws_ok(#[trigger] ds[i]),
        ds.len() == w * h,
        0 <= x <= w,
        0 <= y <= h,
        y > 0 ==> x < w,
    ensures
        ({
            let xa = scan_index_of(g, w, c);
            let nb = step_cell(b0, c, y0, b0.cells[b0.idx(c, y0)], ds[xa * h + y0]);
            sweep_upto(b0, ds, w, h, g, x, y) == if x < xa || (x == xa && y <= y0) {
                b0
            } else {
                nb
            }
        }),
    decreases x, y,
{
    let xa = scan_index_of(g, w, c);
    assert(0 <= xa < w);
    assert(scan_col(g, w, xa) == c);
    assert(0 <= xa * h + y0 < w * h) by (nonlinear_arith)
        requires
            0 <= xa < w,
            0 <= y0 < h,
    ;
    let k0 = xa * h + y0;
    let a = b0.idx(c, y0);
    let a2 = if y0 + 1 < h {
        b0.idx(c, y0 + 1)
    } else {
        a
    };
    lemma_idx_bounds(b0, c, y0);
    if y0 + 1 < h {
        lemma_idx_bounds(b0, c, y0 + 1);
    }
    let cell = b0.cells[a];
    let nb = step_cell(b0, c, y0, cell, ds[k0]);
    lemma_step_shape(b0, c, y0, cell, ds[k0]);
    if y <= 0 {
        if x > 0 {
            lemma_sweep_solo_upto(b0, ds, w, h, g, c, y0, x - 1, h);
        }
    } else {
        lemma_sweep_solo_upto(b0, ds, w, h, g, c, y0, x, y - 1);
        let prev = sweep_upto(b0, ds, w, h, g, x, y - 1);
        let col = scan_col(g, w, x);
        assert(0 <= col < w);
        assert(col == c <==> x == xa);
        let d = ds[x * h + (y - 1)];
        assert(0 <= x * h + (y - 1) < w * h) by (nonlinear_arith)
            requires
                0 <= x < w,
                0 <= y - 1 < h,
        ;
        lemma_idx_bounds(b0, col, y - 1);
        let s = b0.idx(col, y - 1);
        if x < xa || (x == xa && y - 1 < y0) {
            // before the active visit: every visited slot is inert
            assert(prev == b0);
            if s == a {
                lemma_idx_injective(b0, col, y - 1, c, y0);
            }
            if y0 + 1 < h && s == a2 {
                lemma_idx_injective(b0, col, y - 1, c, y0 + 1);
            }
            assert(b0.cells[s].species == Species::EMPT || b0.cells[s].species == Species::WALL);
            lemma_visit_trivial(b0, col, y - 1, d);
        } else if x == xa && y - 1 == y0 {
            // the active visit itself: the cell is unstamped, so it runs
            assert(prev == b0);
            assert(s == a);
            assert(visit_model(b0, col, y - 1, d) == nb);
        } else {
            // after the active visit: the slot below is stamped or inert,
            // everything else is still empty
            assert(prev == nb);
            assert(solo_step_confined(b0, c, y0, ds[k0]));
            if s == a {
                lemma_idx_injective(b0, col, y - 1, c, y0);
                assert(false);
            }
            if y0 + 1 < h && s == a2 {
                assert(col == c && y - 1 == y0 + 1) by {
                    lemma_idx_injective(b0, col, y - 1, c, y0 + 1);
                }
                if already_stamped(nb.cells[a2], g) {
                    assert(visit_model(nb, col, y - 1, d) == nb);
                } else {
                    assert(nb.cells[a2] == b0.cells[a2]);
                    lemma_visit_trivial(nb, col, y - 1, d);
                }
            } else {
                assert(nb.cells[s] == b0.cells[s]);
                assert(b0.cells[s].species == Species::EMPT || b0.cells[s].species
                    == Species::WALL);
                lemma_visit_trivial(nb, col, y - 1, d);
            }
        }
    }
}

/// A full sweep of a solo board is exactly the active cell's rule applied
/// to the start board, under the draw record of the active visit.
pub proof fn lemma_sweep_solo(b0: Board, ds: Seq<Draws>, c: int, y0: int)
    requires
        b0.wf(),
        solo_board(b0, c, y0),
        forall|d: Draws| draws_ok(d) ==> #[trigger] solo_step_confined(b0, c, y0, d),
        draws_seq_ok(ds, b0.width * b0.height),
    ensures
        ({
            let xa = scan_index_of(b0.generation, b0.width, c);
            let d0 = ds[xa * b0.height + y0];
            &&& draws_ok(d0)
            &&& sweep_upto(b0, ds, b0.width, b0.height, b0.generation, b0.width, 0) == step_cell(
                b0,
                c,
                y0,
                b0.cells[b0.idx(c, y0)],
                d0,
            )
        }),
{
    let w = b0.width;
    let h = b0.height;
    let g = b0.generation;
    let xa = scan_index_of(g, w, c);
    assert(0 <= xa * h + y0 < w * h) by (nonlinear_arith)
        requires
            0 <= xa < w,
            0 <= y0 < h,
    ;
    lemma_sweep_solo_upto(b0, ds, w, h, g, c, y0, w, 0);
}

/// A settling configuration: one fresh sand cell at `(c, y0)`, the rest
/// of its column below empty, and every other slot inert (Empty or Wall).
pub open spec fn settling_config(b: Board, c: int, y0: int) -> bool {
    let a = b.idx(c, y0);
    &&& 0 <= c < b.width
    &&& 0 <= y0 < b.height
    &&& b.cells[a].species == Species::SAND
    &&& !already_stamped(b.cells[a], next_gen(b.generation))
    &&& forall|i: int|
        0 <= i < b.cells.len() && i != a ==> (#[trigger] b.cells[i]).species == Species::EMPT
            || b.cells[i].species == Species::WALL
    &&& forall|k: int|
        y0 < k < b.height ==> (#[trigger] b.cells[b.idx(c, k)]).species == Species::EMPT
}

/// The three slots a resting sand cell probes — below and both diagonals
/// below — read as solid, either Wall cells or the boundary beyond the
/// grid's edge.
pub open spec fn sand_blocked_below(b: Board, c: int, y0: int) -> bool {
    &&& model_get(b, c, y0, 0, 1).species == Species::WALL
    &&& model_get(b, c, y0, -1, 1).species == Species::WALL
    &&& model_get(b, c, y0, 1, 1).species == Species::WALL
}

/// **Granular settling, falling case.** In a settling configuration with a
/// free slot below, one tick moves the sand down by exactly one row: the
/// vacated slot becomes a stamped empty cell, the slot below receives the
/// sand with the running generation's stamp, and no other slot changes.
pub proof fn lemma_tick_sand_falls(b: Board, ds: Seq<Draws>, c: int, y0: int)
    requires
        b.wf(),
        draws_seq_ok(ds, b.width * b.height),
        settling_config(b, c, y0),
        y0 + 1 < b.height,
    ensures
        ({
            let g = next_gen(b.generation);
            let tm = tick_model(b, ds);
            let a = b.idx(c, y0);
            let a2 = b.idx(c, y0 + 1);
            &&& tm.cells.len() == b.cells.len()
            &&& tm.cells[a] == stamped(empty_cell(), g)
            &&& tm.cells[a2] == stamped(b.cells[a], g)
            &&& forall|i: int|
                0 <= i < b.cells.len() && i != a && i != a2 ==> (#[trigger] tm.cells[i])
                    == b.cells[i]
            &&& tm.width == b.width
            &&& tm.height == b.height
        }),
{
    let g = next_gen(b.generation);
    let b0 = Board { generation: g, ..b };
    let a = b0.idx(c, y0);
    let a2 = b0.idx(c, y0 + 1);
    lemma_idx_bounds(b0, c, y0);
    lemma_idx_bounds(b0, c, y0 + 1);
    assert(b0.idx(c, y0 + 1) == b0.idx(c, y0) + b0.width) by (nonlinear_arith);
    let cell = b0.cells[a];
    assert(b.cells[b.idx(c, y0 + 1)].species == Species::EMPT);
    assert(solo_board(b0, c, y0));
    assert forall|d: Draws| draws_ok(d) implies #[trigger] solo_step_confined(b0, c, y0, d) by {
        assert(model_get(b0, c, y0, 0, 1) == b0.cells[a2]);
        assert(b0.cells[a2].species == Species::EMPT);
        let nb = step_cell(b0, c, y0, cell, d);
        assert(nb == model_set(model_set(b0, c, y0, 0, 0, empty_cell()), c, y0, 0, 1, cell));
        assert(already_stamped(nb.cells[a2], g));
    }
    lemma_sweep_solo(b0, ds, c, y0);
    let xa = scan_index_of(g, b.width, c);
    let d0 = ds[xa * b.height + y0];
    let nb = step_cell(b0, c, y0, cell, d0);
    assert(nb == model_set(model_set(b0, c, y0, 0, 0, empty_cell()), c, y0, 0, 1, cell));
    assert(tick_model(b, ds).cells == nb.cells);
}

/// The falling tick re-establishes the settling configuration one row
/// lower: the sand cell's fresh stamp never matches the next tick's
/// generation, the vacated slot is empty, and everything else is as
/// before.
pub proof fn lemma_sand_config_restored(b: Board, ds: Seq<Draws>, c: int, y0: int)
    requires
        b.wf(),
        draws_seq_ok(ds, b.width * b.height),
        settling_config(b, c, y0),
        y0 + 1 < b.height,
    ensures
        ({
            let tm = tick_model(b, ds);
            &&& tm.wf()
            &&& tm.width == b.width
            &&& tm.height == b.height
            &&& settling_config(tm, c, y0 + 1)
        }),
{
    lemma_tick_sand_falls(b, ds, c, y0);
    let g = next_gen(b.generation);
    let b0 = Board { generation: g, ..b };
    lemma_sweep_changes_stamped(b0, ds, b.width, b.height, g, b.width, 0);
    let tm = tick_model(b, ds);
    let a = b.idx(c, y0);
    let a2 = b.idx(c, y0 + 1);
    lemma_idx_bounds(b0, c, y0);
    lemma_idx_bounds(b0, c, y0 + 1);
    // the fresh stamp is one past g; the next tick checks one past
    // next_gen(next_gen(g)), and the two never coincide
    assert(tm.generation == next_gen(g));
    assert(g + 1 != next_gen(next_gen(g)) + 1);
    assert(tm.cells[a2] == stamped(b.cells[a], g));
    assert(tm.cells[a].species == Species::EMPT);
    assert forall|i: int|
        0 <= i < tm.cells.len() && i != a2 implies (#[trigger] tm.cells[i]).species
        == Species::EMPT || tm.cells[i].species == Species::WALL by {
        if i != a {
            assert(tm.cells[i] == b.cells[i]);
        }
    }
    assert forall|k: int|
        y0 + 1 < k < tm.height implies (#[trigger] tm.cells[tm.idx(c, k)]).species
        == Species::EMPT by {
        lemma_idx_bounds(b0, c, k);
        if tm.idx(c, k) == a {
            lemma_idx_injective(b0, c, k, c, y0);
        }
        if tm.idx(c, k) == a2 {
            lemma_idx_injective(b0, c, k, c, y0 + 1);
        }
        assert(tm.cells[tm.idx(c, k)] == b.cells[b.idx(c, k)]);
        assert(b.cells[b.idx(c, k)].species == Species::EMPT);
    }
}

/// **Granular settling, resting case.** Sand whose slot below and both
/// diagonals below read as solid — Wall cells, or the boundary beyond the
/// bottom row — stays where it is, merely refreshing its stamp; nothing
/// else changes.
pub proof fn lemma_tick_sand_rests(b: Board, ds: Seq<Draws>, c: int, y0: int)
    requires
        b.wf(),
        draws_seq_ok(ds, b.width * b.height),
        0 <= c < b.width,
        0 <= y0 < b.height,
        b.cells[b.idx(c, y0)].species == Species::SAND,
        !already_stamped(b.cells[b.idx(c, y0)], next_gen(b.generation)),
        sand_blocked_below(b, c, y0),
        forall|i: int|
            0 <= i < b.cells.len() && i != b.idx(c, y0) ==> (#[trigger] b.cells[i]).species
                == Species::EMPT || b.cells[i].species == Species::WALL,
    ensures
        ({
            let g = next_gen(b.generation);
            let tm = tick_model(b, ds);
            let a = b.idx(c, y0);
            &&& tm.cells.len() == b.cells.len()
            &&& tm.cells[a] == stamped(b.cells[a], g)
            &&& forall|i: int|
                0 <= i < b.cells.len() && i != a ==> (#[trigger] tm.cells[i]) == b.cells[i]
        }),
{
    let g = next_gen(b.generation);
    let b0 = Board { generation: g, ..b };
    let a = b0.idx(c, y0);
    lemma_idx_bounds(b0, c, y0);
    if y0 + 1 < b.height {
        lemma_idx_bounds(b0, c, y0 + 1);
    }
    let cell = b0.cells[a];
    // the probed species do not depend on the generation bump
    assert(model_get(b0, c, y0, 0, 1).species == model_get(b, c, y0, 0, 1).species);
    assert(model_get(b0, c, y0, -1, 1).species == model_get(b, c, y0, -1, 1).species);
    assert(model_get(b0, c, y0, 1, 1).species == model_get(b, c, y0, 1, 1).species);
    assert(solo_board(b0, c, y0));
    assert forall|d: Draws| draws_ok(d) implies #[trigger] solo_step_confined(b0, c, y0, d) by {
        assert(model_get(b0, c, y0, 0, 1).species == Species::WALL);
        assert(model_get(b0, c, y0, d.dir2, 1).species == Species::WALL);
        let nb = step_cell(b0, c, y0, cell, d);
        assert(nb == model_set(b0, c, y0, 0, 0, cell));
    }
    lemma_sweep_solo(b0, ds, c, y0);
    let xa = scan_index_of(g, b.width, c);
    let d0 = ds[xa * b.height + y0];
    let nb = step_cell(b0, c, y0, cell, d0);
    assert(nb == model_set(b0, c, y0, 0, 0, cell));
    assert(tick_model(b, ds).cells == nb.cells);
}

/// The board after a whole run of ticks, one draw sequence per tick.
pub open spec fn ticks_model(b: Board, dss: Seq<Seq<Draws>>) -> Board
    decreases dss.len(),
{
    if dss.len() <= 0 {
        b
    } else {
        ticks_model(tick_model(b, dss[0]), dss.subrange(1, dss.len() as int))
    }
}

/// **Granular settling, the whole descent.** A fresh sand cell at row `y`
/// of a settling configuration stands on the bottom row after exactly
/// `height - 1 - y` ticks — one row per tick — so it reaches the bottom of
/// a column of height `h` within `h` ticks.
pub proof fn lemma_sand_settles(b: Board, dss: Seq<Seq<Draws>>, c: int, y0: int)
    requires
        b.wf(),
        settling_config(b, c, y0),
        dss.len() == b.height - 1 - y0,
        forall|i: int|
            0 <= i < dss.len() ==> draws_seq_ok(#[trigger] dss[i], b.width * b.height),
    ensures
        ({
            let f = ticks_model(b, dss);
            &&& f.width == b.width
            &&& f.height == b.height
            &&& f.cells.len() == b.cells.len()
            &&& f.cells[f.idx(c, b.height - 1)].species == Species::SAND
        }),
    decreases dss.len(),
{
    if dss.len() == 0 {
        assert(y0 == b.height - 1);
    } else {
        lemma_sand_config_restored(b, dss[0], c, y0);
        let b1 = tick_model(b, dss[0]);
        let rest = dss.subrange(1, dss.len() as int);
        assert forall|i: int|
            0 <= i < rest.len() implies draws_seq_ok(#[trigger] rest[i], b1.width * b1.height) by {
            assert(rest[i] == dss[i + 1]);
        }
        lemma_sand_settles(b1, rest, c, y0 + 1);
        assert(ticks_model(b, dss) == ticks_model(b1, rest));
    }
}

/// **Water sinks through oil.** A water cell directly above an oil cell,
/// everything else inert (Empty or Wall), swaps with it within one tick: the oil rises
/// into the water's slot, the water takes the oil's slot (its lateral bias
/// possibly re-randomized into `[100, 150)`, its commitment untouched),
/// both stamped, and no other slot changes.
pub proof fn lemma_tick_water_sinks(b: Board, ds: Seq<Draws>, c: int, y0: int)
    requires
        b.wf(),
        draws_seq_ok(ds, b.width * b.height),
        0 <= c < b.width,
        0 <= y0,
        y0 + 1 < b.height,
        b.cells[b.idx(c, y0)].species == Species::WATR,
        b.cells[b.idx(c, y0 + 1)].species == Species::OIL,
        !already_stamped(b.cells[b.idx(c, y0)], next_gen(b.generation)),
        forall|i: int|
            0 <= i < b.cells.len() && i != b.idx(c, y0) && i != b.idx(c, y0 + 1) ==> (
            #[trigger] b.cells[i]).species == Species::EMPT || b.cells[i].species
                == Species::WALL,
    ensures
        ({
            let g = next_gen(b.generation);
            let tm = tick_model(b, ds);
            let a = b.idx(c, y0);
            let a2 = b.idx(c, y0 + 1);
            let water = b.cells[a];
            &&& tm.cells.len() == b.cells.len()
            &&& tm.cells[a] == stamped(b.cells[a2], g)
            &&& tm.cells[a2].species == Species::WATR
            &&& tm.cells[a2].rb == water.rb
            &&& tm.cells[a2].clock as int == g + 1
            &&& (tm.cells[a2].ra == water.ra || (100 <= tm.cells[a2].ra < 150))
            &&& forall|i: int|
                0 <= i < b.cells.len() && i != a && i != a2 ==> (#[trigger] tm.cells[i])
                    == b.cells[i]
        }),
{
    let g = next_gen(b.generation);
    let b0 = Board { generation: g, ..b };
    let a = b0.idx(c, y0);
    let a2 = b0.idx(c, y0 + 1);
    lemma_idx_bounds(b0, c, y0);
    lemma_idx_bounds(b0, c, y0 + 1);
    assert(b0.idx(c, y0 + 1) == b0.idx(c, y0) + b0.width) by (nonlinear_arith);
    let water = b0.cells[a];
    let oil = b0.cells[a2];
    assert(solo_board(b0, c, y0));
    assert forall|d: Draws| draws_ok(d) implies #[trigger] solo_step_confined(b0, c, y0, d) by {
        assert(model_get(b0, c, y0, 0, 1) == oil);
        let ra = if d.coin {
            (100 + d.amt_water) as u8
        } else {
            water.ra
        };
        let nb = step_cell(b0, c, y0, water, d);
        assert(nb == model_set(
            model_set(b0, c, y0, 0, 0, oil),
            c,
            y0,
            0,
            1,
            Cell { ra, ..water },
        ));
        assert(already_stamped(nb.cells[a2], g));
    }
    lemma_sweep_solo(b0, ds, c, y0);
    let xa = scan_index_of(g, b.width, c);
    let d0 = ds[xa * b.height + y0];
    let nb = step_cell(b0, c, y0, water, d0);
    let ra0 = if d0.coin {
        (100 + d0.amt_water) as u8
    } else {
        water.ra
    };
    assert(nb == model_set(
        model_set(b0, c, y0, 0, 0, oil),
        c,
        y0,
        0,
        1,
        Cell { ra: ra0, ..water },
    ));
    assert(tick_model(b, ds).cells == nb.cells);
}

/// **Conway correctness in isolation.** One Life-cell update is exactly
/// the standard rule applied to the live count of its eight neighbors at
/// the moment it runs: a live cell survives on two or three live
/// neighbors, a dead cell is born on exactly three, and the cell writes
/// only its own slot. (Because the sweep updates cells in place, a
/// neighbor earlier in the scan order is counted in its already-updated
/// state.)
pub proof fn lemma_life_rule(b: Board, x: int, y: int, cell: Cell, d: Draws)
    requires
        cell.species == Species::GOL,
    ensures
        ({
            let n = gol_neighbors(b, x, y);
            let next_alive: bool = if cell.rb == 1 {
                2 <= n <= 3
            } else {
                n == 3
            };
            step_cell(b, x, y, cell, d) == model_set(
                b,
                x,
                y,
                0,
                0,
                if next_alive {
                    gol_alive()
                } else {
                    gol_dead()
                },
            )
        }),
{
}

/// The number of cells of a species on a board.
pub open spec fn count_species(s: Seq<Cell>, sp: Species) -> int
    decreases s.len(),
{
    if s.len() == 0 {
        0
    } else {
        count_species(s.drop_last(), sp) + if s.last().species == sp {
            1int
        } else {
            0int
        }
    }
}

/// Overwriting one slot moves the species counts by exactly the outgoing
/// and incoming cell.
pub proof fn lemma_count_update(s: Seq<Cell>, i: int, c: Cell, sp: Species)
    requires
        0 <= i < s.len(),
    ensures
        count_species(s.update(i, c), sp) == count_species(s, sp) + (if c.species == sp {
            1int
        } else {
            0int
        }) - (if s[i].species == sp {
            1int
        } else {
            0int
        }),
    decreases s.len(),
{
    let su = s.update(i, c);
    if i == s.len() - 1 {
        assert(su.drop_last() =~= s.drop_last());
    } else {
        assert(su.drop_last() =~= s.drop_last().update(i, c));
        lemma_count_update(s.drop_last(), i, c, sp);
    }
}

/// **Chemistry, combining case.** When hydrogen's sampled offset points at
/// an oxygen neighbor, the rule combines the pair within that one visit:
/// the oxygen slot becomes water, the hydrogen slot becomes empty, both
/// stamped, and no other slot changes.
pub proof fn lemma_hydrogen_combines(b: Board, x: int, y: int, d: Draws)
    requires
        b.wf(),
        b.in_bounds(x, y),
        b.in_bounds(x + d.dir, y + d.dir_b),
        b.cells[b.idx(x, y)].species == Species::HYGN,
        b.cells[b.idx(x + d.dir, y + d.dir_b)].species == Species::OXGN,
    ensures
        ({
            let a = b.idx(x, y);
            let q = b.idx(x + d.dir, y + d.dir_b);
            let nb = step_cell(b, x, y, b.cells[a], d);
            &&& nb.cells.len() == b.cells.len()
            &&& nb.cells[q] == stamped(reaction_water(), b.generation)
            &&& nb.cells[a] == stamped(empty_cell(), b.generation)
            &&& forall|i: int|
                0 <= i < b.cells.len() && i != a && i != q ==> (#[trigger] nb.cells[i])
                    == b.cells[i]
        }),
{
    let a = b.idx(x, y);
    let q = b.idx(x + d.dir, y + d.dir_b);
    lemma_idx_bounds(b, x, y);
    lemma_idx_bounds(b, x + d.dir, y + d.dir_b);
    if a == q {
        lemma_idx_injective(b, x, y, x + d.dir, y + d.dir_b);
    }
    assert(a != q);
}

/// **Chemistry, conservation.** The combination consumes exactly one
/// hydrogen and one oxygen cell and produces exactly one water and one
/// empty cell: over the whole board, the reactant counts each drop by one
/// and the water and empty counts each rise by one.
pub proof fn lemma_hydrogen_conserves(b: Board, x: int, y: int, d: Draws)
    requires
        b.wf(),
        b.in_bounds(x, y),
        b.in_bounds(x + d.dir, y + d.dir_b),
        b.cells[b.idx(x, y)].species == Species::HYGN,
        b.cells[b.idx(x + d.dir, y + d.dir_b)].species == Species::OXGN,
    ensures
        ({
            let nb = step_cell(b, x, y, b.cells[b.idx(x, y)], d);
            &&& count_species(nb.cells, Species::HYGN) == count_species(b.cells, Species::HYGN) - 1
            &&& count_species(nb.cells, Species::OXGN) == count_species(b.cells, Species::OXGN) - 1
            &&& count_species(nb.cells, Species::WATR) == count_species(b.cells, Species::WATR) + 1
            &&& count_species(nb.cells, Species::EMPT) == count_species(b.cells, Species::EMPT) + 1
        }),
{
    let a = b.idx(x, y);
    let q = b.idx(x + d.dir, y + d.dir_b);
    lemma_idx_bounds(b, x, y);
    lemma_idx_bounds(b, x + d.dir, y + d.dir_b);
    if a == q {
        lemma_idx_injective(b, x, y, x + d.dir, y + d.dir_b);
    }
    lemma_hydrogen_combines(b, x, y, d);
    let nb = step_cell(b, x, y, b.cells[a], d);
    let s1 = b.cells.update(q, stamped(reaction_water(), b.generation));
    assert(nb.cells =~= s1.update(a, stamped(empty_cell(), b.generation)));
    lemma_count_update(b.cells, q, stamped(reaction_water(), b.generation), Species::HYGN);
    lemma_count_update(b.cells, q, stamped(reaction_water(), b.generation), Species::OXGN);
    lemma_count_update(b.cells, q, stamped(reaction_water(), b.generation), Species::WATR);
    lemma_count_update(b.cells, q, stamped(reaction_water(), b.generation), Species::EMPT);
    lemma_count_update(s1, a, stamped(empty_cell(), b.generation), Species::HYGN);
    lemma_count_update(s1, a, stamped(empty_cell(), b.generation), Species::OXGN);
    lemma_count_update(s1, a, stamped(empty_cell(), b.generation), Species::WATR);
    lemma_count_update(s1, a, stamped(empty_cell(), b.generation), Species::EMPT);
}

} // verus!
