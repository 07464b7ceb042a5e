//! The two per-turn grids over the playable area: the Exploration Grid of
//! staleness weights, and the Value Grid spreading each untracked entity's
//! economic value over its bound rectangle. Grid scalars are fixed-point
//! integers in thousandths.

use vstd::prelude::*;

use crate::bounds_detector::{bound_of, has_bound, Bounds, BoundsDetector};
use crate::vec2::Vec2;
use crate::world::{
    contains_id, count_col, count_typ, contains_scan, lemma_count_col_nonneg,
    lemma_count_typ_nonneg, Creature, World, MAP_SIZE,
};

verus! {

/// Cells per axis of both grids.
pub const CELLS: usize = 20;

/// Side length of a grid cell in game units.
pub const CELL_SIZE: usize = 500;

/// Fixed-point scale of grid scalars: this value stands for 1.0.
pub const GRID_UNIT: i64 = 1000;

/// Per-turn staleness decay step (0.01 at the fixed-point scale).
pub const DECAY_STEP: i64 = 10;

/// Grid cell of an in-map position, as `(column, row)`.
pub fn position_to_grid_cell(pos: Vec2, cell_size: usize) -> (r: (usize, usize))
    requires
        0 < cell_size,
        0 <= pos.x <= MAP_SIZE,
        0 <= pos.y <= MAP_SIZE,
    ensures
        r.0 == pos.x as int / cell_size as int,
        r.1 == pos.y as int / cell_size as int,
{
    (((pos.x as u64) / (cell_size as u64)) as usize, ((pos.y as u64) / (cell_size as u64)) as usize)
}

/// Flat index of cell `(x, y)`.
pub open spec fn cell_idx(x: int, y: int) -> int {
    x * CELLS + y
}

/// Flat index of the cell containing `pos`.
pub open spec fn cell_of(pos: Vec2) -> int {
    cell_idx(pos.x as int / CELL_SIZE as int, pos.y as int / CELL_SIZE as int)
}

/// A well-formed exploration grid: one scalar per cell, each within [0, 1].
pub open spec fn expl_wf(s: Seq<i64>) -> bool {
    s.len() == CELLS * CELLS && forall|k: int| 0 <= k < s.len() ==> 0 <= #[trigger] s[k] <= GRID_UNIT
}

/// One decay step of a cell: toward fully stale (1.0), clamped there.
pub open spec fn decay(v: i64) -> i64 {
    if v + DECAY_STEP <= GRID_UNIT {
        (v + DECAY_STEP) as i64
    } else {
        GRID_UNIT
    }
}

/// The grid with the cells of the listed positions forced fresh (0).
pub open spec fn zero_at_positions(s: Seq<i64>, ps: Seq<Vec2>) -> Seq<i64>
    decreases ps.len(),
{
    if ps.len() == 0 {
        s
    } else {
        zero_at_positions(s, ps.drop_last()).update(cell_of(ps.last()), 0)
    }
}

/// Decaying record of how long ago each cell was last visited or illuminated:
/// 0 is fresh, `GRID_UNIT` fully stale.
pub struct ExplorationMap {
    pub map: Vec<i64>,
}

impl ExplorationMap {
    pub open spec fn wf(self) -> bool {
        expl_wf(self.map@)
    }

    /// Every cell starts fully stale.
    pub fn new() -> (r: ExplorationMap)
        ensures
            r.wf(),
            forall|k: int| 0 <= k < r.map@.len() ==> #[trigger] r.map@[k] == GRID_UNIT,
    {
        let mut v: Vec<i64> = Vec::new();
        let mut k: usize = 0;
        while k < CELLS * CELLS
            invariant
                v@.len() == k <= CELLS * CELLS,
                forall|j: int| 0 <= j < k ==> #[trigger] v@[j] == GRID_UNIT,
            decreases CELLS * CELLS - k,
        {
            v.push(GRID_UNIT);
            k = k + 1;
        }
        ExplorationMap { map: v }
    }

    /// One turn: every cell decays one step toward fully stale, then the cell
    /// under each owned drone is forced fresh.
    pub fn update(&mut self, world: &World)
        requires
            old(self).wf(),
            world.wf(),
        ensures
            final(self).wf(),
            final(self).map@ == zero_at_positions(
                old(self).map@.map_values(|v: i64| decay(v)),
                world.me.drones@.map_values(|d: crate::world::Drone| d.pos),
            ),
    {
        let n = self.map.len();
        let mut k: usize = 0;
        while k < n
            invariant
                old(self).wf(),
                n == old(self).map@.len(),
                self.map@.len() == n,
                0 <= k <= n,
                forall|j: int|
                    0 <= j < k ==> #[trigger] self.map@[j] == decay(old(self).map@[j]),
                forall|j: int| k <= j < n ==> #[trigger] self.map@[j] == old(self).map@[j],
            decreases n - k,
        {
            let v = self.map[k];
            if v + DECAY_STEP <= GRID_UNIT {
                self.map.set(k, v + DECAY_STEP);
            } else {
                self.map.set(k, GRID_UNIT);
            }
            k = k + 1;
        }
        proof {
            assert(self.map@ =~= old(self).map@.map_values(|v: i64| decay(v)));
        }
        let ghost decayed = self.map@;
        let nd = world.me.drones.len();
        let mut d: usize = 0;
        while d < nd
            invariant
                world.wf(),
                nd == world.me.drones@.len(),
                0 <= d <= nd,
                self.map@.len() == CELLS * CELLS,
                decayed.len() == CELLS * CELLS,
                self.map@ == zero_at_positions(
                    decayed,
                    world.me.drones@.map_values(|dr: crate::world::Drone| dr.pos).take(d as int),
                ),
            decreases nd - d,
        {
            let ghost ps = world.me.drones@.map_values(|dr: crate::world::Drone| dr.pos);
            let pos = world.me.drones[d].pos;
            assert(world.me.drones@[d as int].wf());
            let (cx, cy) = position_to_grid_cell(pos, CELL_SIZE);
            assert(cx < CELLS && cy < CELLS);
            self.map.set(cx * CELLS + cy, 0);
            proof {
                assert(ps.take(d as int + 1).drop_last() =~= ps.take(d as int));
                assert(ps.take(d as int + 1).last() == ps[d as int]);
                assert(cell_of(pos) == cx * CELLS + cy);
            }
            d = d + 1;
        }
        proof {
            let ps = world.me.drones@.map_values(|dr: crate::world::Drone| dr.pos);
            assert(ps.take(nd as int) =~= ps);
            assert forall|i: int|
                0 <= i < ps.len() implies 0 <= (#[trigger] ps[i]).x < MAP_SIZE && 0 <= ps[i].y
                < MAP_SIZE by {
                assert(world.me.drones@[i].wf());
                assert(ps[i] == world.me.drones@[i].pos);
            }
            lemma_zero_at_positions_wf(decayed, ps);
        }
    }

    /// A light used at `pos` marks the 3-by-3 neighborhood of its cell fresh.
    pub fn use_light(&mut self, pos: Vec2)
        requires
            old(self).wf(),
            0 <= pos.x <= MAP_SIZE,
            0 <= pos.y <= MAP_SIZE,
        ensures
            final(self).wf(),
            final(self).map@.len() == old(self).map@.len(),
            forall|x: int, y: int|
                0 <= x < CELLS && 0 <= y < CELLS ==> #[trigger] final(self).map@[cell_idx(x, y)]
                    == if pos.x as int / CELL_SIZE as int - 1 <= x <= pos.x as int
                    / CELL_SIZE as int + 1 && pos.y as int / CELL_SIZE as int - 1 <= y
                    <= pos.y as int / CELL_SIZE as int + 1 {
                    0int
                } else {
                    old(self).map@[cell_idx(x, y)] as int
                },
    {
        let (cx, cy) = position_to_grid_cell(pos, CELL_SIZE);
        let mut dx: usize = 0;
        while dx < 3
            invariant
                old(self).wf(),
                self.map@.len() == old(self).map@.len(),
                0 <= dx <= 3,
                cx == pos.x as int / CELL_SIZE as int,
                cy == pos.y as int / CELL_SIZE as int,
                0 <= cx <= CELLS,
                0 <= cy <= CELLS,
                forall|x: int, y: int|
                    0 <= x < CELLS && 0 <= y < CELLS ==> #[trigger] self.map@[cell_idx(x, y)]
                        == if cx - 1 <= x < cx - 1 + dx && cy - 1 <= y <= cy + 1 {
                        0int
                    } else {
                        old(self).map@[cell_idx(x, y)] as int
                    },
            decreases 3 - dx,
        {
            let mut dy: usize = 0;
            while dy < 3
                invariant
                    old(self).wf(),
                    self.map@.len() == old(self).map@.len(),
                    0 <= dx < 3,
                    0 <= dy <= 3,
                    cx == pos.x as int / CELL_SIZE as int,
                    cy == pos.y as int / CELL_SIZE as int,
                    0 <= cx <= CELLS,
                    0 <= cy <= CELLS,
                    forall|x: int, y: int|
                        0 <= x < CELLS && 0 <= y < CELLS ==> #[trigger] self.map@[cell_idx(x, y)]
                            == if (cx - 1 <= x < cx - 1 + dx && cy - 1 <= y <= cy + 1) || (x == cx
                            - 1 + dx && cy - 1 <= y < cy - 1 + dy) {
                            0int
                        } else {
                            old(self).map@[cell_idx(x, y)] as int
                        },
                decreases 3 - dy,
            {
                let x = cx + dx;
                let y = cy + dy;
                if x >= 1 && x <= CELLS && y >= 1 && y <= CELLS {
                    let xi = x - 1;
                    let yi = y - 1;
                    if xi < CELLS && yi < CELLS {
                        self.map.set(xi * CELLS + yi, 0);
                        proof {
                            assert(cell_idx(xi as int, yi as int) == xi * CELLS + yi);
                        }
                    }
                }
                dy = dy + 1;
            }
            dx = dx + 1;
        }
        proof {
            assert forall|k: int| 0 <= k < self.map@.len() implies 0 <= #[trigger] self.map@[k]
                <= GRID_UNIT by {
                let x = k / (CELLS as int);
                let y = k % (CELLS as int);
                assert(0 <= x < CELLS && 0 <= y < CELLS);
                assert(cell_idx(x, y) == k);
                assert(old(self).map@[k] == old(self).map@[k]);
            }
        }
    }

    /// Staleness of cell `(x, y)`.
    pub fn get_score_by_idx(&self, x: usize, y: usize) -> (r: i64)
        requires
            self.wf(),
            x < CELLS,
            y < CELLS,
        ensures
            r == self.map@[cell_idx(x as int, y as int)],
            0 <= r <= GRID_UNIT,
    {
        self.map[x * CELLS + y]
    }

    /// Staleness of the cell containing `pos`.
    pub fn get_score(&self, pos: Vec2) -> (r: i64)
        requires
            self.wf(),
            0 <= pos.x < MAP_SIZE,
            0 <= pos.y < MAP_SIZE,
        ensures
            r == self.map@[cell_of(pos)],
            0 <= r <= GRID_UNIT,
    {
        let (x, y) = position_to_grid_cell(pos, CELL_SIZE);
        self.map[x * CELLS + y]
    }
}

/// Upper bound, in whole points, of a single entity's economic value.
pub const MAX_COST: i64 = 20;

/// Fixed-point scale of value-grid cells (thousandths of a point).
pub const VALUE_UNIT: i64 = 1000;

/// Economic value of one entity: base value by class, doubled while the
/// opponent has not banked it, plus set-completion bonuses where this entity
/// would complete a set: banking it as the player's fourth of its class is
/// worth 4 more (8 while the opponent's quartet is still open), and as the
/// player's third of its color 3 more (6 while the opponent's triple is
/// still open).
pub open spec fn creature_cost_spec(w: World, c: Creature) -> int {
    let base = (c.typ + 1) * (if !contains_id(w.opponent.scans@, c.id) {
        2int
    } else {
        1int
    });
    let type_bonus = if count_typ(w.creatures@, w.me.scans@, c.typ) == 3 {
        4 + if count_typ(w.creatures@, w.opponent.scans@, c.typ) < 4 {
            4int
        } else {
            0int
        }
    } else {
        0int
    };
    let color_bonus = if count_col(w.creatures@, w.me.scans@, c.color) == 2 {
        3 + if count_col(w.creatures@, w.opponent.scans@, c.color) < 3 {
            3int
        } else {
            0int
        }
    } else {
        0int
    };
    base + type_bonus + color_bonus
}

/// Economic value of one entity, in whole points.
pub fn calculate_creature_cost(c: &Creature, world: &World) -> (r: i64)
    requires
        world.wf(),
        0 <= c.typ <= 2,
    ensures
        r == creature_cost_spec(*world, *c),
        1 <= r <= MAX_COST,
{
    let mut cost: i64 = (c.typ as i64) + 1;
    if !contains_scan(&world.opponent.scans, c.id) {
        cost = cost * 2;
    }
    let my_type_count = world.count_scans_of_typ(&world.me.scans, c.typ);
    if my_type_count == 3 {
        cost = cost + 4;
        let opponent_type_count = world.count_scans_of_typ(&world.opponent.scans, c.typ);
        if opponent_type_count < 4 {
            cost = cost + 4;
        }
    }
    let my_col_count = world.count_scans_of_col(&world.me.scans, c.color);
    if my_col_count == 2 {
        cost = cost + 3;
        let opponent_col_count = world.count_scans_of_col(&world.opponent.scans, c.color);
        if opponent_col_count < 3 {
            cost = cost + 3;
        }
    }
    cost
}

/// Whether one of the player's own drones holds an unbanked scan of `id`.
pub open spec fn in_someone_scan(w: World, id: i32) -> bool {
    exists|d: int|
        0 <= d < w.me.drones@.len() && contains_id((#[trigger] w.me.drones@[d]).scans@, id)
}

/// Whether a hint list mentions `id`.
pub open spec fn blips_mention(blips: Seq<(i32, crate::world::BlipDirection)>, id: i32) -> bool {
    exists|k: int| 0 <= k < blips.len() && (#[trigger] blips[k]).0 == id
}

/// Whether the entity is still tracked: some owned drone received a hint
/// about it this turn.
pub open spec fn is_alive(w: World, id: i32) -> bool {
    exists|d: int|
        0 <= d < w.me.drones@.len() && blips_mention((#[trigger] w.me.drones@[d]).blips@, id)
}

/// An entity spreads value over the grid while it is economic, hinted at,
/// and not yet scanned by the player or one of the player's drones.
pub open spec fn value_qualifies(w: World, c: Creature) -> bool {
    &&& c.typ != -1
    &&& !in_someone_scan(w, c.id)
    &&& is_alive(w, c.id)
    &&& !contains_id(w.me.scans@, c.id)
}

/// The all-zero grid.
pub open spec fn zero_grid() -> Seq<i64> {
    Seq::new((CELLS * CELLS) as nat, |k: int| 0i64)
}

/// Column range `[sx, ex)` and row range `[sy, ey)` of the cells a bound
/// rectangle overlaps.
pub open spec fn rect_sx(b: Bounds) -> int {
    b.top_left.x as int / CELL_SIZE as int
}

pub open spec fn rect_sy(b: Bounds) -> int {
    b.top_left.y as int / CELL_SIZE as int
}

pub open spec fn rect_ex(b: Bounds) -> int {
    let e = b.bot_right.x as int / CELL_SIZE as int + 1;
    if e <= CELLS {
        e
    } else {
        CELLS as int
    }
}

pub open spec fn rect_ey(b: Bounds) -> int {
    let e = b.bot_right.y as int / CELL_SIZE as int + 1;
    if e <= CELLS {
        e
    } else {
        CELLS as int
    }
}

/// The grid after spreading a value of `cost` points uniformly (in
/// fixed-point thousandths, rounded down) over the cells overlapped by `b`;
/// a rectangle overlapping no cell spreads nothing.
pub open spec fn spread_value(s: Seq<i64>, b: Bounds, cost: int) -> Seq<i64> {
    let sx = rect_sx(b);
    let sy = rect_sy(b);
    let ex = rect_ex(b);
    let ey = rect_ey(b);
    if sx < ex && sy < ey {
        let amount = cost * VALUE_UNIT / ((ex - sx) * (ey - sy));
        Seq::new(
            s.len(),
            |k: int|
                if sx <= k / (CELLS as int) < ex && sy <= k % (CELLS as int) < ey {
                    (s[k] + amount) as i64
                } else {
                    s[k]
                },
        )
    } else {
        s
    }
}

/// The value grid after the first `n` catalogue entries have been processed.
pub open spec fn value_fold(w: World, bd: Seq<(i32, Bounds)>, n: int) -> Seq<i64>
    decreases n,
{
    if n <= 0 {
        zero_grid()
    } else {
        let prev = value_fold(w, bd, n - 1);
        let c = w.creatures@[n - 1];
        if value_qualifies(w, c) {
            spread_value(prev, bound_of(bd, c.id), creature_cost_spec(w, c))
        } else {
            prev
        }
    }
}

pub proof fn lemma_value_fold_wf(w: World, bd: Seq<(i32, Bounds)>, n: int)
    requires
        w.wf(),
        0 <= n <= w.creatures@.len(),
        w.creatures@.len() <= 1000,
    ensures
        value_fold(w, bd, n).len() == CELLS * CELLS,
        forall|k: int|
            0 <= k < CELLS * CELLS ==> 0 <= #[trigger] value_fold(w, bd, n)[k] <= MAX_COST
                * VALUE_UNIT * n,
    decreases n,
{
    if n <= 0 {
    } else {
        lemma_value_fold_wf(w, bd, n - 1);
        let prev = value_fold(w, bd, n - 1);
        let cur = value_fold(w, bd, n);
        let c = w.creatures@[n - 1];
        if value_qualifies(w, c) {
            let b = bound_of(bd, c.id);
            let cost = creature_cost_spec(w, c);
            assert(w.creatures@[n - 1].wf());
            lemma_count_typ_nonneg(w.creatures@, w.me.scans@, c.typ);
            lemma_count_col_nonneg(w.creatures@, w.me.scans@, c.color);
            assert(1 <= cost <= MAX_COST);
            let sx = rect_sx(b);
            let sy = rect_sy(b);
            let ex = rect_ex(b);
            let ey = rect_ey(b);
            if sx < ex && sy < ey {
                assert((ex - sx) * (ey - sy) >= 1) by (nonlinear_arith)
                    requires
                        ex - sx >= 1,
                        ey - sy >= 1,
                ;
                let cnt = (ex - sx) * (ey - sy);
                let amount = cost * VALUE_UNIT / cnt;
                assert(0 <= amount <= MAX_COST * VALUE_UNIT) by {
                    vstd::arithmetic::div_mod::lemma_div_nonincreasing(cost * VALUE_UNIT, cnt);
                    vstd::arithmetic::div_mod::lemma_div_pos_is_pos(cost * VALUE_UNIT, cnt);
                }
                assert forall|k: int| 0 <= k < CELLS * CELLS implies 0 <= #[trigger] cur[k]
                    <= MAX_COST * VALUE_UNIT * n by {
                    assert(0 <= prev[k] <= MAX_COST * VALUE_UNIT * (n - 1));
                    if sx <= k / (CELLS as int) < ex && sy <= k % (CELLS as int) < ey {
                        assert(cur[k] == prev[k] + amount);
                    } else {
                        assert(cur[k] == prev[k]);
                    }
                }
            } else {
                assert forall|k: int| 0 <= k < CELLS * CELLS implies 0 <= #[trigger] cur[k]
                    <= MAX_COST * VALUE_UNIT * n by {
                    assert(0 <= prev[k] <= MAX_COST * VALUE_UNIT * (n - 1));
                }
            }
        } else {
            assert forall|k: int| 0 <= k < CELLS * CELLS implies 0 <= #[trigger] cur[k] <= MAX_COST
                * VALUE_UNIT * n by {
                assert(0 <= prev[k] <= MAX_COST * VALUE_UNIT * (n - 1));
            }
        }
    }
}

/// Spatial spread of the remaining economic opportunity: each tracked,
/// unscanned entity's value divided uniformly over the grid cells its bound
/// rectangle overlaps. Cell scalars are fixed-point thousandths of a point.
pub struct ScoreMap {
    pub map: Vec<i64>,
}

impl ScoreMap {
    /// One scalar per cell, each within the bound the per-turn rebuild
    /// guarantees.
    pub open spec fn wf(self) -> bool {
        &&& self.map@.len() == CELLS * CELLS
        &&& forall|k: int|
            0 <= k < self.map@.len() ==> 0 <= #[trigger] self.map@[k] <= MAX_COST * VALUE_UNIT
                * 1000
    }

    /// Every cell starts at zero.
    pub fn new() -> (r: ScoreMap)
        ensures
            r.wf(),
            forall|k: int| 0 <= k < r.map@.len() ==> #[trigger] r.map@[k] == 0,
    {
        let mut v: Vec<i64> = Vec::new();
        let mut k: usize = 0;
        while k < CELLS * CELLS
            invariant
                v@.len() == k <= CELLS * CELLS,
                forall|j: int| 0 <= j < k ==> #[trigger] v@[j] == 0,
            decreases CELLS * CELLS - k,
        {
            v.push(0);
            k = k + 1;
        }
        ScoreMap { map: v }
    }

    fn is_in_someone_scan(id: i32, world: &World) -> (r: bool)
        ensures
            r == in_someone_scan(*world, id),
    {
        let nd = world.me.drones.len();
        let mut d: usize = 0;
        while d < nd
            invariant
                0 <= d <= nd == world.me.drones@.len(),
                forall|j: int|
                    0 <= j < d ==> !contains_id((#[trigger] world.me.drones@[j]).scans@, id),
            decreases nd - d,
        {
            if contains_scan(&world.me.drones[d].scans, id) {
                return true;
            }
            d = d + 1;
        }
        false
    }

    fn is_alive(id: i32, world: &World) -> (r: bool)
        ensures
            r == is_alive(*world, id),
    {
        let nd = world.me.drones.len();
        let mut d: usize = 0;
        while d < nd
            invariant
                0 <= d <= nd == world.me.drones@.len(),
                forall|j: int|
                    0 <= j < d ==> !blips_mention((#[trigger] world.me.drones@[j]).blips@, id),
            decreases nd - d,
        {
            let blips = &world.me.drones[d].blips;
            let nb = blips.len();
            let mut k: usize = 0;
            while k < nb
                invariant
                    0 <= d < nd == world.me.drones@.len(),
                    0 <= k <= nb == blips@.len(),
                    blips == &world.me.drones@[d as int].blips,
                    forall|j: int| 0 <= j < k ==> (#[trigger] blips@[j]).0 != id,
                decreases nb - k,
            {
                if blips[k].0 == id {
                    proof {
                        assert(blips_mention(world.me.drones@[d as int].blips@, id));
                    }
                    return true;
                }
                k = k + 1;
            }
            d = d + 1;
        }
        false
    }

    /// Rebuilds the grid for this turn: zero everywhere, then every
    /// qualifying entity adds its value, spread uniformly over the cells its
    /// bound rectangle overlaps.
    pub fn update(&mut self, world: &World, bounds_detector: &BoundsDetector)
        requires
            old(self).wf(),
            world.wf(),
            world.creatures@.len() <= 1000,
            bounds_detector.aligned(*world),
            BoundsDetector::all_in_map(bounds_detector.bounds@),
        ensures
            final(self).wf(),
            final(self).map@ == value_fold(
                *world,
                bounds_detector.bounds@,
                world.creatures@.len() as int,
            ),
    {
        let mut fresh: Vec<i64> = Vec::new();
        let mut k: usize = 0;
        while k < CELLS * CELLS
            invariant
                fresh@.len() == k <= CELLS * CELLS,
                forall|j: int| 0 <= j < k ==> #[trigger] fresh@[j] == 0,
            decreases CELLS * CELLS - k,
        {
            fresh.push(0);
            k = k + 1;
        }
        self.map = fresh;
        proof {
            assert(self.map@ =~= zero_grid());
        }
        let ghost bd = bounds_detector.bounds@;
        let nc = world.creatures.len();
        let mut i: usize = 0;
        while i < nc
            invariant
                world.wf(),
                world.creatures@.len() <= 1000,
                bounds_detector.aligned(*world),
                BoundsDetector::all_in_map(bounds_detector.bounds@),
                bd == bounds_detector.bounds@,
                0 <= i <= nc == world.creatures@.len(),
                self.map@ == value_fold(*world, bd, i as int),
                self.map@.len() == CELLS * CELLS,
            decreases nc - i,
        {
            let c = &world.creatures[i];
            let qualifies = c.typ != -1 && !Self::is_in_someone_scan(c.id, world)
                && Self::is_alive(c.id, world) && !contains_scan(&world.me.scans, c.id);
            if qualifies {
                proof {
                    assert(world.creatures@[i as int].wf());
                    assert forall|a: int, b: int|
                        0 <= a < b < bd.len() implies (#[trigger] bd[a]).0 != (
                    #[trigger] bd[b]).0 by {
                        assert(bd[a].0 == world.creatures@[a].id);
                        assert(bd[b].0 == world.creatures@[b].id);
                    }
                    assert(bd[i as int].0 == c.id);
                    assert(crate::bounds_detector::has_bound(bd, c.id));
                }
                let cost = calculate_creature_cost(c, world);
                let b = *bounds_detector.get_bounds(c.id);
                proof {
                    let j = choose|j: int| 0 <= j < bd.len() && (#[trigger] bd[j]).0 == c.id;
                    assert(bd[j].1.in_map());
                    assert(b.in_map());
                }
                let sx = ((b.top_left.x as u64) / (CELL_SIZE as u64)) as i64;
                let sy = ((b.top_left.y as u64) / (CELL_SIZE as u64)) as i64;
                let mut ex = ((b.bot_right.x as u64) / (CELL_SIZE as u64)) as i64 + 1;
                let mut ey = ((b.bot_right.y as u64) / (CELL_SIZE as u64)) as i64 + 1;
                if ex > CELLS as i64 {
                    ex = CELLS as i64;
                }
                if ey > CELLS as i64 {
                    ey = CELLS as i64;
                }
                assert(sx == rect_sx(b) && sy == rect_sy(b) && ex == rect_ex(b) && ey == rect_ey(
                    b,
                ));
                let ghost prev = self.map@;
                proof {
                    lemma_value_fold_wf(*world, bd, i as int);
                }
                if sx < ex && sy < ey {
                    assert(1 <= (ex - sx) * (ey - sy) <= 400) by (nonlinear_arith)
                        requires
                            1 <= ex - sx <= 20,
                            1 <= ey - sy <= 20,
                    ;
                    let cnt = (ex - sx) * (ey - sy);
                    let q64 = (cost as u64 * (VALUE_UNIT as u64)) / (cnt as u64);
                    proof {
                        vstd::arithmetic::div_mod::lemma_div_nonincreasing(
                            cost as int * VALUE_UNIT as int,
                            cnt as int,
                        );
                        vstd::arithmetic::div_mod::lemma_div_pos_is_pos(
                            cost as int * VALUE_UNIT as int,
                            cnt as int,
                        );
                    }
                    assert(q64 <= MAX_COST * VALUE_UNIT);
                    let amount = q64 as i64;
                    assert(amount == cost as int * VALUE_UNIT as int / (cnt as int));
                    proof {
                        lemma_value_fold_wf(*world, bd, i as int);
                    }
                    let mut k: usize = 0;
                    while k < CELLS * CELLS
                        invariant
                            0 <= k <= CELLS * CELLS,
                            self.map@.len() == CELLS * CELLS,
                            prev.len() == CELLS * CELLS,
                            0 <= amount <= MAX_COST * VALUE_UNIT,
                            forall|j: int|
                                0 <= j < prev.len() ==> 0 <= #[trigger] prev[j] <= MAX_COST
                                    * VALUE_UNIT * 1000,
                            forall|j: int|
                                0 <= j < k ==> #[trigger] self.map@[j] == (if sx <= j / (
                                CELLS as int) < ex && sy <= j % (CELLS as int) < ey {
                                    (prev[j] + amount) as i64
                                } else {
                                    prev[j]
                                }),
                            forall|j: int| k <= j < prev.len() ==> #[trigger] self.map@[j]
                                == prev[j],
                        decreases CELLS * CELLS - k,
                    {
                        let x = (k / CELLS) as i64;
                        let y = (k % CELLS) as i64;
                        if sx <= x && x < ex && sy <= y && y < ey {
                            let v = self.map[k];
                            self.map.set(k, v + amount);
                        }
                        k = k + 1;
                    }
                    proof {
                        assert(self.map@ =~= spread_value(prev, b, cost as int));
                    }
                } else {
                    proof {
                        assert(self.map@ == spread_value(prev, b, cost as int));
                    }
                }
                proof {
                    assert(b == bound_of(bd, c.id));
                    assert(self.map@ == value_fold(*world, bd, i as int + 1));
                }
            } else {
                proof {
                    assert(self.map@ == value_fold(*world, bd, i as int + 1));
                }
            }
            i = i + 1;
        }
        proof {
            lemma_value_fold_wf(*world, bd, nc as int);
        }
    }

    /// Value density of the cell containing `pos`.
    pub fn get_score(&self, pos: Vec2) -> (r: i64)
        requires
            self.wf(),
            0 <= pos.x < MAP_SIZE,
            0 <= pos.y < MAP_SIZE,
        ensures
            r == self.map@[cell_of(pos)],
            0 <= r,
    {
        let (x, y) = position_to_grid_cell(pos, CELL_SIZE);
        self.map[x * CELLS + y]
    }

    /// Value density of cell `(x, y)`.
    pub fn get_score_by_idx(&self, x: usize, y: usize) -> (r: i64)
        requires
            self.wf(),
            x < CELLS,
            y < CELLS,
        ensures
            r == self.map@[cell_idx(x as int, y as int)],
            0 <= r,
    {
        self.map[x * CELLS + y]
    }
}

pub proof fn lemma_zero_at_positions_wf(s: Seq<i64>, ps: Seq<Vec2>)
    requires
        expl_wf(s),
        forall|i: int|
            0 <= i < ps.len() ==> 0 <= (#[trigger] ps[i]).x < MAP_SIZE && 0 <= ps[i].y < MAP_SIZE,
    ensures
        expl_wf(zero_at_positions(s, ps)),
    decreases ps.len(),
{
    if ps.len() > 0 {
        lemma_zero_at_positions_wf(s, ps.drop_last());
        let prev = zero_at_positions(s, ps.drop_last());
        let idx = cell_of(ps.last());
        assert(0 <= ps[ps.len() - 1].x < MAP_SIZE);
        assert(0 <= ps.last().x as int / CELL_SIZE as int <= 19);
        assert(0 <= ps.last().y as int / CELL_SIZE as int <= 19);
        assert(0 <= idx < 400);
        let cur = prev.update(idx, 0);
        assert forall|k: int| 0 <= k < cur.len() implies 0 <= #[trigger] cur[k] <= GRID_UNIT by {
            if k != idx {
                assert(cur[k] == prev[k]);
            }
        }
    }
}

} // verus!
