//! The trajectory search: an evolutionary local search over fixed-length
//! action sequences, scored by a deterministic forward simulator that
//! consumes the hazard tracker and the two grids. Headings are held as
//! integer direction vectors; scores in millionths of a point.

use vstd::prelude::*;

use crate::ext::{elapsed_millis, instant_now, rng_below};
use crate::maps::{cell_idx, ExplorationMap, ScoreMap, CELLS};
use crate::tracker::{Monster, Tracker};
use crate::vec2::{div_tz, div_trunc, Vec2};
use crate::world::{contains_id, count_col, count_typ, creature_of, has_creature, contains_scan,
    Drone, World, MAP_SIZE};

verus! {

/// Game units a drone moves per tick.
pub const MOVE_SPEED: i64 = 600;

/// Movement is simulated in two half-steps of this size.
pub const HALF_STEP: i64 = 300;

/// A drone above this depth banks its held scans.
pub const SURFACE_Y: i64 = 400;

/// Simulated drones must keep this distance from every predicted hazard.
pub const KILL_RADIUS: i64 = 1200;

/// Ticks per candidate trajectory.
pub const GENE_SIZE: usize = 25;

/// Genes kept after selection.
pub const POPULATION_SIZE: usize = 30;

/// Mutants added per generation, and ticks overwritten in each.
pub const MUTATIONS_SIZE: usize = 30;

pub const MUTATIONS_COUNT: usize = 3;

/// Fresh random genes added per generation.
pub const RANDOM_SIZE: usize = 10;

/// Crossover pairs tried per generation (each yields two children).
pub const CROSSOVER_SIZE: usize = 30;

/// Fixed-point scale of trajectory scores: millionths of a point.
pub const SCORE_UNIT: i64 = 1_000_000;

/// Points lost per tick and drone once dead.
pub const DEAD_PENALTY: i64 = 1000;

/// A light is worth using when the 3-by-3 neighborhood's potential exceeds
/// half a point.
pub const LIGHT_THRESHOLD: i64 = 500_000;

/// Battery cost of a lit tick, and the recharge of an unlit one.
pub const LIGHT_COST: i32 = 5;

/// Scale of a freshly drawn heading vector.
pub const DIR_SCALE: i64 = 1000;

/// Wall-clock budget of one turn's search, in milliseconds.
pub const TIME_BUDGET_MS: u64 = 40;

/// Hard cap on generations, so the search terminates even on a frozen clock.
pub const MAX_GENERATIONS: usize = 1_000_000;

/// Magnitude cap on every score accumulator; 25 ticks of accumulation stay
/// far below it.
pub const SCORE_LIMIT: i64 = 200_000_000_000_000;

/// Bound on what one simulated tick can add to any accumulator.
pub const TICK_DELTA: i64 = 2_000_000_000_000;

/// One tick's order for one drone: a heading (an integer direction vector
/// standing for the heading angle) and a light toggle.
#[derive(Clone, Copy, Debug)]
pub struct Action {
    pub dir: Vec2,
    pub light: bool,
}

impl Action {
    /// Headings stay at the unit scale, so every derived move fits.
    pub open spec fn wf(self) -> bool {
        -DIR_SCALE <= self.dir.x <= DIR_SCALE && -DIR_SCALE <= self.dir.y <= DIR_SCALE
    }

    pub fn get_light(&self) -> (r: bool)
        ensures
            r == self.light,
    {
        self.light
    }

    /// The move vector of fixed magnitude the heading stands for.
    pub fn get_move(&self) -> (r: Vec2)
        requires
            self.wf(),
        ensures
            r == self.dir.scaled_spec(MOVE_SPEED as int),
            -MOVE_SPEED <= r.x <= MOVE_SPEED,
            -MOVE_SPEED <= r.y <= MOVE_SPEED,
    {
        proof {
            crate::vec2::lemma_scaled_bounds(self.dir, MOVE_SPEED as int);
        }
        self.dir.scale_to(MOVE_SPEED)
    }
}

/// The fixed-point rotation of `v` by the angle whose cosine and sine are
/// `c / 1000` and `s / 1000`.
pub open spec fn rot_spec(v: Vec2, c: int, s: int) -> Vec2 {
    Vec2 {
        x: div_tz(v.x * c - v.y * s, 1000) as i64,
        y: div_tz(v.x * s + v.y * c, 1000) as i64,
    }
}

/// The action with its heading rotated (and renormalized to the unit scale).
pub open spec fn rotated_spec(a: Action, c: int, s: int) -> Action {
    Action { dir: rot_spec(a.dir, c, s).norm_spec(), light: a.light }
}

/// Rotates a heading by the fixed-point angle `(c, s)` and renormalizes it.
pub fn rotate_action(a: Action, c: i64, s: i64) -> (r: Action)
    requires
        a.wf(),
        -1000 <= c <= 1000,
        -1000 <= s <= 1000,
    ensures
        r == rotated_spec(a, c as int, s as int),
        r.wf(),
        r.light == a.light,
{
    let x = a.dir.x;
    let y = a.dir.y;
    assert(-1_000_000 <= x * c <= 1_000_000 && -1_000_000 <= y * s <= 1_000_000 && -1_000_000 <= x
        * s <= 1_000_000 && -1_000_000 <= y * c <= 1_000_000) by (nonlinear_arith)
        requires
            -1000 <= x <= 1000,
            -1000 <= y <= 1000,
            -1000 <= c <= 1000,
            -1000 <= s <= 1000,
    ;
    let rx = div_trunc(x * c - y * s, 1000);
    let ry = div_trunc(x * s + y * c, 1000);
    let raw = Vec2 { x: rx, y: ry };
    proof {
        crate::vec2::lemma_scaled_bounds(raw, crate::vec2::UNIT as int);
    }
    Action { dir: raw.norm(), light: a.light }
}

/// Partial score of one rollout, split by source, in millionths of a point.
#[derive(Clone, Copy, Debug)]
pub struct Score {
    pub saving_scans_score: i64,
    pub saving_urgent_scans_score: i64,
    pub exploration_score: i64,
    pub dead_score: i64,
}

impl Score {
    pub open spec fn wf(self) -> bool {
        &&& -SCORE_LIMIT <= self.saving_scans_score <= SCORE_LIMIT
        &&& -SCORE_LIMIT <= self.saving_urgent_scans_score <= SCORE_LIMIT
        &&& -SCORE_LIMIT <= self.exploration_score <= SCORE_LIMIT
        &&& -SCORE_LIMIT <= self.dead_score <= SCORE_LIMIT
    }

    pub open spec fn value_spec(self) -> int {
        self.saving_scans_score + self.saving_urgent_scans_score + self.exploration_score
            + self.dead_score
    }

    pub open spec fn zero_spec() -> Score {
        Score {
            saving_scans_score: 0,
            saving_urgent_scans_score: 0,
            exploration_score: 0,
            dead_score: 0,
        }
    }

    pub fn zero() -> (r: Score)
        ensures
            r == Score::zero_spec(),
    {
        Score {
            saving_scans_score: 0,
            saving_urgent_scans_score: 0,
            exploration_score: 0,
            dead_score: 0,
        }
    }

    /// The total the selection ranks by.
    pub fn value(&self) -> (r: i64)
        requires
            self.wf(),
        ensures
            r == self.value_spec(),
    {
        self.saving_scans_score + self.saving_urgent_scans_score + self.exploration_score
            + self.dead_score
    }
}

/// Per-drone state within one rollout. The battery reading recharges one
/// unit per unlit tick and is capped far above any value a 25-tick rollout
/// can reach.
#[derive(Clone, Copy, Debug)]
pub struct DroneState {
    pub pos: Vec2,
    pub bat: i32,
    pub dead: bool,
    pub base_scans_cost: i64,
    pub urgent_scans_cost: i64,
}

impl DroneState {
    pub open spec fn wf(self) -> bool {
        &&& 0 <= self.pos.x < MAP_SIZE
        &&& 0 <= self.pos.y < MAP_SIZE
        &&& 0 <= self.bat <= 100
        &&& 0 <= self.base_scans_cost <= 100_000
        &&& 0 <= self.urgent_scans_cost <= 100_000
    }
}

/// Shared rollout state: both drones, the cells already rewarded in this
/// rollout, and the accumulated score.
#[derive(Clone, Debug)]
pub struct GameState {
    pub drones: Vec<DroneState>,
    pub visited: Vec<bool>,
    pub score: Score,
    pub iter: i32,
}

/// Unfolds one step of the rollout fold.
pub proof fn lemma_gene_fold_step(
    ms: Seq<Monster>,
    em: Seq<i64>,
    vm: Seq<i64>,
    m0: SimModel,
    g0: Seq<(Action, Action)>,
    t: int,
)
    requires
        0 <= t,
    ensures
        gene_fold(ms, em, vm, m0, g0, t + 1).0 == pair_tick_spec(
            ms,
            em,
            vm,
            gene_fold(ms, em, vm, m0, g0, t).0,
            gene_fold(ms, em, vm, m0, g0, t).1[t],
            t + 1,
        ).0,
        gene_fold(ms, em, vm, m0, g0, t + 1).1 == gene_fold(ms, em, vm, m0, g0, t).1.update(
            t,
            pair_tick_spec(
                ms,
                em,
                vm,
                gene_fold(ms, em, vm, m0, g0, t).0,
                gene_fold(ms, em, vm, m0, g0, t).1[t],
                t + 1,
            ).1,
        ),
{
}

impl GameState {
    pub open spec fn wf(self) -> bool {
        &&& self.drones@.len() == 2
        &&& self.drones@[0].wf()
        &&& self.drones@[1].wf()
        &&& self.visited@.len() == CELLS * CELLS
        &&& self.score.wf()
    }
}

/// Running totals of the scan-profit estimate: banked value, urgent part,
/// and the per-class and per-color tallies that drive completion bonuses.
pub open spec fn profit_init_tc(w: World) -> Seq<int> {
    Seq::new(3, |t: int| count_typ(w.creatures@, w.me.scans@, t as i8))
}

pub open spec fn profit_init_cc(w: World) -> Seq<int> {
    Seq::new(4, |c: int| count_col(w.creatures@, w.me.scans@, c as i8))
}

/// The scan-profit estimate over the first `n` held scans: each adds its
/// base value (doubled into the urgent part while the opponent lacks it) and
/// the completion bonuses its tally crossings trigger.
pub open spec fn profit_spec(w: World, ids: Seq<i32>, n: int) -> (int, int, Seq<int>, Seq<int>)
    decreases n,
{
    if n <= 0 {
        (0int, 0int, profit_init_tc(w), profit_init_cc(w))
    } else {
        let (base, urgent, tc, cc) = profit_spec(w, ids, n - 1);
        let id = ids[n - 1];
        if has_creature(w.creatures@, id) {
            let c = creature_of(w.creatures@, id);
            if 0 <= c.typ <= 2 && 0 <= c.color <= 3 {
                let cost = c.typ + 1;
                let base1 = base + cost;
                let urgent1 = if !contains_id(w.opponent.scans@, id) {
                    urgent + cost
                } else {
                    urgent
                };
                let tc1 = tc.update(c.typ as int, tc[c.typ as int] + 1);
                let cc1 = cc.update(c.color as int, cc[c.color as int] + 1);
                let base2 = if tc1[c.typ as int] == 4 {
                    base1 + 4
                } else {
                    base1
                };
                let urgent2 = if tc1[c.typ as int] == 4 && count_typ(
                    w.creatures@,
                    w.opponent.scans@,
                    c.typ,
                ) < 4 {
                    urgent1 + 4
                } else {
                    urgent1
                };
                let base3 = if cc1[c.color as int] == 3 {
                    base2 + 3
                } else {
                    base2
                };
                let urgent3 = if cc1[c.color as int] == 3 && count_col(
                    w.creatures@,
                    w.opponent.scans@,
                    c.color,
                ) < 3 {
                    urgent2 + 3
                } else {
                    urgent2
                };
                (base3, urgent3, tc1, cc1)
            } else {
                (base, urgent, tc, cc)
            }
        } else {
            (base, urgent, tc, cc)
        }
    }
}

pub proof fn lemma_profit_bounds(w: World, ids: Seq<i32>, n: int)
    requires
        0 <= n <= ids.len(),
    ensures
        0 <= profit_spec(w, ids, n).0 <= 10 * n,
        0 <= profit_spec(w, ids, n).1 <= profit_spec(w, ids, n).0,
    decreases n,
{
    if n > 0 {
        lemma_profit_bounds(w, ids, n - 1);
    }
}

/// Ghost mirror of a rollout state, over mathematical sequences.
pub struct SimModel {
    pub drones: Seq<DroneState>,
    pub visited: Seq<bool>,
    pub score: Score,
    pub iter: int,
}

impl GameState {
    pub open spec fn model(self) -> SimModel {
        SimModel {
            drones: self.drones@,
            visited: self.visited@,
            score: self.score,
            iter: self.iter as int,
        }
    }
}

/// A position clamped into the playable area the simulator uses.
pub open spec fn clamp_play(p: Vec2) -> Vec2 {
    p.clamp_spec(Vec2 { x: 0, y: 0 }, Vec2 { x: (MAP_SIZE - 1) as i64, y: (MAP_SIZE - 1) as i64 })
}

/// Exploration payoff of one grid cell: staleness times value, at 1/100th
/// weight when the cell was already rewarded in this rollout.
pub open spec fn cell_gain(em: Seq<i64>, vm: Seq<i64>, visited: Seq<bool>, x: int, y: int) -> int {
    let k = cell_idx(x, y);
    let raw = em[k] * vm[k];
    if visited[k] {
        raw / 100
    } else {
        raw
    }
}

pub open spec fn cell_gain_clipped(
    em: Seq<i64>,
    vm: Seq<i64>,
    visited: Seq<bool>,
    x: int,
    y: int,
) -> int {
    if 0 <= x < CELLS && 0 <= y < CELLS {
        cell_gain(em, vm, visited, x, y)
    } else {
        0
    }
}

/// Exploration potential of the 3-by-3 neighborhood of cell `(x, y)`.
pub open spec fn light_sum(em: Seq<i64>, vm: Seq<i64>, visited: Seq<bool>, x: int, y: int) -> int {
    cell_gain_clipped(em, vm, visited, x - 1, y - 1) + cell_gain_clipped(em, vm, visited, x - 1, y)
        + cell_gain_clipped(em, vm, visited, x - 1, y + 1) + cell_gain_clipped(em, vm, visited, x, y - 1)
        + cell_gain_clipped(em, vm, visited, x, y) + cell_gain_clipped(em, vm, visited, x, y + 1)
        + cell_gain_clipped(em, vm, visited, x + 1, y - 1) + cell_gain_clipped(em, vm, visited, x + 1, y)
        + cell_gain_clipped(em, vm, visited, x + 1, y + 1)
}

/// The rollout's visited set with the 3-by-3 neighborhood of `(x, y)` marked.
pub open spec fn mark3_spec(visited: Seq<bool>, x: int, y: int) -> Seq<bool> {
    Seq::new(
        visited.len(),
        |k: int|
            if x - 1 <= k / (CELLS as int) <= x + 1 && y - 1 <= k % (CELLS as int) <= y + 1 {
                true
            } else {
                visited[k]
            },
    )
}

/// Whether point `p` keeps the kill distance from every predicted hazard.
pub open spec fn safe_from_all(ms: Seq<Monster>, p: Vec2) -> bool {
    forall|j: int| 0 <= j < ms.len() ==> (#[trigger] ms[j]).pos.sub_spec(p).len_spec()
        >= KILL_RADIUS
}

/// Where a full-speed move with heading `a` from `pos` ends up.
pub open spec fn move_target(pos: Vec2, a: Action) -> Vec2 {
    clamp_play(pos.add_spec(a.dir.scaled_spec(MOVE_SPEED as int)))
}

/// The collision-avoidance candidate list: the proposed heading, then the
/// fixed fallback rotations (-60, +60, +120, -120, 180 degrees), in order.
pub open spec fn cand_spec(a: Action, k: int) -> Action {
    if k == 0 {
        a
    } else if k == 1 {
        rotated_spec(a, 500, -866)
    } else if k == 2 {
        rotated_spec(a, 500, 866)
    } else if k == 3 {
        rotated_spec(a, -500, 866)
    } else if k == 4 {
        rotated_spec(a, -500, -866)
    } else {
        rotated_spec(a, -1000, 0)
    }
}

/// Index of the first safe candidate at or after `k`, or 6 when none is.
pub open spec fn first_safe(ms: Seq<Monster>, pos: Vec2, a: Action, k: int) -> int
    decreases 6 - k,
{
    if k >= 6 {
        6
    } else if safe_from_all(ms, move_target(pos, cand_spec(a, k))) {
        k
    } else {
        first_safe(ms, pos, a, k + 1)
    }
}

/// The outcome of collision avoidance: the first safe candidate heading, or
/// the last candidate and death when every candidate collides.
pub open spec fn adjust_spec(ms: Seq<Monster>, pos: Vec2, a: Action) -> (Action, bool) {
    let k = first_safe(ms, pos, a, 0);
    if k < 6 {
        (cand_spec(a, k), false)
    } else {
        (cand_spec(a, 5), true)
    }
}

/// The survivor path of one simulated tick: two rewarded half-steps,
/// banking above the surface, the light decision, and the battery update,
/// for a drone that committed heading `a1`.
#[verifier::opaque]
pub open spec fn alive_tick_spec(
    ms: Seq<Monster>,
    em: Seq<i64>,
    vm: Seq<i64>,
    m: SimModel,
    i: int,
    a1: Action,
    iter: int,
) -> (SimModel, Action) {
    let d = m.drones[i];
    let half = a1.dir.scaled_spec(HALF_STEP as int);
    let p1 = clamp_play(d.pos.add_spec(half));
    let x1 = p1.x as int / 500;
    let y1 = p1.y as int / 500;
    let e1 = cell_gain(em, vm, m.visited, x1, y1);
    let v1 = m.visited.update(cell_idx(x1, y1), true);
    let p2 = clamp_play(p1.add_spec(half));
    let x2 = p2.x as int / 500;
    let y2 = p2.y as int / 500;
    let e2 = cell_gain(em, vm, v1, x2, y2);
    let v2 = v1.update(cell_idx(x2, y2), true);
    let banks = p2.y < SURFACE_Y;
    let save_add = if banks {
        d.base_scans_cost * SCORE_UNIT / iter
    } else {
        0int
    };
    let urgent_add = if banks {
        d.urgent_scans_cost * SCORE_UNIT / (iter * iter)
    } else {
        0int
    };
    let base1 = if banks {
        0int
    } else {
        d.base_scans_cost as int
    };
    let urgent1 = if banks {
        0int
    } else {
        d.urgent_scans_cost as int
    };
    let ls = light_sum(em, vm, v2, x2, y2);
    let light = d.bat >= LIGHT_COST && ls > LIGHT_THRESHOLD;
    let v3 = if light {
        mark3_spec(v2, x2, y2)
    } else {
        v2
    };
    let expl_add = e1 + e2 + if light {
        ls
    } else {
        0int
    };
    let bat1 = if light {
        d.bat - LIGHT_COST
    } else if d.bat < 100 {
        d.bat + 1
    } else {
        d.bat as int
    };
    (
        SimModel {
            drones: m.drones.update(
                i,
                DroneState {
                    pos: p2,
                    bat: bat1 as i32,
                    dead: false,
                    base_scans_cost: base1 as i64,
                    urgent_scans_cost: urgent1 as i64,
                },
            ),
            visited: v3,
            score: Score {
                saving_scans_score: (m.score.saving_scans_score + save_add) as i64,
                saving_urgent_scans_score: (m.score.saving_urgent_scans_score
                    + urgent_add) as i64,
                exploration_score: (m.score.exploration_score + expl_add) as i64,
                dead_score: m.score.dead_score,
            },
            iter: m.iter,
        },
        Action { dir: a1.dir, light },
    )
}

/// One simulated tick of one drone: the dead penalty for a dead drone;
/// otherwise collision avoidance, then the survivor path unless every
/// candidate heading collides.
#[verifier::opaque]
pub open spec fn drone_tick_spec(
    ms: Seq<Monster>,
    em: Seq<i64>,
    vm: Seq<i64>,
    m: SimModel,
    i: int,
    a: Action,
    iter: int,
) -> (SimModel, Action) {
    let d = m.drones[i];
    if d.dead {
        (
            SimModel {
                drones: m.drones,
                visited: m.visited,
                score: Score {
                    dead_score: (m.score.dead_score - DEAD_PENALTY * SCORE_UNIT) as i64,
                    saving_scans_score: m.score.saving_scans_score,
                    saving_urgent_scans_score: m.score.saving_urgent_scans_score,
                    exploration_score: m.score.exploration_score,
                },
                iter: m.iter,
            },
            a,
        )
    } else {
        let adj = adjust_spec(ms, d.pos, a);
        let a1 = adj.0;
        if adj.1 {
            (
                SimModel {
                    drones: m.drones.update(
                        i,
                        DroneState {
                            pos: d.pos,
                            bat: d.bat,
                            dead: true,
                            base_scans_cost: d.base_scans_cost,
                            urgent_scans_cost: d.urgent_scans_cost,
                        },
                    ),
                    visited: m.visited,
                    score: Score {
                        dead_score: (m.score.dead_score - DEAD_PENALTY * SCORE_UNIT) as i64,
                        saving_scans_score: m.score.saving_scans_score,
                        saving_urgent_scans_score: m.score.saving_urgent_scans_score,
                        exploration_score: m.score.exploration_score,
                    },
                    iter: m.iter,
                },
                a1,
            )
        } else {
            alive_tick_spec(ms, em, vm, m, i, a1, iter)
        }
    }
}

/// One simulated tick of both drones, in order.
#[verifier::opaque]
pub open spec fn pair_tick_spec(
    ms: Seq<Monster>,
    em: Seq<i64>,
    vm: Seq<i64>,
    m: SimModel,
    acts: (Action, Action),
    iter: int,
) -> (SimModel, (Action, Action)) {
    let r0 = drone_tick_spec(ms, em, vm, m, 0, acts.0, iter);
    let r1 = drone_tick_spec(ms, em, vm, r0.0, 1, acts.1, iter);
    (r1.0, (r0.1, r1.1))
}

/// A whole rollout: the first `t` ticks of the gene, tick `n` simulated with
/// tick index `n` (1-based), the gene rewritten with the headings and light
/// choices the simulator actually committed.
pub open spec fn gene_fold(
    ms: Seq<Monster>,
    em: Seq<i64>,
    vm: Seq<i64>,
    m: SimModel,
    gene: Seq<(Action, Action)>,
    t: int,
) -> (SimModel, Seq<(Action, Action)>)
    decreases t,
{
    if t <= 0 {
        (m, gene)
    } else {
        let prev = gene_fold(ms, em, vm, m, gene, t - 1);
        let r = pair_tick_spec(ms, em, vm, prev.0, prev.1[t - 1], t);
        (r.0, prev.1.update(t - 1, r.1))
    }
}

/// Estimates what banking this drone's held scans is worth: the base value
/// of each scan plus the completion bonuses it would trigger, with the part
/// the opponent does not hold counted again as urgent value.
pub fn estimate_drones_scans_profit(world: &World, drone: &Drone, state: &mut DroneState)
    requires
        world.wf(),
        drone.scans@.len() <= 1000,
        old(state).base_scans_cost == 0,
        old(state).urgent_scans_cost == 0,
    ensures
        final(state).base_scans_cost == profit_spec(*world, drone.scans@, drone.scans@.len() as int).0,
        final(state).urgent_scans_cost == profit_spec(
            *world,
            drone.scans@,
            drone.scans@.len() as int,
        ).1,
        0 <= final(state).base_scans_cost <= 10_000,
        0 <= final(state).urgent_scans_cost <= 10_000,
        final(state).pos == old(state).pos,
        final(state).bat == old(state).bat,
        final(state).dead == old(state).dead,
{
    proof {
        crate::world::lemma_count_typ_nonneg(world.creatures@, world.me.scans@, 0);
        crate::world::lemma_count_typ_nonneg(world.creatures@, world.me.scans@, 1);
        crate::world::lemma_count_typ_nonneg(world.creatures@, world.me.scans@, 2);
        crate::world::lemma_count_col_nonneg(world.creatures@, world.me.scans@, 0);
        crate::world::lemma_count_col_nonneg(world.creatures@, world.me.scans@, 1);
        crate::world::lemma_count_col_nonneg(world.creatures@, world.me.scans@, 2);
        crate::world::lemma_count_col_nonneg(world.creatures@, world.me.scans@, 3);
    }
    let mut t0 = world.count_scans_of_typ(&world.me.scans, 0) as i64;
    let mut t1 = world.count_scans_of_typ(&world.me.scans, 1) as i64;
    let mut t2 = world.count_scans_of_typ(&world.me.scans, 2) as i64;
    let mut c0 = world.count_scans_of_col(&world.me.scans, 0) as i64;
    let mut c1 = world.count_scans_of_col(&world.me.scans, 1) as i64;
    let mut c2 = world.count_scans_of_col(&world.me.scans, 2) as i64;
    let mut c3 = world.count_scans_of_col(&world.me.scans, 3) as i64;
    let mut base: i64 = 0;
    let mut urgent: i64 = 0;
    let n = drone.scans.len();
    let mut i: usize = 0;
    while i < n
        invariant
            world.wf(),
            0 <= i <= n == drone.scans@.len(),
            n <= 1000,
            base == profit_spec(*world, drone.scans@, i as int).0,
            urgent == profit_spec(*world, drone.scans@, i as int).1,
            t0 == profit_spec(*world, drone.scans@, i as int).2[0],
            t1 == profit_spec(*world, drone.scans@, i as int).2[1],
            t2 == profit_spec(*world, drone.scans@, i as int).2[2],
            c0 == profit_spec(*world, drone.scans@, i as int).3[0],
            c1 == profit_spec(*world, drone.scans@, i as int).3[1],
            c2 == profit_spec(*world, drone.scans@, i as int).3[2],
            c3 == profit_spec(*world, drone.scans@, i as int).3[3],
            profit_spec(*world, drone.scans@, i as int).2.len() == 3,
            profit_spec(*world, drone.scans@, i as int).3.len() == 4,
            0 <= base <= 10 * i,
            0 <= urgent <= base,
            t0 <= 10000 + i && t1 <= 10000 + i && t2 <= 10000 + i,
            c0 <= 10000 + i && c1 <= 10000 + i && c2 <= 10000 + i && c3 <= 10000 + i,
        decreases n - i,
    {
        proof {
            lemma_profit_bounds(*world, drone.scans@, i as int);
            lemma_profit_bounds(*world, drone.scans@, i as int + 1);
        }
        let id = drone.scans[i];
        let found = world.find_creature(id);
        match found {
            Some(c) => {
                proof {
                    world.lemma_found_is_creature_of(c);
                }
                if 0 <= c.typ && c.typ <= 2 && 0 <= c.color && c.color <= 3 {
                    let cost = (c.typ as i64) + 1;
                    base = base + cost;
                    if !contains_scan(&world.opponent.scans, id) {
                        urgent = urgent + cost;
                    }
                    let tcount: i64;
                    if c.typ == 0 {
                        t0 = t0 + 1;
                        tcount = t0;
                    } else if c.typ == 1 {
                        t1 = t1 + 1;
                        tcount = t1;
                    } else {
                        t2 = t2 + 1;
                        tcount = t2;
                    }
                    if tcount == 4 {
                        base = base + 4;
                        let opp = world.count_scans_of_typ(&world.opponent.scans, c.typ);
                        if opp < 4 {
                            urgent = urgent + 4;
                        }
                    }
                    let ccount: i64;
                    if c.color == 0 {
                        c0 = c0 + 1;
                        ccount = c0;
                    } else if c.color == 1 {
                        c1 = c1 + 1;
                        ccount = c1;
                    } else if c.color == 2 {
                        c2 = c2 + 1;
                        ccount = c2;
                    } else {
                        c3 = c3 + 1;
                        ccount = c3;
                    }
                    if ccount == 3 {
                        base = base + 3;
                        let opp = world.count_scans_of_col(&world.opponent.scans, c.color);
                        if opp < 3 {
                            urgent = urgent + 3;
                        }
                    }
                }
            },
            None => {},
        }
        i = i + 1;
    }
    proof {
        lemma_profit_bounds(*world, drone.scans@, n as int);
    }
    state.base_scans_cost = base;
    state.urgent_scans_cost = urgent;
}

/// Headroom bound under which one more simulated tick cannot overflow a
/// score accumulator.
pub const SCORE_BUDGET: i64 = 110_000_000_000_000;

/// Resolves the first-safe-candidate recursion against the six individual
/// safety checks.
pub proof fn lemma_first_safe_chain(
    ms: Seq<Monster>,
    pos: Vec2,
    a: Action,
    s0: bool,
    s1: bool,
    s2: bool,
    s3: bool,
    s4: bool,
    s5: bool,
)
    requires
        s0 == safe_from_all(ms, move_target(pos, cand_spec(a, 0))),
        s1 == safe_from_all(ms, move_target(pos, cand_spec(a, 1))),
        s2 == safe_from_all(ms, move_target(pos, cand_spec(a, 2))),
        s3 == safe_from_all(ms, move_target(pos, cand_spec(a, 3))),
        s4 == safe_from_all(ms, move_target(pos, cand_spec(a, 4))),
        s5 == safe_from_all(ms, move_target(pos, cand_spec(a, 5))),
    ensures
        first_safe(ms, pos, a, 0) == (if s0 {
            0int
        } else if s1 {
            1int
        } else if s2 {
            2int
        } else if s3 {
            3int
        } else if s4 {
            4int
        } else if s5 {
            5int
        } else {
            6int
        }),
{
    assert(first_safe(ms, pos, a, 6) == 6);
    assert(first_safe(ms, pos, a, 5) == if s5 {
        5int
    } else {
        first_safe(ms, pos, a, 6)
    });
    assert(first_safe(ms, pos, a, 4) == if s4 {
        4int
    } else {
        first_safe(ms, pos, a, 5)
    });
    assert(first_safe(ms, pos, a, 3) == if s3 {
        3int
    } else {
        first_safe(ms, pos, a, 4)
    });
    assert(first_safe(ms, pos, a, 2) == if s2 {
        2int
    } else {
        first_safe(ms, pos, a, 3)
    });
    assert(first_safe(ms, pos, a, 1) == if s1 {
        1int
    } else {
        first_safe(ms, pos, a, 2)
    });
    assert(first_safe(ms, pos, a, 0) == if s0 {
        0int
    } else {
        first_safe(ms, pos, a, 1)
    });
}

impl GameState {
    /// The rollout start state of this turn: both owned drones with their
    /// battery, emergency flag and estimated scan profit; nothing visited,
    /// nothing scored.
    pub fn new(world: &World) -> (r: GameState)
        requires
            world.wf(),
        ensures
            r.wf(),
            r.score == Score::zero_spec(),
            r.iter == world.iter,
            r.model() == start_model(*world),
            forall|k: int| 0 <= k < r.visited@.len() ==> !(#[trigger] r.visited@[k]),
            forall|i: int|
                0 <= i < 2 ==> {
                    let d = world.me.drones@[i];
                    let s = #[trigger] r.drones@[i];
                    &&& s.pos == d.pos
                    &&& s.bat == d.bat
                    &&& s.dead == (d.emergency == 1)
                    &&& s.base_scans_cost == profit_spec(*world, d.scans@, d.scans@.len() as int).0
                    &&& s.urgent_scans_cost == profit_spec(
                        *world,
                        d.scans@,
                        d.scans@.len() as int,
                    ).1
                },
    {
        let mut drones: Vec<DroneState> = Vec::new();
        let mut d: usize = 0;
        while d < 2
            invariant
                world.wf(),
                0 <= d <= 2,
                drones@.len() == d,
                forall|i: int|
                    0 <= i < d ==> {
                        let dr = world.me.drones@[i];
                        let s = #[trigger] drones@[i];
                        &&& s.pos == dr.pos
                        &&& s.bat == dr.bat
                        &&& s.dead == (dr.emergency == 1)
                        &&& s.base_scans_cost == profit_spec(
                            *world,
                            dr.scans@,
                            dr.scans@.len() as int,
                        ).0
                        &&& s.urgent_scans_cost == profit_spec(
                            *world,
                            dr.scans@,
                            dr.scans@.len() as int,
                        ).1
                        &&& s.wf()
                    },
            decreases 2 - d,
        {
            let drone = &world.me.drones[d];
            proof {
                assert(world.me.drones@[d as int].wf());
            }
            let mut ds = DroneState {
                pos: drone.pos,
                bat: drone.bat,
                dead: drone.emergency == 1,
                base_scans_cost: 0,
                urgent_scans_cost: 0,
            };
            estimate_drones_scans_profit(world, drone, &mut ds);
            drones.push(ds);
            d = d + 1;
        }
        let mut visited: Vec<bool> = Vec::new();
        let mut k: usize = 0;
        while k < CELLS * CELLS
            invariant
                visited@.len() == k <= CELLS * CELLS,
                forall|j: int| 0 <= j < k ==> !(#[trigger] visited@[j]),
            decreases CELLS * CELLS - k,
        {
            visited.push(false);
            k = k + 1;
        }
        let r = GameState { drones, visited, score: Score::zero(), iter: world.iter };
        proof {
            assert(r.drones@ =~= start_model(*world).drones);
            assert(r.visited@ =~= start_model(*world).visited);
        }
        r
    }
}

/// A scored trajectory: one action pair per tick.
#[derive(Clone, Debug)]
pub struct Gene {
    pub ticks: Vec<(Action, Action)>,
}

impl Gene {
    pub open spec fn wf(self) -> bool {
        &&& self.ticks@.len() == GENE_SIZE
        &&& forall|t: int|
            0 <= t < self.ticks@.len() ==> (#[trigger] self.ticks@[t]).0.wf()
                && self.ticks@[t].1.wf()
    }
}

/// The forward simulator of one turn: immutable views of the hazard tracker
/// and the two grids, plus rollout counters.
pub struct Simulation<'a> {
    pub tracker: &'a Tracker,
    pub exploration_map: &'a ExplorationMap,
    pub score_map: &'a ScoreMap,
    pub dead_simulations: i64,
    pub total_simulations: i64,
}

impl<'a> Simulation<'a> {
    pub open spec fn wf(self) -> bool {
        &&& crate::tracker::monsters_wf(self.tracker.monsters@)
        &&& self.exploration_map.wf()
        &&& self.score_map.wf()
    }

    pub fn new(
        tracker: &'a Tracker,
        exploration_map: &'a ExplorationMap,
        score_map: &'a ScoreMap,
    ) -> (r: Simulation<'a>)
        requires
            crate::tracker::monsters_wf(tracker.monsters@),
            exploration_map.wf(),
            score_map.wf(),
        ensures
            r.wf(),
            r.tracker == tracker,
            r.exploration_map == exploration_map,
            r.score_map == score_map,
            r.dead_simulations == 0,
            r.total_simulations == 0,
    {
        Simulation { tracker, exploration_map, score_map, dead_simulations: 0, total_simulations: 0 }
    }

    /// Exploration payoff of one in-range cell.
    fn cell_gain_at(&self, visited: &Vec<bool>, x: usize, y: usize) -> (r: i64)
        requires
            self.wf(),
            visited@.len() == CELLS * CELLS,
            x < CELLS,
            y < CELLS,
        ensures
            r == cell_gain(self.exploration_map.map@, self.score_map.map@, visited@, x as int, y as int),
            0 <= r <= 20_000_000_000,
    {
        let e = self.exploration_map.get_score_by_idx(x, y);
        let v = self.score_map.get_score_by_idx(x, y);
        assert(0 <= e * v <= 20_000_000_000) by (nonlinear_arith)
            requires
                0 <= e <= 1000,
                0 <= v <= 20_000_000,
        ;
        let raw = e * v;
        if visited[x * CELLS + y] {
            proof {
                vstd::arithmetic::div_mod::lemma_div_nonincreasing(raw as int, 100);
                vstd::arithmetic::div_mod::lemma_div_pos_is_pos(raw as int, 100);
            }
            ((raw as u64) / 100u64) as i64
        } else {
            raw
        }
    }

    /// Exploration payoff of a cell that may lie outside the grid.
    fn gain_clipped_at(&self, visited: &Vec<bool>, x: i64, y: i64) -> (r: i64)
        requires
            self.wf(),
            visited@.len() == CELLS * CELLS,
        ensures
            r == cell_gain_clipped(
                self.exploration_map.map@,
                self.score_map.map@,
                visited@,
                x as int,
                y as int,
            ),
            0 <= r <= 20_000_000_000,
    {
        if x >= 0 && x < CELLS as i64 && y >= 0 && y < CELLS as i64 {
            self.cell_gain_at(visited, x as usize, y as usize)
        } else {
            0
        }
    }

    /// Exploration potential of the 3-by-3 neighborhood of `(x, y)`.
    fn light_potential(&self, visited: &Vec<bool>, x: i64, y: i64) -> (r: i64)
        requires
            self.wf(),
            visited@.len() == CELLS * CELLS,
            -100 <= x <= 100,
            -100 <= y <= 100,
        ensures
            r == light_sum(
                self.exploration_map.map@,
                self.score_map.map@,
                visited@,
                x as int,
                y as int,
            ),
            0 <= r <= 180_000_000_000,
    {
        let mut acc: i64 = 0;
        acc = acc + self.gain_clipped_at(visited, x - 1, y - 1);
        acc = acc + self.gain_clipped_at(visited, x - 1, y);
        acc = acc + self.gain_clipped_at(visited, x - 1, y + 1);
        acc = acc + self.gain_clipped_at(visited, x, y - 1);
        acc = acc + self.gain_clipped_at(visited, x, y);
        acc = acc + self.gain_clipped_at(visited, x, y + 1);
        acc = acc + self.gain_clipped_at(visited, x + 1, y - 1);
        acc = acc + self.gain_clipped_at(visited, x + 1, y);
        acc = acc + self.gain_clipped_at(visited, x + 1, y + 1);
        acc
    }

    /// Whether `p` keeps the kill distance from every predicted hazard.
    fn is_safe(&self, p: Vec2) -> (r: bool)
        requires
            crate::tracker::monsters_wf(self.tracker.monsters@),
            -MAP_SIZE <= p.x <= MAP_SIZE,
            -MAP_SIZE <= p.y <= MAP_SIZE,
        ensures
            r == safe_from_all(self.tracker.monsters@, p),
    {
        let n = self.tracker.monsters.len();
        let mut j: usize = 0;
        while j < n
            invariant
                crate::tracker::monsters_wf(self.tracker.monsters@),
                -MAP_SIZE <= p.x <= MAP_SIZE,
                -MAP_SIZE <= p.y <= MAP_SIZE,
                0 <= j <= n == self.tracker.monsters@.len(),
                forall|t: int|
                    0 <= t < j ==> (#[trigger] self.tracker.monsters@[t]).pos.sub_spec(
                        p,
                    ).len_spec() >= KILL_RADIUS,
            decreases n - j,
        {
            let m = self.tracker.monsters[j];
            proof {
                assert(self.tracker.monsters@[j as int].wf());
            }
            if m.pos.sub(p).len() < KILL_RADIUS {
                return false;
            }
            j = j + 1;
        }
        true
    }

    /// Whether committing heading `a` from `pos` keeps the drone clear of
    /// every hazard.
    fn probe(&self, pos: Vec2, a: Action) -> (r: bool)
        requires
            crate::tracker::monsters_wf(self.tracker.monsters@),
            0 <= pos.x < MAP_SIZE,
            0 <= pos.y < MAP_SIZE,
            a.wf(),
        ensures
            r == safe_from_all(self.tracker.monsters@, move_target(pos, a)),
    {
        let target = a.get_move().add(pos).clamp(
            Vec2 { x: 0, y: 0 },
            Vec2 { x: MAP_SIZE - 1, y: MAP_SIZE - 1 },
        );
        assert(target == move_target(pos, a));
        self.is_safe(target)
    }

    /// Collision avoidance: commits the first of the six candidate headings
    /// that keeps the drone clear of every hazard, or marks the drone dead.
    #[verifier::rlimit(60)]
    fn adjust_drone_move(&self, state: &mut GameState, drone_idx: usize, action: &mut Action)
        requires
            crate::tracker::monsters_wf(self.tracker.monsters@),
            old(state).wf(),
            drone_idx < 2,
            old(action).wf(),
        ensures
            ({
                let adj = adjust_spec(
                    self.tracker.monsters@,
                    old(state).drones@[drone_idx as int].pos,
                    *old(action),
                );
                &&& *final(action) == adj.0
                &&& final(action).wf()
                &&& final(state).drones@ == old(state).drones@.update(
                    drone_idx as int,
                    DroneState {
                        pos: old(state).drones@[drone_idx as int].pos,
                        bat: old(state).drones@[drone_idx as int].bat,
                        dead: adj.1,
                        base_scans_cost: old(state).drones@[drone_idx as int].base_scans_cost,
                        urgent_scans_cost: old(state).drones@[drone_idx as int].urgent_scans_cost,
                    },
                )
                &&& final(state).visited == old(state).visited
                &&& final(state).score == old(state).score
                &&& final(state).iter == old(state).iter
                &&& final(state).wf()
            }),
    {
        let ghost ms = self.tracker.monsters@;
        let d = state.drones[drone_idx];
        let base = *action;
        let c1 = rotate_action(base, 500, -866);
        let c2 = rotate_action(base, 500, 866);
        let c3 = rotate_action(base, -500, 866);
        let c4 = rotate_action(base, -500, -866);
        let c5 = rotate_action(base, -1000, 0);
        let s0 = self.probe(d.pos, base);
        let s1 = self.probe(d.pos, c1);
        let s2 = self.probe(d.pos, c2);
        let s3 = self.probe(d.pos, c3);
        let s4 = self.probe(d.pos, c4);
        let s5 = self.probe(d.pos, c5);
        proof {
            lemma_first_safe_chain(ms, d.pos, base, s0, s1, s2, s3, s4, s5);
        }
        let chosen: Action;
        let dead: bool;
        if s0 {
            chosen = base;
            dead = false;
        } else if s1 {
            chosen = c1;
            dead = false;
        } else if s2 {
            chosen = c2;
            dead = false;
        } else if s3 {
            chosen = c3;
            dead = false;
        } else if s4 {
            chosen = c4;
            dead = false;
        } else if s5 {
            chosen = c5;
            dead = false;
        } else {
            chosen = c5;
            dead = true;
        }
        *action = chosen;
        state.drones.set(
            drone_idx,
            DroneState {
                pos: d.pos,
                bat: d.bat,
                dead,
                base_scans_cost: d.base_scans_cost,
                urgent_scans_cost: d.urgent_scans_cost,
            },
        );
    }

    /// Marks the 3-by-3 neighborhood of cell `(x, y)` as rewarded.
    fn mark_neighborhood(&self, visited: &mut Vec<bool>, x: i64, y: i64)
        requires
            old(visited)@.len() == CELLS * CELLS,
            -100 <= x <= 100,
            -100 <= y <= 100,
        ensures
            final(visited)@ == mark3_spec(old(visited)@, x as int, y as int),
    {
        let n = visited.len();
        let mut k: usize = 0;
        while k < n
            invariant
                0 <= k <= n == visited@.len(),
                n == CELLS * CELLS,
                old(visited)@.len() == n,
                -100 <= x <= 100,
                -100 <= y <= 100,
                forall|j: int|
                    0 <= j < k ==> #[trigger] visited@[j] == (if x - 1 <= j / (CELLS as int) <= x
                        + 1 && y - 1 <= j % (CELLS as int) <= y + 1 {
                        true
                    } else {
                        old(visited)@[j]
                    }),
                forall|j: int| k <= j < n ==> #[trigger] visited@[j] == old(visited)@[j],
            decreases n - k,
        {
            let cx = (k / CELLS) as i64;
            let cy = (k % CELLS) as i64;
            if x - 1 <= cx && cx <= x + 1 && y - 1 <= cy && cy <= y + 1 {
                visited.set(k, true);
            }
            k = k + 1;
        }
        proof {
            assert(visited@ =~= mark3_spec(old(visited)@, x as int, y as int));
        }
    }

    /// One simulated tick of one drone, matching `drone_tick_spec` exactly.
    fn sim_drone(&self, state: &mut GameState, drone_idx: usize, action: &mut Action, iter: usize)
        requires
            self.wf(),
            old(state).wf(),
            drone_idx < 2,
            old(action).wf(),
            1 <= iter <= GENE_SIZE,
            -SCORE_BUDGET <= old(state).score.saving_scans_score <= SCORE_BUDGET,
            -SCORE_BUDGET <= old(state).score.saving_urgent_scans_score <= SCORE_BUDGET,
            -SCORE_BUDGET <= old(state).score.exploration_score <= SCORE_BUDGET,
            -SCORE_BUDGET <= old(state).score.dead_score <= SCORE_BUDGET,
        ensures
            ({
                let r = drone_tick_spec(
                    self.tracker.monsters@,
                    self.exploration_map.map@,
                    self.score_map.map@,
                    old(state).model(),
                    drone_idx as int,
                    *old(action),
                    iter as int,
                );
                &&& final(state).model() == r.0
                &&& *final(action) == r.1
                &&& final(state).wf()
                &&& final(action).wf()
                &&& old(state).score.saving_scans_score - TICK_DELTA <= final(state).score.saving_scans_score <= old(state).score.saving_scans_score + TICK_DELTA
                &&& old(state).score.saving_urgent_scans_score - TICK_DELTA <= final(state).score.saving_urgent_scans_score <= old(state).score.saving_urgent_scans_score + TICK_DELTA
                &&& old(state).score.exploration_score - TICK_DELTA <= final(state).score.exploration_score <= old(state).score.exploration_score + TICK_DELTA
                &&& old(state).score.dead_score - TICK_DELTA <= final(state).score.dead_score <= old(state).score.dead_score + TICK_DELTA
            }),
    {
        proof {
            reveal(drone_tick_spec);
        }
        let ghost ms = self.tracker.monsters@;
        let ghost m0 = state.model();
        let ghost a0 = *action;
        let d = state.drones[drone_idx];
        if d.dead {
            state.score.dead_score = state.score.dead_score - DEAD_PENALTY * SCORE_UNIT;
            return ;
        }
        self.adjust_drone_move(state, drone_idx, action);
        if state.drones[drone_idx].dead {
            state.score.dead_score = state.score.dead_score - DEAD_PENALTY * SCORE_UNIT;
            return ;
        }
        proof {
            assert(*action == adjust_spec(ms, m0.drones[drone_idx as int].pos, a0).0);
            assert(state.drones@ =~= m0.drones);
            assert(state.model() == m0);
        }
        self.sim_drone_alive(state, drone_idx, action, iter);
    }

    /// The survivor path of one simulated tick, matching `alive_tick_spec`.
    #[verifier::rlimit(100)]
    fn sim_drone_alive(&self, state: &mut GameState, drone_idx: usize, action: &mut Action, iter: usize)
        requires
            self.wf(),
            old(state).wf(),
            drone_idx < 2,
            old(action).wf(),
            !old(state).drones@[drone_idx as int].dead,
            1 <= iter <= GENE_SIZE,
            -SCORE_BUDGET <= old(state).score.saving_scans_score <= SCORE_BUDGET,
            -SCORE_BUDGET <= old(state).score.saving_urgent_scans_score <= SCORE_BUDGET,
            -SCORE_BUDGET <= old(state).score.exploration_score <= SCORE_BUDGET,
            -SCORE_BUDGET <= old(state).score.dead_score <= SCORE_BUDGET,
        ensures
            ({
                let r = alive_tick_spec(
                    self.tracker.monsters@,
                    self.exploration_map.map@,
                    self.score_map.map@,
                    old(state).model(),
                    drone_idx as int,
                    *old(action),
                    iter as int,
                );
                &&& final(state).model() == r.0
                &&& *final(action) == r.1
                &&& final(state).wf()
                &&& final(action).wf()
                &&& old(state).score.saving_scans_score - TICK_DELTA <= final(state).score.saving_scans_score <= old(state).score.saving_scans_score + TICK_DELTA
                &&& old(state).score.saving_urgent_scans_score - TICK_DELTA <= final(state).score.saving_urgent_scans_score <= old(state).score.saving_urgent_scans_score + TICK_DELTA
                &&& old(state).score.exploration_score - TICK_DELTA <= final(state).score.exploration_score <= old(state).score.exploration_score + TICK_DELTA
                &&& old(state).score.dead_score - TICK_DELTA <= final(state).score.dead_score <= old(state).score.dead_score + TICK_DELTA
            }),
    {
        proof {
            reveal(alive_tick_spec);
        }
        let ghost ms = self.tracker.monsters@;
        let ghost em = self.exploration_map.map@;
        let ghost vm = self.score_map.map@;
        let ghost m0 = state.model();
        let ghost a0 = *action;
        let d = state.drones[drone_idx];
        let a1 = *action;
        let half = a1.dir.scale_to(HALF_STEP);
        proof {
            crate::vec2::lemma_scaled_bounds(a1.dir, HALF_STEP as int);
        }
        let p1 = d.pos.add(half).clamp(
            Vec2 { x: 0, y: 0 },
            Vec2 { x: MAP_SIZE - 1, y: MAP_SIZE - 1 },
        );
        let x1 = ((p1.x as u64) / 500) as usize;
        let y1 = ((p1.y as u64) / 500) as usize;
        assert(x1 < CELLS && y1 < CELLS);
        let e1 = self.cell_gain_at(&state.visited, x1, y1);
        state.visited.set(x1 * CELLS + y1, true);
        proof {
            assert(cell_idx(x1 as int, y1 as int) == x1 * CELLS + y1);
        }
        let p2 = p1.add(half).clamp(
            Vec2 { x: 0, y: 0 },
            Vec2 { x: MAP_SIZE - 1, y: MAP_SIZE - 1 },
        );
        let x2 = ((p2.x as u64) / 500) as usize;
        let y2 = ((p2.y as u64) / 500) as usize;
        assert(x2 < CELLS && y2 < CELLS);
        let e2 = self.cell_gain_at(&state.visited, x2, y2);
        state.visited.set(x2 * CELLS + y2, true);
        proof {
            assert(cell_idx(x2 as int, y2 as int) == x2 * CELLS + y2);
        }
        let banks = p2.y < SURFACE_Y;
        let mut save_add: i64 = 0;
        let mut urgent_add: i64 = 0;
        let mut base1: i64 = d.base_scans_cost;
        let mut urgent1: i64 = d.urgent_scans_cost;
        if banks {
            let num = (d.base_scans_cost as u64) * (SCORE_UNIT as u64);
            save_add = (num / (iter as u64)) as i64;
            let numu = (d.urgent_scans_cost as u64) * (SCORE_UNIT as u64);
            assert(1 <= iter * iter <= 625) by (nonlinear_arith)
                requires
                    1 <= iter <= 25,
            ;
            let sq = (iter * iter) as u64;
            urgent_add = (numu / sq) as i64;
            proof {
                vstd::arithmetic::div_mod::lemma_div_nonincreasing(
                    d.base_scans_cost * SCORE_UNIT,
                    iter as int,
                );
                vstd::arithmetic::div_mod::lemma_div_pos_is_pos(
                    d.base_scans_cost * SCORE_UNIT,
                    iter as int,
                );
                vstd::arithmetic::div_mod::lemma_div_nonincreasing(
                    d.urgent_scans_cost * SCORE_UNIT,
                    iter as int * iter as int,
                );
                vstd::arithmetic::div_mod::lemma_div_pos_is_pos(
                    d.urgent_scans_cost * SCORE_UNIT,
                    iter as int * iter as int,
                );
            }
            base1 = 0;
            urgent1 = 0;
        }
        let mut light = false;
        let mut ls: i64 = 0;
        if d.bat >= LIGHT_COST {
            ls = self.light_potential(&state.visited, x2 as i64, y2 as i64);
            light = ls > LIGHT_THRESHOLD;
        }
        if light {
            self.mark_neighborhood(&mut state.visited, x2 as i64, y2 as i64);
        }
        let expl_add = if light {
            e1 + e2 + ls
        } else {
            e1 + e2
        };
        let bat1 = if light {
            d.bat - LIGHT_COST
        } else if d.bat < 100 {
            d.bat + 1
        } else {
            d.bat
        };
        state.drones.set(
            drone_idx,
            DroneState {
                pos: p2,
                bat: bat1,
                dead: false,
                base_scans_cost: base1,
                urgent_scans_cost: urgent1,
            },
        );
        state.score.saving_scans_score = state.score.saving_scans_score + save_add;
        state.score.saving_urgent_scans_score = state.score.saving_urgent_scans_score + urgent_add;
        state.score.exploration_score = state.score.exploration_score + expl_add;
        *action = Action { dir: a1.dir, light };
        proof {
            let r = alive_tick_spec(ms, em, vm, m0, drone_idx as int, a0, iter as int);
            assert(state.drones@ =~= r.0.drones);
            assert(state.visited@ =~= r.0.visited);
            assert(state.model() == r.0);
        }
    }

    /// One simulated tick of both drones.
    fn simulate(&self, state: &mut GameState, acts: (Action, Action), iter: usize) -> (r: (
        Action,
        Action,
    ))
        requires
            self.wf(),
            old(state).wf(),
            acts.0.wf(),
            acts.1.wf(),
            1 <= iter <= GENE_SIZE,
            -SCORE_BUDGET + TICK_DELTA <= old(state).score.saving_scans_score <= SCORE_BUDGET
                - TICK_DELTA,
            -SCORE_BUDGET + TICK_DELTA <= old(state).score.saving_urgent_scans_score
                <= SCORE_BUDGET - TICK_DELTA,
            -SCORE_BUDGET + TICK_DELTA <= old(state).score.exploration_score <= SCORE_BUDGET
                - TICK_DELTA,
            -SCORE_BUDGET + TICK_DELTA <= old(state).score.dead_score <= SCORE_BUDGET - TICK_DELTA,
        ensures
            ({
                let t = pair_tick_spec(
                    self.tracker.monsters@,
                    self.exploration_map.map@,
                    self.score_map.map@,
                    old(state).model(),
                    acts,
                    iter as int,
                );
                &&& final(state).model() == t.0
                &&& r == t.1
                &&& final(state).wf()
                &&& r.0.wf()
                &&& r.1.wf()
                &&& old(state).score.saving_scans_score - 2 * TICK_DELTA <= final(state).score.saving_scans_score <= old(state).score.saving_scans_score + 2 * TICK_DELTA
                &&& old(state).score.saving_urgent_scans_score - 2 * TICK_DELTA <= final(state).score.saving_urgent_scans_score <= old(state).score.saving_urgent_scans_score + 2
                    * TICK_DELTA
                &&& old(state).score.exploration_score - 2 * TICK_DELTA <= final(state).score.exploration_score <= old(state).score.exploration_score + 2 * TICK_DELTA
                &&& old(state).score.dead_score - 2 * TICK_DELTA <= final(state).score.dead_score
                    <= old(state).score.dead_score + 2 * TICK_DELTA
            }),
    {
        proof {
            reveal(pair_tick_spec);
        }
        let mut a0 = acts.0;
        self.sim_drone(state, 0, &mut a0, iter);
        let mut a1 = acts.1;
        self.sim_drone(state, 1, &mut a1, iter);
        (a0, a1)
    }

    /// Scores a whole gene: simulates its ticks in order, rewriting the gene
    /// with the headings and light choices the simulator committed, and
    /// counts the rollout.
    #[verifier::rlimit(100)]
    pub fn simulate_all(&mut self, state: &mut GameState, gene: &mut Gene)
        requires
            self.wf(),
            old(state).wf(),
            old(gene).wf(),
            old(state).score == Score::zero_spec(),
        ensures
            ({
                let f = gene_fold(
                    old(self).tracker.monsters@,
                    old(self).exploration_map.map@,
                    old(self).score_map.map@,
                    old(state).model(),
                    old(gene).ticks@,
                    GENE_SIZE as int,
                );
                &&& final(state).model() == f.0
                &&& final(gene).ticks@ == f.1
                &&& final(state).wf()
                &&& final(gene).wf()
                &&& final(self).total_simulations == if old(self).total_simulations < i64::MAX {
                    old(self).total_simulations + 1
                } else {
                    old(self).total_simulations as int
                }
                &&& final(self).dead_simulations == if (f.0.drones[0].dead || f.0.drones[1].dead)
                    && old(self).dead_simulations < i64::MAX {
                    old(self).dead_simulations + 1
                } else {
                    old(self).dead_simulations as int
                }
            }),
            final(self).wf(),
            final(self).tracker == old(self).tracker,
            final(self).exploration_map == old(self).exploration_map,
            final(self).score_map == old(self).score_map,
    {
        let ghost ms = self.tracker.monsters@;
        let ghost em = self.exploration_map.map@;
        let ghost vm = self.score_map.map@;
        let ghost m0 = state.model();
        let ghost g0 = gene.ticks@;
        let mut t: usize = 0;
        while t < GENE_SIZE
            invariant
                self.wf(),
                0 <= t <= GENE_SIZE,
                ms == self.tracker.monsters@,
                em == self.exploration_map.map@,
                vm == self.score_map.map@,
                state.model() == gene_fold(ms, em, vm, m0, g0, t as int).0,
                gene.ticks@ == gene_fold(ms, em, vm, m0, g0, t as int).1,
                gene.ticks@.len() == GENE_SIZE,
                g0.len() == GENE_SIZE,
                state.wf(),
                forall|j: int|
                    0 <= j < gene.ticks@.len() ==> (#[trigger] gene.ticks@[j]).0.wf()
                        && gene.ticks@[j].1.wf(),
                -((2 * TICK_DELTA) * t) <= state.score.saving_scans_score <= (2 * TICK_DELTA)
                    * t,
                -((2 * TICK_DELTA) * t) <= state.score.saving_urgent_scans_score <= (2
                    * TICK_DELTA) * t,
                -((2 * TICK_DELTA) * t) <= state.score.exploration_score <= (2 * TICK_DELTA) * t,
                -((2 * TICK_DELTA) * t) <= state.score.dead_score <= (2 * TICK_DELTA) * t,
            decreases GENE_SIZE - t,
        {
            proof {
                assert((2 * TICK_DELTA) * t <= (2 * TICK_DELTA) * 24) by (nonlinear_arith)
                    requires
                        0 <= t <= 24,
                ;
            }
            proof {
                assert((2 * TICK_DELTA) * t <= 96_000_000_000_000) by (nonlinear_arith)
                    requires
                        0 <= t <= 24,
                ;
            }
            let pair = gene.ticks[t];
            let newpair = self.simulate(state, pair, t + 1);
            proof {
                assert((2 * TICK_DELTA) * (t + 1) == (2 * TICK_DELTA) * t + 2 * TICK_DELTA)
                    by (nonlinear_arith);
            }
            gene.ticks.set(t, newpair);
            proof {
                lemma_gene_fold_step(ms, em, vm, m0, g0, t as int);
            }
            t = t + 1;
        }
        if self.total_simulations < i64::MAX {
            self.total_simulations = self.total_simulations + 1;
        }
        let dead = state.drones[0].dead || state.drones[1].dead;
        if dead && self.dead_simulations < i64::MAX {
            self.dead_simulations = self.dead_simulations + 1;
        }
    }
}

/// The rollout start state `GameState::new` builds from a snapshot.
pub open spec fn start_model(w: World) -> SimModel {
    SimModel {
        drones: Seq::new(
            2,
            |i: int|
                DroneState {
                    pos: w.me.drones@[i].pos,
                    bat: w.me.drones@[i].bat,
                    dead: w.me.drones@[i].emergency == 1,
                    base_scans_cost: profit_spec(
                        w,
                        w.me.drones@[i].scans@,
                        w.me.drones@[i].scans@.len() as int,
                    ).0 as i64,
                    urgent_scans_cost: profit_spec(
                        w,
                        w.me.drones@[i].scans@,
                        w.me.drones@[i].scans@.len() as int,
                    ).1 as i64,
                },
        ),
        visited: Seq::new((CELLS * CELLS) as nat, |k: int| false),
        score: Score::zero_spec(),
        iter: w.iter as int,
    }
}

/// A population entry whose score is the simulator's own score of its gene:
/// some pre-simulation gene rolls out, from the turn's start state, to
/// exactly this score and this rewritten gene.
pub open spec fn scored_from(
    ms: Seq<Monster>,
    em: Seq<i64>,
    vm: Seq<i64>,
    m0: SimModel,
    e: (Score, Gene),
) -> bool {
    exists|g0: Seq<(Action, Action)>|
        g0.len() == GENE_SIZE && #[trigger] entry_from_gene(ms, em, vm, m0, g0, e)
}

/// The entry is exactly what rolling out the pre-simulation gene `g0` from
/// the turn's start state yields: its score and its rewritten ticks.
pub open spec fn entry_from_gene(
    ms: Seq<Monster>,
    em: Seq<i64>,
    vm: Seq<i64>,
    m0: SimModel,
    g0: Seq<(Action, Action)>,
    e: (Score, Gene),
) -> bool {
    &&& gene_fold(ms, em, vm, m0, g0, GENE_SIZE as int).0.score == e.0
    &&& gene_fold(ms, em, vm, m0, g0, GENE_SIZE as int).1 == e.1.ticks@
}

/// The safety-baseline gene: every tick of both drones points straight
/// toward the surface with the light off.
pub open spec fn baseline_ticks() -> Seq<(Action, Action)> {
    Seq::new(
        GENE_SIZE as nat,
        |t: int|
            (
                Action { dir: Vec2 { x: 0, y: -1000i64 }, light: false },
                Action { dir: Vec2 { x: 0, y: -1000i64 }, light: false },
            ),
    )
}

/// The gene that ages `prev` by one tick: its first tick dropped, every
/// later tick shifted forward, and an arbitrary fresh final tick.
pub open spec fn aged_from(g0: Seq<(Action, Action)>, prev: Seq<(Action, Action)>) -> bool {
    &&& g0.len() == GENE_SIZE
    &&& prev.len() == GENE_SIZE
    &&& forall|t: int| 0 <= t < GENE_SIZE - 1 ==> g0[t] == prev[t + 1]
}

/// The gene taking the first drone's action column from `a` and the second
/// drone's from `b`.
pub open spec fn crossed(a: Seq<(Action, Action)>, b: Seq<(Action, Action)>) -> Seq<
    (Action, Action),
> {
    Seq::new(GENE_SIZE as nat, |t: int| (a[t].0, b[t].1))
}

/// The entry is a rollout of some member of `src` aged by one tick.
pub open spec fn aged_entry_of(
    ms: Seq<Monster>,
    em: Seq<i64>,
    vm: Seq<i64>,
    m0: SimModel,
    prev: Seq<(Action, Action)>,
    e: (Score, Gene),
) -> bool {
    exists|g0: Seq<(Action, Action)>|
        #[trigger] aged_from(g0, prev) && entry_from_gene(ms, em, vm, m0, g0, e)
}

/// The head value dominates the rollout value of some one-tick aging of the
/// given previous gene.
pub open spec fn head_dominates_aged(
    ms: Seq<Monster>,
    em: Seq<i64>,
    vm: Seq<i64>,
    m0: SimModel,
    prev_ticks: Seq<(Action, Action)>,
    head_value: int,
) -> bool {
    exists|g0: Seq<(Action, Action)>|
        #[trigger] aged_from(g0, prev_ticks) && head_value >= gene_fold(
            ms,
            em,
            vm,
            m0,
            g0,
            GENE_SIZE as int,
        ).0.score.value_spec()
}

/// Dominance survives any increase of the head value.
pub proof fn lemma_dominates_mono(
    ms: Seq<Monster>,
    em: Seq<i64>,
    vm: Seq<i64>,
    m0: SimModel,
    prev_ticks: Seq<(Action, Action)>,
    v1: int,
    v2: int,
)
    requires
        head_dominates_aged(ms, em, vm, m0, prev_ticks, v1),
        v2 >= v1,
    ensures
        head_dominates_aged(ms, em, vm, m0, prev_ticks, v2),
{
    let g0 = choose|g0: Seq<(Action, Action)>|
        #[trigger] aged_from(g0, prev_ticks) && v1 >= gene_fold(
            ms,
            em,
            vm,
            m0,
            g0,
            GENE_SIZE as int,
        ).0.score.value_spec();
    assert(aged_from(g0, prev_ticks) && v2 >= gene_fold(
        ms,
        em,
        vm,
        m0,
        g0,
        GENE_SIZE as int,
    ).0.score.value_spec());
}

/// The entry is a rollout of a mutant: a member of `src` with at most three
/// ticks overwritten.
pub open spec fn mutant_of(
    ms: Seq<Monster>,
    em: Seq<i64>,
    vm: Seq<i64>,
    m0: SimModel,
    src: Seq<(Score, Gene)>,
    e: (Score, Gene),
) -> bool {
    exists|i0: int, g0: Seq<(Action, Action)>|
        0 <= i0 < src.len() && #[trigger] mutated_from(g0, src[i0].1.ticks@) && entry_from_gene(
            ms,
            em,
            vm,
            m0,
            g0,
            e,
        )
}

/// The two entries are rollouts of the two crossover children of a distinct
/// pair of members of `src`: each child keeps one parent's first-drone
/// action column and takes the other parent's second-drone column.
pub open spec fn cross_children_of(
    ms: Seq<Monster>,
    em: Seq<i64>,
    vm: Seq<i64>,
    m0: SimModel,
    src: Seq<(Score, Gene)>,
    e1: (Score, Gene),
    e2: (Score, Gene),
) -> bool {
    exists|i1: int, i2: int|
        0 <= i1 < src.len() && 0 <= i2 < src.len() && i1 != i2 && #[trigger] entry_from_gene(
            ms,
            em,
            vm,
            m0,
            crossed(src[i1].1.ticks@, src[i2].1.ticks@),
            e1,
        ) && entry_from_gene(ms, em, vm, m0, crossed(src[i2].1.ticks@, src[i1].1.ticks@), e2)
}

/// The gene equals `orig` except at the tick positions of some list of at
/// most three overwritten picks.
pub open spec fn mutated_from(g0: Seq<(Action, Action)>, orig: Seq<(Action, Action)>) -> bool {
    &&& g0.len() == GENE_SIZE
    &&& orig.len() == GENE_SIZE
    &&& exists|picks: Seq<int>|
        (#[trigger] picks.len()) == MUTATIONS_COUNT && forall|t: int|
            0 <= t < GENE_SIZE && !picks.contains(t) ==> #[trigger] g0[t] == orig[t]
}

/// Well-formedness of a whole population.
pub open spec fn pop_wf(p: Seq<(Score, Gene)>) -> bool {
    forall|i: int| 0 <= i < p.len() ==> (#[trigger] p[i]).0.wf() && p[i].1.wf()
}

/// Every entry of the population was scored by the simulator.
pub open spec fn pop_scored(
    ms: Seq<Monster>,
    em: Seq<i64>,
    vm: Seq<i64>,
    m0: SimModel,
    p: Seq<(Score, Gene)>,
) -> bool {
    forall|i: int| 0 <= i < p.len() ==> scored_from(ms, em, vm, m0, #[trigger] p[i])
}

/// Sorted by total score, best first.
pub open spec fn sorted_desc(p: Seq<(Score, Gene)>) -> bool {
    forall|i: int, j: int|
        0 <= i <= j < p.len() ==> (#[trigger] p[i]).0.value_spec() >= (#[trigger] p[j]).0.value_spec()
}

/// Inserting keeps all old elements, adds the new one, and nothing else.
pub proof fn lemma_insert_contains<T>(s: Seq<T>, pos: int, e: T)
    requires
        0 <= pos <= s.len(),
    ensures
        forall|x: T| s.contains(x) ==> #[trigger] s.insert(pos, e).contains(x),
        s.insert(pos, e).contains(e),
        forall|x: T| #[trigger] s.insert(pos, e).contains(x) ==> x == e || s.contains(x),
{
    let t = s.insert(pos, e);
    assert(t[pos] == e);
    assert forall|x: T| s.contains(x) implies #[trigger] t.contains(x) by {
        let i = choose|i: int| 0 <= i < s.len() && s[i] == x;
        if i < pos {
            assert(t[i] == x);
        } else {
            assert(t[i + 1] == x);
        }
    }
    assert forall|x: T| #[trigger] t.contains(x) implies x == e || s.contains(x) by {
        let i = choose|i: int| 0 <= i < t.len() && t[i] == x;
        if i < pos {
            assert(s[i] == x);
        } else if i > pos {
            assert(s[i - 1] == x);
        }
    }
}

/// A copy of a gene.
pub fn clone_gene(g: &Gene) -> (r: Gene)
    ensures
        r.ticks@ == g.ticks@,
{
    let n = g.ticks.len();
    let mut out: Vec<(Action, Action)> = Vec::new();
    let mut i: usize = 0;
    while i < n
        invariant
            0 <= i <= n == g.ticks@.len(),
            out@.len() == i,
            forall|j: int| 0 <= j < i ==> #[trigger] out@[j] == g.ticks@[j],
        decreases n - i,
    {
        out.push(g.ticks[i]);
        i = i + 1;
    }
    proof {
        assert(out@ =~= g.ticks@);
    }
    Gene { ticks: out }
}

/// A copy of a rollout start state.
pub fn clone_state(s: &GameState) -> (r: GameState)
    ensures
        r.model() == s.model(),
{
    let nd = s.drones.len();
    let mut drones: Vec<DroneState> = Vec::new();
    let mut i: usize = 0;
    while i < nd
        invariant
            0 <= i <= nd == s.drones@.len(),
            drones@.len() == i,
            forall|j: int| 0 <= j < i ==> #[trigger] drones@[j] == s.drones@[j],
        decreases nd - i,
    {
        drones.push(s.drones[i]);
        i = i + 1;
    }
    let nv = s.visited.len();
    let mut visited: Vec<bool> = Vec::new();
    let mut k: usize = 0;
    while k < nv
        invariant
            0 <= k <= nv == s.visited@.len(),
            visited@.len() == k,
            forall|j: int| 0 <= j < k ==> #[trigger] visited@[j] == s.visited@[j],
        decreases nv - k,
    {
        visited.push(s.visited[k]);
        k = k + 1;
    }
    proof {
        assert(drones@ =~= s.drones@);
        assert(visited@ =~= s.visited@);
    }
    GameState { drones, visited, score: s.score, iter: s.iter }
}

/// The evolutionary trajectory search: a population of scored genes kept
/// across turns to warm-start the next search.
pub struct Pathfinding {
    pub population: Vec<(Score, Gene)>,
}

impl Pathfinding {
    pub fn new() -> (r: Pathfinding)
        ensures
            r.population@.len() == 0,
    {
        Pathfinding { population: Vec::new() }
    }

    /// One freshly drawn action: a heading somewhere on the unit square,
    /// with an optionally drawn light toggle.
    fn random_action(rng: &mut rand::rngs::StdRng, random_light: bool) -> (r: Action)
        ensures
            r.wf(),
            !random_light ==> !r.light,
    {
        let light = if random_light {
            rng_below(rng, 2) == 1
        } else {
            false
        };
        let dx = rng_below(rng, 2001) as i64 - 1000;
        let dy = rng_below(rng, 2001) as i64 - 1000;
        let dir = if dx == 0 && dy == 0 {
            Vec2 { x: 1000, y: 0 }
        } else {
            Vec2 { x: dx, y: dy }
        };
        Action { dir, light }
    }

    /// A freshly drawn action pair for one tick.
    fn random_actions(&self, rng: &mut rand::rngs::StdRng) -> (r: (Action, Action))
        ensures
            r.0.wf(),
            r.1.wf(),
    {
        (Self::random_action(rng, true), Self::random_action(rng, true))
    }

    /// A fully random gene (lights off).
    fn random_gene(&self, rng: &mut rand::rngs::StdRng) -> (g: Gene)
        ensures
            g.wf(),
    {
        let mut ticks: Vec<(Action, Action)> = Vec::new();
        let mut t: usize = 0;
        while t < GENE_SIZE
            invariant
                0 <= t <= GENE_SIZE,
                ticks@.len() == t,
                forall|j: int| 0 <= j < t ==> (#[trigger] ticks@[j]).0.wf() && ticks@[j].1.wf(),
            decreases GENE_SIZE - t,
        {
            let a = Self::random_action(rng, false);
            let b = Self::random_action(rng, false);
            ticks.push((a, b));
            t = t + 1;
        }
        Gene { ticks }
    }

    /// The safety baseline: every action points straight toward the surface
    /// with the light off.
    fn straight_top_gene(&self) -> (g: Gene)
        ensures
            g.wf(),
            forall|t: int|
                0 <= t < g.ticks@.len() ==> #[trigger] g.ticks@[t] == (
                    Action { dir: Vec2 { x: 0, y: -1000i64 }, light: false },
                    Action { dir: Vec2 { x: 0, y: -1000i64 }, light: false },
                ),
    {
        let up = Action { dir: Vec2 { x: 0, y: -1000 }, light: false };
        let mut ticks: Vec<(Action, Action)> = Vec::new();
        let mut t: usize = 0;
        while t < GENE_SIZE
            invariant
                0 <= t <= GENE_SIZE,
                ticks@.len() == t,
                up == (Action { dir: Vec2 { x: 0, y: -1000i64 }, light: false }),
                forall|j: int| 0 <= j < t ==> #[trigger] ticks@[j] == (up, up),
            decreases GENE_SIZE - t,
        {
            ticks.push((up, up));
            t = t + 1;
        }
        Gene { ticks }
    }

    /// Rolls the gene out from the turn's start state and appends it, with
    /// its score, to the population.
    fn score_and_push(
        &mut self,
        simulation: &mut Simulation<'_>,
        state_proto: &GameState,
        gene: Gene,
    )
        requires
            old(simulation).wf(),
            state_proto.wf(),
            state_proto.score == Score::zero_spec(),
            gene.wf(),
            pop_wf(old(self).population@),
            old(self).population@.len() < 1_000_000,
        ensures
            final(self).population@.len() == old(self).population@.len() + 1,
            forall|i: int|
                0 <= i < old(self).population@.len() ==> #[trigger] final(self).population@[i]
                    == old(self).population@[i],
            pop_wf(final(self).population@),
            entry_from_gene(
                old(simulation).tracker.monsters@,
                old(simulation).exploration_map.map@,
                old(simulation).score_map.map@,
                state_proto.model(),
                gene.ticks@,
                final(self).population@.last(),
            ),
            scored_from(
                old(simulation).tracker.monsters@,
                old(simulation).exploration_map.map@,
                old(simulation).score_map.map@,
                state_proto.model(),
                final(self).population@.last(),
            ),
            final(simulation).wf(),
            final(simulation).tracker == old(simulation).tracker,
            final(simulation).exploration_map == old(simulation).exploration_map,
            final(simulation).score_map == old(simulation).score_map,
    {
        let mut st = clone_state(state_proto);
        proof {
            assert(st.drones@ == state_proto.drones@);
            assert(st.visited@ == state_proto.visited@);
        }
        let mut g = gene;
        let ghost g0 = g.ticks@;
        simulation.simulate_all(&mut st, &mut g);
        self.population.push((st.score, g));
        proof {
            let e = (st.score, g);
            assert(entry_from_gene(
                old(simulation).tracker.monsters@,
                old(simulation).exploration_map.map@,
                old(simulation).score_map.map@,
                state_proto.model(),
                g0,
                e,
            ));
            assert(scored_from(
                old(simulation).tracker.monsters@,
                old(simulation).exploration_map.map@,
                old(simulation).score_map.map@,
                state_proto.model(),
                e,
            ));
        }
    }

    /// Adds the safety baseline gene.
    fn add_straight_top(&mut self, simulation: &mut Simulation<'_>, state_proto: &GameState)
        requires
            old(simulation).wf(),
            state_proto.wf(),
            state_proto.score == Score::zero_spec(),
            pop_wf(old(self).population@),
            old(self).population@.len() < 1_000_000,
        ensures
            final(self).population@.len() == old(self).population@.len() + 1,
            forall|i: int|
                0 <= i < old(self).population@.len() ==> #[trigger] final(self).population@[i]
                    == old(self).population@[i],
            pop_wf(final(self).population@),
            pop_scored(
                old(simulation).tracker.monsters@,
                old(simulation).exploration_map.map@,
                old(simulation).score_map.map@,
                state_proto.model(),
                final(self).population@.skip(old(self).population@.len() as int),
            ),
            entry_from_gene(
                old(simulation).tracker.monsters@,
                old(simulation).exploration_map.map@,
                old(simulation).score_map.map@,
                state_proto.model(),
                baseline_ticks(),
                final(self).population@.last(),
            ),
            final(simulation).wf(),
            final(simulation).tracker == old(simulation).tracker,
            final(simulation).exploration_map == old(simulation).exploration_map,
            final(simulation).score_map == old(simulation).score_map,
    {
        let g = self.straight_top_gene();
        proof {
            assert(g.ticks@ =~= baseline_ticks());
        }
        self.score_and_push(simulation, state_proto, g);
        proof {
            let added = self.population@.skip(old(self).population@.len() as int);
            assert(added.len() == 1);
            assert(added[0] == self.population@.last());
        }
    }

    /// Adds fresh random genes.
    fn add_randoms(
        &mut self,
        simulation: &mut Simulation<'_>,
        state_proto: &GameState,
        rng: &mut rand::rngs::StdRng,
        count: usize,
    )
        requires
            old(simulation).wf(),
            state_proto.wf(),
            state_proto.score == Score::zero_spec(),
            pop_wf(old(self).population@),
            old(self).population@.len() + count < 1_000_000,
        ensures
            final(self).population@.len() == old(self).population@.len() + count,
            forall|i: int|
                0 <= i < old(self).population@.len() ==> #[trigger] final(self).population@[i]
                    == old(self).population@[i],
            pop_wf(final(self).population@),
            pop_scored(
                old(simulation).tracker.monsters@,
                old(simulation).exploration_map.map@,
                old(simulation).score_map.map@,
                state_proto.model(),
                final(self).population@.skip(old(self).population@.len() as int),
            ),
            final(simulation).wf(),
            final(simulation).tracker == old(simulation).tracker,
            final(simulation).exploration_map == old(simulation).exploration_map,
            final(simulation).score_map == old(simulation).score_map,
    {
        let ghost ms = simulation.tracker.monsters@;
        let ghost em = simulation.exploration_map.map@;
        let ghost vm = simulation.score_map.map@;
        let ghost base = self.population@;
        let mut k: usize = 0;
        while k < count
            invariant
                simulation.wf(),
                ms == simulation.tracker.monsters@,
                em == simulation.exploration_map.map@,
                vm == simulation.score_map.map@,
                simulation.tracker == old(simulation).tracker,
                simulation.exploration_map == old(simulation).exploration_map,
                simulation.score_map == old(simulation).score_map,
                state_proto.wf(),
                state_proto.score == Score::zero_spec(),
                0 <= k <= count,
                base.len() + count < 1_000_000,
                self.population@.len() == base.len() + k,
                forall|i: int| 0 <= i < base.len() ==> #[trigger] self.population@[i] == base[i],
                pop_wf(self.population@),
                forall|i: int|
                    base.len() <= i < self.population@.len() ==> scored_from(
                        ms,
                        em,
                        vm,
                        state_proto.model(),
                        #[trigger] self.population@[i],
                    ),
            decreases count - k,
        {
            let g = self.random_gene(rng);
            self.score_and_push(simulation, state_proto, g);
            k = k + 1;
        }
        proof {
            let added = self.population@.skip(base.len() as int);
            assert forall|i: int| 0 <= i < added.len() implies scored_from(
                ms,
                em,
                vm,
                state_proto.model(),
                #[trigger] added[i],
            ) by {
                assert(added[i] == self.population@[base.len() + i]);
            }
        }
    }

    /// Adds mutants: clones of uniformly chosen genes with a few ticks
    /// overwritten by fresh random actions.
    fn mutation(
        &mut self,
        simulation: &mut Simulation<'_>,
        state_proto: &GameState,
        rng: &mut rand::rngs::StdRng,
    )
        requires
            old(simulation).wf(),
            state_proto.wf(),
            state_proto.score == Score::zero_spec(),
            pop_wf(old(self).population@),
            0 < old(self).population@.len(),
            old(self).population@.len() + MUTATIONS_SIZE < 1_000_000,
        ensures
            final(self).population@.len() == old(self).population@.len() + MUTATIONS_SIZE,
            forall|i: int|
                0 <= i < old(self).population@.len() ==> #[trigger] final(self).population@[i]
                    == old(self).population@[i],
            pop_wf(final(self).population@),
            pop_scored(
                old(simulation).tracker.monsters@,
                old(simulation).exploration_map.map@,
                old(simulation).score_map.map@,
                state_proto.model(),
                final(self).population@.skip(old(self).population@.len() as int),
            ),
            forall|i: int|
                old(self).population@.len() <= i < final(self).population@.len()
                    ==> #[trigger] mutant_of(
                    old(simulation).tracker.monsters@,
                    old(simulation).exploration_map.map@,
                    old(simulation).score_map.map@,
                    state_proto.model(),
                    old(self).population@,
                    final(self).population@[i],
                ),
            final(simulation).wf(),
            final(simulation).tracker == old(simulation).tracker,
            final(simulation).exploration_map == old(simulation).exploration_map,
            final(simulation).score_map == old(simulation).score_map,
    {
        let ghost ms = simulation.tracker.monsters@;
        let ghost em = simulation.exploration_map.map@;
        let ghost vm = simulation.score_map.map@;
        let ghost base = self.population@;
        let n0 = self.population.len();
        let mut k: usize = 0;
        while k < MUTATIONS_SIZE
            invariant
                simulation.wf(),
                ms == simulation.tracker.monsters@,
                em == simulation.exploration_map.map@,
                vm == simulation.score_map.map@,
                simulation.tracker == old(simulation).tracker,
                simulation.exploration_map == old(simulation).exploration_map,
                simulation.score_map == old(simulation).score_map,
                state_proto.wf(),
                state_proto.score == Score::zero_spec(),
                0 <= k <= MUTATIONS_SIZE,
                0 < n0 == base.len(),
                base.len() + MUTATIONS_SIZE < 1_000_000,
                self.population@.len() == base.len() + k,
                forall|i: int| 0 <= i < base.len() ==> #[trigger] self.population@[i] == base[i],
                pop_wf(self.population@),
                forall|i: int|
                    base.len() <= i < self.population@.len() ==> scored_from(
                        ms,
                        em,
                        vm,
                        state_proto.model(),
                        #[trigger] self.population@[i],
                    ),
                forall|i: int|
                    base.len() <= i < self.population@.len() ==> #[trigger] mutant_of(
                        ms,
                        em,
                        vm,
                        state_proto.model(),
                        base,
                        self.population@[i],
                    ),
            decreases MUTATIONS_SIZE - k,
        {
            let idx = rng_below(rng, n0 as u64) as usize;
            let entry = vstd::std_specs::vec::vec_index(&self.population, idx);
            let mut g = clone_gene(&entry.1);
            let ghost orig = base[idx as int].1.ticks@;
            proof {
                assert(g.ticks@ == orig);
            }
            let ghost mut picks: Seq<int> = Seq::empty();
            let mut m: usize = 0;
            while m < MUTATIONS_COUNT
                invariant
                    0 <= m <= MUTATIONS_COUNT,
                    g.wf(),
                    orig.len() == GENE_SIZE,
                    picks.len() == m,
                    forall|t: int|
                        0 <= t < GENE_SIZE && !picks.contains(t) ==> #[trigger] g.ticks@[t]
                            == orig[t],
                decreases MUTATIONS_COUNT - m,
            {
                let mut_idx = rng_below(rng, GENE_SIZE as u64) as usize;
                let pair = self.random_actions(rng);
                let ghost pre_ticks = g.ticks@;
                let ghost pre_picks = picks;
                g.ticks.set(mut_idx, pair);
                proof {
                    picks = picks.push(mut_idx as int);
                    assert forall|t: int|
                        0 <= t < GENE_SIZE && !picks.contains(t) implies #[trigger] g.ticks@[t]
                        == orig[t] by {
                        assert(picks[picks.len() - 1] == mut_idx as int);
                        assert(t != mut_idx as int);
                        assert forall|j: int|
                            0 <= j < pre_picks.len() implies pre_picks[j] != t by {
                            assert(picks[j] == pre_picks[j]);
                        }
                        assert(!pre_picks.contains(t));
                        assert(g.ticks@[t] == pre_ticks[t]);
                    }
                }
                m = m + 1;
            }
            let ghost mutated = g.ticks@;
            proof {
                assert(mutated_from(mutated, orig));
            }
            self.score_and_push(simulation, state_proto, g);
            proof {
                assert(entry_from_gene(ms, em, vm, state_proto.model(), mutated, self.population@.last()));
                assert(mutant_of(ms, em, vm, state_proto.model(), base, self.population@.last()));
                assert forall|i: int|
                    base.len() <= i < self.population@.len() implies #[trigger] mutant_of(
                        ms,
                        em,
                        vm,
                        state_proto.model(),
                        base,
                        self.population@[i],
                    ) by {
                    if i < self.population@.len() - 1 {
                        assert(mutant_of(ms, em, vm, state_proto.model(), base, self.population@[i]));
                    } else {
                        assert(self.population@[i] == self.population@.last());
                    }
                }
            }
            k = k + 1;
        }
        proof {
            let added = self.population@.skip(base.len() as int);
            assert forall|i: int| 0 <= i < added.len() implies scored_from(
                ms,
                em,
                vm,
                state_proto.model(),
                #[trigger] added[i],
            ) by {
                assert(added[i] == self.population@[base.len() + i]);
            }
        }
    }

    /// Adds crossovers: two distinct genes swap the second drone's action
    /// column, yielding two children.
    fn crossover(
        &mut self,
        simulation: &mut Simulation<'_>,
        state_proto: &GameState,
        rng: &mut rand::rngs::StdRng,
    )
        requires
            old(simulation).wf(),
            state_proto.wf(),
            state_proto.score == Score::zero_spec(),
            pop_wf(old(self).population@),
            2 <= old(self).population@.len(),
            old(self).population@.len() + 2 * CROSSOVER_SIZE < 1_000_000,
        ensures
            final(self).population@.len() == old(self).population@.len() + 2 * CROSSOVER_SIZE,
            forall|i: int|
                0 <= i < old(self).population@.len() ==> #[trigger] final(self).population@[i]
                    == old(self).population@[i],
            pop_wf(final(self).population@),
            pop_scored(
                old(simulation).tracker.monsters@,
                old(simulation).exploration_map.map@,
                old(simulation).score_map.map@,
                state_proto.model(),
                final(self).population@.skip(old(self).population@.len() as int),
            ),
            forall|c: int|
                0 <= c < CROSSOVER_SIZE ==> #[trigger] cross_children_of(
                    old(simulation).tracker.monsters@,
                    old(simulation).exploration_map.map@,
                    old(simulation).score_map.map@,
                    state_proto.model(),
                    old(self).population@,
                    final(self).population@[old(self).population@.len() + 2 * c],
                    final(self).population@[old(self).population@.len() + 2 * c + 1],
                ),
            final(simulation).wf(),
            final(simulation).tracker == old(simulation).tracker,
            final(simulation).exploration_map == old(simulation).exploration_map,
            final(simulation).score_map == old(simulation).score_map,
    {
        let ghost ms = simulation.tracker.monsters@;
        let ghost em = simulation.exploration_map.map@;
        let ghost vm = simulation.score_map.map@;
        let ghost base = self.population@;
        let n0 = self.population.len();
        let mut k: usize = 0;
        while k < CROSSOVER_SIZE
            invariant
                simulation.wf(),
                ms == simulation.tracker.monsters@,
                em == simulation.exploration_map.map@,
                vm == simulation.score_map.map@,
                simulation.tracker == old(simulation).tracker,
                simulation.exploration_map == old(simulation).exploration_map,
                simulation.score_map == old(simulation).score_map,
                state_proto.wf(),
                state_proto.score == Score::zero_spec(),
                0 <= k <= CROSSOVER_SIZE,
                2 <= n0 == base.len(),
                base.len() + 2 * CROSSOVER_SIZE < 1_000_000,
                self.population@.len() == base.len() + 2 * k,
                forall|i: int| 0 <= i < base.len() ==> #[trigger] self.population@[i] == base[i],
                pop_wf(self.population@),
                forall|i: int|
                    base.len() <= i < self.population@.len() ==> scored_from(
                        ms,
                        em,
                        vm,
                        state_proto.model(),
                        #[trigger] self.population@[i],
                    ),
                forall|c: int|
                    0 <= c < k ==> #[trigger] cross_children_of(
                        ms,
                        em,
                        vm,
                        state_proto.model(),
                        base,
                        self.population@[base.len() + 2 * c],
                        self.population@[base.len() + 2 * c + 1],
                    ),
            decreases CROSSOVER_SIZE - k,
        {
            let idx1 = rng_below(rng, n0 as u64) as usize;
            let t = rng_below(rng, (n0 - 1) as u64) as usize;
            let idx2 = if t >= idx1 {
                t + 1
            } else {
                t
            };
            let mut child1: Vec<(Action, Action)> = Vec::new();
            let mut child2: Vec<(Action, Action)> = Vec::new();
            let mut ti: usize = 0;
            while ti < GENE_SIZE
                invariant
                    0 <= ti <= GENE_SIZE,
                    idx1 < self.population@.len(),
                    idx2 < self.population@.len(),
                    pop_wf(self.population@),
                    child1@.len() == ti,
                    child2@.len() == ti,
                    forall|j: int|
                        0 <= j < ti ==> (#[trigger] child1@[j]).0.wf() && child1@[j].1.wf(),
                    forall|j: int|
                        0 <= j < ti ==> (#[trigger] child2@[j]).0.wf() && child2@[j].1.wf(),
                    forall|j: int|
                        0 <= j < ti ==> #[trigger] child1@[j] == (
                            self.population@[idx1 as int].1.ticks@[j].0,
                            self.population@[idx2 as int].1.ticks@[j].1,
                        ),
                    forall|j: int|
                        0 <= j < ti ==> #[trigger] child2@[j] == (
                            self.population@[idx2 as int].1.ticks@[j].0,
                            self.population@[idx1 as int].1.ticks@[j].1,
                        ),
                decreases GENE_SIZE - ti,
            {
                let e1 = vstd::std_specs::vec::vec_index(&self.population, idx1);
                let e2 = vstd::std_specs::vec::vec_index(&self.population, idx2);
                let p1 = *vstd::std_specs::vec::vec_index(&e1.1.ticks, ti);
                let p2 = *vstd::std_specs::vec::vec_index(&e2.1.ticks, ti);
                child1.push((p1.0, p2.1));
                child2.push((p2.0, p1.1));
                ti = ti + 1;
            }
            let ghost c1 = child1@;
            let ghost c2 = child2@;
            proof {
                assert(self.population@[idx1 as int] == base[idx1 as int]);
                assert(self.population@[idx2 as int] == base[idx2 as int]);
                assert(c1 =~= crossed(base[idx1 as int].1.ticks@, base[idx2 as int].1.ticks@));
                assert(c2 =~= crossed(base[idx2 as int].1.ticks@, base[idx1 as int].1.ticks@));
            }
            self.score_and_push(simulation, state_proto, Gene { ticks: child1 });
            let ghost e1 = self.population@.last();
            self.score_and_push(simulation, state_proto, Gene { ticks: child2 });
            proof {
                let m0 = state_proto.model();
                assert(self.population@[base.len() + 2 * k] == e1);
                assert(entry_from_gene(ms, em, vm, m0, c1, e1));
                assert(entry_from_gene(ms, em, vm, m0, c2, self.population@.last()));
                assert(cross_children_of(ms, em, vm, m0, base, e1, self.population@.last()));
                assert forall|c: int|
                    0 <= c < k + 1 implies #[trigger] cross_children_of(
                        ms,
                        em,
                        vm,
                        m0,
                        base,
                        self.population@[base.len() + 2 * c],
                        self.population@[base.len() + 2 * c + 1],
                    ) by {
                    if c < k {
                        assert(cross_children_of(
                            ms,
                            em,
                            vm,
                            m0,
                            base,
                            self.population@[base.len() + 2 * c],
                            self.population@[base.len() + 2 * c + 1],
                        ));
                    } else {
                        assert(self.population@[base.len() + 2 * c + 1] == self.population@.last());
                    }
                }
            }
            k = k + 1;
        }
        proof {
            let added = self.population@.skip(base.len() as int);
            assert forall|i: int| 0 <= i < added.len() implies scored_from(
                ms,
                em,
                vm,
                state_proto.model(),
                #[trigger] added[i],
            ) by {
                assert(added[i] == self.population@[base.len() + i]);
            }
        }
    }

    /// Warm start: every kept gene ages by one tick (its first tick is
    /// dropped, a fresh random tick appended) and is re-scored against this
    /// turn's state.
    fn modify_prev_generation(
        &mut self,
        simulation: &mut Simulation<'_>,
        state_proto: &GameState,
        rng: &mut rand::rngs::StdRng,
    )
        requires
            old(simulation).wf(),
            state_proto.wf(),
            state_proto.score == Score::zero_spec(),
            pop_wf(old(self).population@),
            old(self).population@.len() < 100_000,
        ensures
            final(self).population@.len() == old(self).population@.len(),
            pop_wf(final(self).population@),
            pop_scored(
                old(simulation).tracker.monsters@,
                old(simulation).exploration_map.map@,
                old(simulation).score_map.map@,
                state_proto.model(),
                final(self).population@,
            ),
            forall|k: int|
                0 <= k < old(self).population@.len() ==> #[trigger] aged_entry_of(
                    old(simulation).tracker.monsters@,
                    old(simulation).exploration_map.map@,
                    old(simulation).score_map.map@,
                    state_proto.model(),
                    old(self).population@[k].1.ticks@,
                    final(self).population@[k],
                ),
            final(simulation).wf(),
            final(simulation).tracker == old(simulation).tracker,
            final(simulation).exploration_map == old(simulation).exploration_map,
            final(simulation).score_map == old(simulation).score_map,
    {
        let ghost ms = simulation.tracker.monsters@;
        let ghost em = simulation.exploration_map.map@;
        let ghost vm = simulation.score_map.map@;
        let ghost base = self.population@;
        let n0 = self.population.len();
        let mut aged: Vec<Gene> = Vec::new();
        let mut i: usize = 0;
        while i < n0
            invariant
                pop_wf(self.population@),
                base == self.population@,
                0 <= i <= n0 == self.population@.len(),
                aged@.len() == i,
                forall|j: int| 0 <= j < i ==> (#[trigger] aged@[j]).wf(),
                forall|j: int|
                    0 <= j < i ==> aged_from(
                        (#[trigger] aged@[j]).ticks@,
                        base[j].1.ticks@,
                    ),
            decreases n0 - i,
        {
            let entry = vstd::std_specs::vec::vec_index(&self.population, i);
            let mut ticks: Vec<(Action, Action)> = Vec::new();
            let mut t: usize = 1;
            while t < GENE_SIZE
                invariant
                    1 <= t <= GENE_SIZE,
                    0 <= i < self.population@.len(),
                    entry == &self.population@[i as int],
                    pop_wf(self.population@),
                    ticks@.len() == t - 1,
                    forall|j: int|
                        0 <= j < t - 1 ==> (#[trigger] ticks@[j]).0.wf() && ticks@[j].1.wf(),
                    forall|j: int|
                        0 <= j < t - 1 ==> #[trigger] ticks@[j] == self.population@[i as int].1.ticks@[j
                            + 1],
                decreases GENE_SIZE - t,
            {
                let p = *vstd::std_specs::vec::vec_index(&entry.1.ticks, t);
                ticks.push(p);
                t = t + 1;
            }
            let tail = self.random_actions(rng);
            ticks.push(tail);
            aged.push(Gene { ticks });
            i = i + 1;
        }
        self.population = Vec::new();
        let mut k: usize = 0;
        while k < n0
            invariant
                simulation.wf(),
                ms == simulation.tracker.monsters@,
                em == simulation.exploration_map.map@,
                vm == simulation.score_map.map@,
                simulation.tracker == old(simulation).tracker,
                simulation.exploration_map == old(simulation).exploration_map,
                simulation.score_map == old(simulation).score_map,
                state_proto.wf(),
                state_proto.score == Score::zero_spec(),
                0 <= k <= n0 < 100_000,
                aged@.len() == n0,
                forall|j: int| 0 <= j < n0 ==> (#[trigger] aged@[j]).wf(),
                self.population@.len() == k,
                pop_wf(self.population@),
                forall|i2: int|
                    0 <= i2 < self.population@.len() ==> scored_from(
                        ms,
                        em,
                        vm,
                        state_proto.model(),
                        #[trigger] self.population@[i2],
                    ),
                base.len() == n0,
                forall|j: int|
                    0 <= j < n0 ==> aged_from((#[trigger] aged@[j]).ticks@, base[j].1.ticks@),
                forall|i2: int|
                    0 <= i2 < self.population@.len() ==> #[trigger] aged_entry_of(
                        ms,
                        em,
                        vm,
                        state_proto.model(),
                        base[i2].1.ticks@,
                        self.population@[i2],
                    ),
            decreases n0 - k,
        {
            let g = clone_gene(vstd::std_specs::vec::vec_index(&aged, k));
            let ghost g0 = g.ticks@;
            proof {
                assert(g0 == aged@[k as int].ticks@);
                assert(aged_from(g0, base[k as int].1.ticks@));
            }
            self.score_and_push(simulation, state_proto, g);
            proof {
                assert(entry_from_gene(ms, em, vm, state_proto.model(), g0, self.population@.last()));
                assert(aged_entry_of(
                    ms,
                    em,
                    vm,
                    state_proto.model(),
                    base[k as int].1.ticks@,
                    self.population@.last(),
                ));
                assert forall|i2: int|
                    0 <= i2 < self.population@.len() implies #[trigger] aged_entry_of(
                        ms,
                        em,
                        vm,
                        state_proto.model(),
                        base[i2].1.ticks@,
                        self.population@[i2],
                    ) by {
                    if i2 < self.population@.len() - 1 {
                        assert(aged_entry_of(
                            ms,
                            em,
                            vm,
                            state_proto.model(),
                            base[i2].1.ticks@,
                            self.population@[i2],
                        ));
                    } else {
                        assert(self.population@[i2] == self.population@.last());
                    }
                }
            }
            k = k + 1;
        }
    }

    /// Elitist selection: sorts the population by total score, best first,
    /// and keeps the top entries. The best gene of the incoming population
    /// is never lost: the new head scores at least as well as every incoming
    /// entry.
    fn selection(&mut self)
        requires
            pop_wf(old(self).population@),
        ensures
            pop_wf(final(self).population@),
            final(self).population@.len() == if old(self).population@.len() <= POPULATION_SIZE {
                old(self).population@.len() as int
            } else {
                POPULATION_SIZE as int
            },
            sorted_desc(final(self).population@),
            forall|i: int|
                0 <= i < final(self).population@.len() ==> in_pop_view(
                    old(self).population@,
                    #[trigger] final(self).population@[i],
                ),
            old(self).population@.len() > 0 ==> final(self).population@.len() > 0 && forall|j: int|
                0 <= j < old(self).population@.len() ==> final(self).population@[0].0.value_spec()
                    >= (#[trigger] old(self).population@[j]).0.value_spec(),
    {
        let ghost base = self.population@;
        let n = self.population.len();
        let mut sorted: Vec<(Score, Gene)> = Vec::new();
        let mut i: usize = 0;
        while i < n
            invariant
                pop_wf(self.population@),
                base == self.population@,
                0 <= i <= n == base.len(),
                sorted@.len() == i,
                pop_wf(sorted@),
                sorted_desc(sorted@),
                forall|k: int| 0 <= k < sorted@.len() ==> in_pop_view(base, #[trigger] sorted@[k]),
                i > 0 ==> sorted@.len() > 0 && forall|j: int|
                    0 <= j < i ==> sorted@[0].0.value_spec() >= (#[trigger] base[j]).0.value_spec(),
            decreases n - i,
        {
            let e = clone_gene_entry(vstd::std_specs::vec::vec_index(&self.population, i));
            proof {
                assert(e.0 == base[i as int].0 && e.1.ticks@ == base[i as int].1.ticks@);
                assert(in_pop_view(base, e));
                assert(e.0.wf() && e.1.wf()) by {
                    assert(base[i as int].0.wf() && base[i as int].1.wf());
                }
            }
            let ev = e.0.value();
            let mut pos: usize = 0;
            while pos < sorted.len() && vstd::std_specs::vec::vec_index(&sorted, pos).0.value()
                >= ev
                invariant
                    pop_wf(sorted@),
                    sorted_desc(sorted@),
                    e.0.wf(),
                    ev == e.0.value_spec(),
                    0 <= pos <= sorted@.len(),
                    forall|j: int| 0 <= j < pos ==> (#[trigger] sorted@[j]).0.value_spec() >= ev,
                decreases sorted@.len() - pos,
            {
                pos = pos + 1;
            }
            let ghost pre = sorted@;
            sorted.insert(pos, e);
            proof {
                assert(sorted@ == pre.insert(pos as int, e));
                assert forall|a: int, b: int|
                    0 <= a <= b < sorted@.len() implies (#[trigger] sorted@[a]).0.value_spec() >= (
                #[trigger] sorted@[b]).0.value_spec() by {
                    if b < pos {
                    } else if a > pos {
                        assert(sorted@[a] == pre[a - 1] && sorted@[b] == pre[b - 1]);
                    } else if a < pos && b == pos {
                        assert(sorted@[a] == pre[a]);
                    } else if a == pos && b > pos {
                        assert(sorted@[b] == pre[b - 1]);
                        if pos < pre.len() {
                            assert(pre[pos as int].0.value_spec() < ev);
                        }
                    } else if a < pos && b > pos {
                        assert(sorted@[a] == pre[a] && sorted@[b] == pre[b - 1]);
                    }
                }
                assert forall|k: int| 0 <= k < sorted@.len() implies in_pop_view(
                    base,
                    #[trigger] sorted@[k],
                ) by {
                    if k < pos {
                        assert(sorted@[k] == pre[k]);
                    } else if k > pos {
                        assert(sorted@[k] == pre[k - 1]);
                    }
                }
                assert forall|k: int| 0 <= k < sorted@.len() implies (#[trigger] sorted@[k]).0.wf()
                    && sorted@[k].1.wf() by {
                    if k < pos {
                        assert(pre[k].0.wf() && pre[k].1.wf());
                        assert(sorted@[k] == pre[k]);
                    } else if k > pos {
                        assert(pre[k - 1].0.wf() && pre[k - 1].1.wf());
                        assert(sorted@[k] == pre[k - 1]);
                    }
                }
                assert forall|j: int| 0 <= j < i + 1 implies sorted@[0].0.value_spec() >= (
                #[trigger] base[j]).0.value_spec() by {
                    if pos == 0 {
                        assert(sorted@[0] == e);
                        if j < i {
                            if pre.len() > 0 {
                                assert(pre[0].0.value_spec() < ev);
                                assert(pre[0].0.value_spec() >= base[j].0.value_spec());
                            }
                        }
                    } else {
                        assert(sorted@[0] == pre[0]);
                        assert(pre[0].0.value_spec() >= ev);
                        if j < i {
                            assert(pre[0].0.value_spec() >= base[j].0.value_spec());
                        }
                    }
                }
            }
            i = i + 1;
        }
        while sorted.len() > POPULATION_SIZE
            invariant
                pop_wf(sorted@),
                sorted_desc(sorted@),
                forall|k: int| 0 <= k < sorted@.len() ==> in_pop_view(base, #[trigger] sorted@[k]),
                n == base.len(),
                sorted@.len() >= if n <= POPULATION_SIZE {
                    n as int
                } else {
                    POPULATION_SIZE as int
                },
                sorted@.len() <= n,
                n > 0 ==> sorted@.len() > 0 && forall|j: int|
                    0 <= j < n ==> sorted@[0].0.value_spec() >= (#[trigger] base[j]).0.value_spec(),
            decreases sorted@.len(),
        {
            let ghost pre = sorted@;
            sorted.pop();
            proof {
                assert forall|k: int| 0 <= k < sorted@.len() implies in_pop_view(
                    base,
                    #[trigger] sorted@[k],
                ) by {
                    assert(sorted@[k] == pre[k]);
                }
                assert forall|k: int| 0 <= k < sorted@.len() implies (#[trigger] sorted@[k]).0.wf()
                    && sorted@[k].1.wf() by {
                    assert(sorted@[k] == pre[k]);
                    assert(pre[k].0.wf() && pre[k].1.wf());
                }
            }
        }
        self.population = sorted;
    }
}

/// Whether the population holds an entry with this score and these ticks.
pub open spec fn in_pop_view(p: Seq<(Score, Gene)>, e: (Score, Gene)) -> bool {
    exists|j: int|
        0 <= j < p.len() && (#[trigger] p[j]).0 == e.0 && p[j].1.ticks@ == e.1.ticks@
}

/// A copy of a population entry.
fn clone_gene_entry(e: &(Score, Gene)) -> (r: (Score, Gene))
    ensures
        r.0 == e.0,
        r.1.ticks@ == e.1.ticks@,
{
    (e.0, clone_gene(&e.1))
}

/// An entry that matches (by score and ticks) an entry of a fully scored
/// population is itself scored: being scored depends only on the score and
/// the ticks.
pub proof fn lemma_view_scored(
    ms: Seq<Monster>,
    em: Seq<i64>,
    vm: Seq<i64>,
    m0: SimModel,
    p: Seq<(Score, Gene)>,
    e: (Score, Gene),
)
    requires
        pop_scored(ms, em, vm, m0, p),
        in_pop_view(p, e),
    ensures
        scored_from(ms, em, vm, m0, e),
{
    let j = choose|j: int|
        0 <= j < p.len() && (#[trigger] p[j]).0 == e.0 && p[j].1.ticks@ == e.1.ticks@;
    assert(scored_from(ms, em, vm, m0, p[j]));
    let g0 = choose|g0: Seq<(Action, Action)>|
        g0.len() == GENE_SIZE && #[trigger] entry_from_gene(ms, em, vm, m0, g0, p[j]);
    assert(entry_from_gene(ms, em, vm, m0, g0, e));
}

impl Pathfinding {
    /// One generation of the evolutionary loop: fresh random genes, mutants
    /// and crossovers join the population, then elitist selection keeps the
    /// best. The best score never decreases: the new head scores at least as
    /// well as every entry of the incoming population.
    pub fn evolve_generation(
        &mut self,
        simulation: &mut Simulation<'_>,
        state_proto: &GameState,
        rng: &mut rand::rngs::StdRng,
    )
        requires
            old(simulation).wf(),
            state_proto.wf(),
            state_proto.score == Score::zero_spec(),
            pop_wf(old(self).population@),
            2 <= old(self).population@.len() <= 1000,
            pop_scored(
                old(simulation).tracker.monsters@,
                old(simulation).exploration_map.map@,
                old(simulation).score_map.map@,
                state_proto.model(),
                old(self).population@,
            ),
        ensures
            pop_wf(final(self).population@),
            sorted_desc(final(self).population@),
            final(self).population@.len() == POPULATION_SIZE,
            pop_scored(
                old(simulation).tracker.monsters@,
                old(simulation).exploration_map.map@,
                old(simulation).score_map.map@,
                state_proto.model(),
                final(self).population@,
            ),
            forall|j: int|
                0 <= j < old(self).population@.len() ==> final(self).population@[0].0.value_spec() >= (#[trigger] old(self).population@[j]).0.value_spec(),
            final(simulation).wf(),
            final(simulation).tracker == old(simulation).tracker,
            final(simulation).exploration_map == old(simulation).exploration_map,
            final(simulation).score_map == old(simulation).score_map,
    {
        let ghost ms = simulation.tracker.monsters@;
        let ghost em = simulation.exploration_map.map@;
        let ghost vm = simulation.score_map.map@;
        let ghost m0 = state_proto.model();
        let ghost p0 = self.population@;
        self.add_randoms(simulation, state_proto, rng, RANDOM_SIZE);
        let ghost p1 = self.population@;
        self.mutation(simulation, state_proto, rng);
        let ghost p2 = self.population@;
        self.crossover(simulation, state_proto, rng);
        let ghost p3 = self.population@;
        proof {
            assert forall|i: int| 0 <= i < p3.len() implies scored_from(
                ms,
                em,
                vm,
                m0,
                #[trigger] p3[i],
            ) by {
                if i < p0.len() {
                    assert(p3[i] == p2[i] && p2[i] == p1[i] && p1[i] == p0[i]);
                    assert(scored_from(ms, em, vm, m0, p0[i]));
                } else if i < p1.len() {
                    assert(p3[i] == p2[i] && p2[i] == p1[i]);
                    assert(p1.skip(p0.len() as int)[i - p0.len()] == p1[i]);
                } else if i < p2.len() {
                    assert(p3[i] == p2[i]);
                    assert(p2.skip(p1.len() as int)[i - p1.len()] == p2[i]);
                } else {
                    assert(p3.skip(p2.len() as int)[i - p2.len()] == p3[i]);
                }
            }
        }
        self.selection();
        proof {
            assert forall|i: int| 0 <= i < self.population@.len() implies scored_from(
                ms,
                em,
                vm,
                m0,
                #[trigger] self.population@[i],
            ) by {
                lemma_view_scored(ms, em, vm, m0, p3, self.population@[i]);
            }
            assert forall|j: int| 0 <= j < p0.len() implies self.population@[0].0.value_spec() >= (
            #[trigger] p0[j]).0.value_spec() by {
                assert(p3[j] == p2[j] && p2[j] == p1[j] && p1[j] == p0[j]);
            }
        }
    }

    /// One turn of the trajectory search: ages last turn's population, adds
    /// the safety baseline, fills with random genes, then runs evolutionary
    /// generations until the wall-clock budget elapses (a generation in
    /// progress always completes). Returns the first tick's action pair of
    /// the top-scoring gene of the final, sorted population.
    pub fn search(
        &mut self,
        world: &World,
        tracker: &Tracker,
        exploration_map: &ExplorationMap,
        score_map: &ScoreMap,
        rng: &mut rand::rngs::StdRng,
    ) -> (r: (Action, Action))
        requires
            world.wf(),
            crate::tracker::monsters_wf(tracker.monsters@),
            exploration_map.wf(),
            score_map.wf(),
            pop_wf(old(self).population@),
            old(self).population@.len() <= POPULATION_SIZE,
        ensures
            pop_wf(final(self).population@),
            sorted_desc(final(self).population@),
            final(self).population@.len() == POPULATION_SIZE,
            pop_scored(
                tracker.monsters@,
                exploration_map.map@,
                score_map.map@,
                start_model(*world),
                final(self).population@,
            ),
            r == final(self).population@[0].1.ticks@[0],
            r.0.wf(),
            r.1.wf(),
            final(self).population@[0].0.value_spec() >= gene_fold(
                tracker.monsters@,
                exploration_map.map@,
                score_map.map@,
                start_model(*world),
                baseline_ticks(),
                GENE_SIZE as int,
            ).0.score.value_spec(),
            forall|k: int|
                0 <= k < old(self).population@.len() ==> #[trigger] head_dominates_aged(
                    tracker.monsters@,
                    exploration_map.map@,
                    score_map.map@,
                    start_model(*world),
                    old(self).population@[k].1.ticks@,
                    final(self).population@[0].0.value_spec(),
                ),
    {
        let start = instant_now();
        let state_proto = GameState::new(world);
        let mut simulation = Simulation::new(tracker, exploration_map, score_map);
        let ghost ms = tracker.monsters@;
        let ghost em = exploration_map.map@;
        let ghost vm = score_map.map@;
        let ghost m0 = state_proto.model();
        self.modify_prev_generation(&mut simulation, &state_proto, rng);
        let ghost q0 = self.population@;
        self.add_straight_top(&mut simulation, &state_proto);
        let ghost q1 = self.population@;
        self.add_randoms(&mut simulation, &state_proto, rng, POPULATION_SIZE);
        let ghost q2 = self.population@;
        proof {
            assert forall|i: int| 0 <= i < q2.len() implies scored_from(
                ms,
                em,
                vm,
                m0,
                #[trigger] q2[i],
            ) by {
                if i < q0.len() {
                    assert(q2[i] == q1[i] && q1[i] == q0[i]);
                } else if i < q1.len() {
                    assert(q2[i] == q1[i]);
                    assert(q1.skip(q0.len() as int)[i - q0.len()] == q1[i]);
                } else {
                    assert(q2.skip(q1.len() as int)[i - q1.len()] == q2[i]);
                }
            }
        }
        self.selection();
        let ghost baseline_score = gene_fold(
            ms,
            em,
            vm,
            m0,
            baseline_ticks(),
            GENE_SIZE as int,
        ).0.score.value_spec();
        let ghost prev_pop = old(self).population@;
        proof {
            assert forall|i: int| 0 <= i < self.population@.len() implies scored_from(
                ms,
                em,
                vm,
                m0,
                #[trigger] self.population@[i],
            ) by {
                lemma_view_scored(ms, em, vm, m0, q2, self.population@[i]);
            }
            assert(q2[q0.len() as int] == q1.last());
            assert(q1.last().0.value_spec() == baseline_score);
            assert(self.population@[0].0.value_spec() >= q2[q0.len() as int].0.value_spec());
            assert forall|k: int| 0 <= k < prev_pop.len() implies #[trigger] head_dominates_aged(
                ms,
                em,
                vm,
                m0,
                prev_pop[k].1.ticks@,
                self.population@[0].0.value_spec(),
            ) by {
                assert(aged_entry_of(ms, em, vm, m0, prev_pop[k].1.ticks@, q0[k]));
                let g0 = choose|g0: Seq<(Action, Action)>|
                    #[trigger] aged_from(g0, prev_pop[k].1.ticks@) && entry_from_gene(
                        ms,
                        em,
                        vm,
                        m0,
                        g0,
                        q0[k],
                    );
                assert(q2[k] == q1[k] && q1[k] == q0[k]);
                assert(self.population@[0].0.value_spec() >= q2[k].0.value_spec());
                assert(aged_from(g0, prev_pop[k].1.ticks@) && self.population@[0].0.value_spec()
                    >= gene_fold(ms, em, vm, m0, g0, GENE_SIZE as int).0.score.value_spec());
            }
        }
        let mut g: usize = 0;
        while g < MAX_GENERATIONS
            invariant
                simulation.wf(),
                simulation.tracker == tracker,
                simulation.exploration_map == exploration_map,
                simulation.score_map == score_map,
                ms == tracker.monsters@,
                em == exploration_map.map@,
                vm == score_map.map@,
                m0 == state_proto.model(),
                state_proto.wf(),
                state_proto.score == Score::zero_spec(),
                0 <= g <= MAX_GENERATIONS,
                pop_wf(self.population@),
                sorted_desc(self.population@),
                self.population@.len() == POPULATION_SIZE,
                pop_scored(ms, em, vm, m0, self.population@),
                self.population@[0].0.value_spec() >= baseline_score,
                prev_pop == old(self).population@,
                forall|k: int|
                    0 <= k < prev_pop.len() ==> #[trigger] head_dominates_aged(
                        ms,
                        em,
                        vm,
                        m0,
                        prev_pop[k].1.ticks@,
                        self.population@[0].0.value_spec(),
                    ),
            decreases MAX_GENERATIONS - g,
        {
            if elapsed_millis(&start) >= TIME_BUDGET_MS {
                g = MAX_GENERATIONS;
            } else {
                let ghost pre = self.population@;
                self.evolve_generation(&mut simulation, &state_proto, rng);
                proof {
                    assert(self.population@[0].0.value_spec() >= pre[0].0.value_spec());
                    assert forall|k: int|
                        0 <= k < prev_pop.len() implies #[trigger] head_dominates_aged(
                            ms,
                            em,
                            vm,
                            m0,
                            prev_pop[k].1.ticks@,
                            self.population@[0].0.value_spec(),
                        ) by {
                        lemma_dominates_mono(
                            ms,
                            em,
                            vm,
                            m0,
                            prev_pop[k].1.ticks@,
                            pre[0].0.value_spec(),
                            self.population@[0].0.value_spec(),
                        );
                    }
                }
                g = g + 1;
            }
        }
        let top = vstd::std_specs::vec::vec_index(&self.population, 0);
        proof {
            assert(self.population@[0].0.wf() && self.population@[0].1.wf());
        }
        let pair = *vstd::std_specs::vec::vec_index(&top.1.ticks, 0);
        pair
    }
}

/// A gene in which both drones are dead from the first tick onward scores
/// exactly the dead penalty for every simulated tick and drone, and nothing
/// from any other term.
pub proof fn lemma_dead_gene_score(
    ms: Seq<Monster>,
    em: Seq<i64>,
    vm: Seq<i64>,
    m: SimModel,
    gene: Seq<(Action, Action)>,
    t: int,
)
    requires
        m.drones.len() == 2,
        m.drones[0].dead,
        m.drones[1].dead,
        m.score == Score::zero_spec(),
        0 <= t <= GENE_SIZE,
    ensures
        gene_fold(ms, em, vm, m, gene, t).0.score.dead_score == -((2 * DEAD_PENALTY * SCORE_UNIT)
            * t),
        gene_fold(ms, em, vm, m, gene, t).0.score.saving_scans_score == 0,
        gene_fold(ms, em, vm, m, gene, t).0.score.saving_urgent_scans_score == 0,
        gene_fold(ms, em, vm, m, gene, t).0.score.exploration_score == 0,
        gene_fold(ms, em, vm, m, gene, t).0.score.value_spec() == -((2 * DEAD_PENALTY * SCORE_UNIT)
            * t),
        gene_fold(ms, em, vm, m, gene, t).0.drones == m.drones,
    decreases t,
{
    reveal(pair_tick_spec);
    reveal(drone_tick_spec);
    if t > 0 {
        lemma_dead_gene_score(ms, em, vm, m, gene, t - 1);
        let prev = gene_fold(ms, em, vm, m, gene, t - 1);
        assert((2 * DEAD_PENALTY * SCORE_UNIT) * t == (2 * DEAD_PENALTY * SCORE_UNIT) * (t - 1) + 2
            * DEAD_PENALTY * SCORE_UNIT) by (nonlinear_arith);
        assert(0 <= (2 * DEAD_PENALTY * SCORE_UNIT) * (t - 1) <= 48_000_000_000)
            by (nonlinear_arith)
            requires
                0 <= t - 1 <= 24,
        ;
        assert(prev.0.score.dead_score == -((2 * DEAD_PENALTY * SCORE_UNIT) * (t - 1)));
        let r0 = drone_tick_spec(ms, em, vm, prev.0, 0, prev.1[t - 1].0, t);
        let r1 = drone_tick_spec(ms, em, vm, r0.0, 1, prev.1[t - 1].1, t);
        assert(prev.0.drones[0].dead);
        assert(r0.0.drones == prev.0.drones);
        assert(r0.0.score.dead_score == prev.0.score.dead_score - DEAD_PENALTY * SCORE_UNIT);
        assert(r0.0.drones[1].dead);
        assert(r1.0.score.dead_score == r0.0.score.dead_score - DEAD_PENALTY * SCORE_UNIT);
        assert(gene_fold(ms, em, vm, m, gene, t).0 == r1.0);
    }
}

} // verus!
