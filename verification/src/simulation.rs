//! A lighter forward solver over whole action plans: both players' drones,
//! banked-scan accounting with set-completion bonuses, and a sampling search
//! that keeps the best-scoring plan across turns.

use vstd::prelude::*;

use crate::ext::rng_below;
use crate::maps::CELLS;
use crate::vec2::Vec2;
use crate::world::{contains_id, contains_scan, creature_of, has_creature, World, MAP_SIZE};

verus! {

/// Depth above which a drone banks its scans in this solver.
pub const BANK_Y: i64 = 500;

/// One simulated drone of this solver.
#[derive(Clone, Debug)]
pub struct DroneState {
    pub pos: Vec2,
    pub scans: Vec<i32>,
    pub battery: i32,
}

/// A fish position snapshot (kept for callers that track individual fish).
#[derive(Clone, Copy, Debug)]
pub struct FishState {
    pub pos: Vec2,
    pub id: i32,
}

/// Both players' simulated drones, banked-scan sets, scores, per-class and
/// per-color tallies, and the cells the plan visited.
#[derive(Clone, Debug)]
pub struct SimulationState {
    pub my_drones: Vec<DroneState>,
    pub enemy_drones: Vec<DroneState>,
    pub my_scans: Vec<i32>,
    pub enemy_scans: Vec<i32>,
    pub my_score: i64,
    pub enemy_score: i64,
    pub my_fishes_of_type: Vec<i64>,
    pub my_fishes_of_color: Vec<i64>,
    pub enemy_fishes_of_type: Vec<i64>,
    pub enemy_fishes_of_color: Vec<i64>,
    pub visited_cells: Vec<bool>,
}

/// The ids of `ids` that are not in `banked`, in order.
pub open spec fn remove_banked(ids: Seq<i32>, banked: Seq<i32>) -> Seq<i32>
    decreases ids.len(),
{
    if ids.len() == 0 {
        Seq::empty()
    } else {
        let rest = remove_banked(ids.drop_last(), banked);
        if contains_id(banked, ids.last()) {
            rest
        } else {
            rest.push(ids.last())
        }
    }
}

pub proof fn lemma_remove_banked_len(ids: Seq<i32>, banked: Seq<i32>)
    ensures
        remove_banked(ids, banked).len() <= ids.len(),
    decreases ids.len(),
{
    if ids.len() > 0 {
        lemma_remove_banked_len(ids.drop_last(), banked);
    }
}

/// The result of banking the first `n` held scans of one drone into a
/// player's account: new banked set, tallies, and score. Each scan is worth
/// its class value, doubled while the other player lacks it, plus a bonus
/// when it completes the class quartet (4, or 8 while the other player's
/// quartet is open) or the color triple (3, or 6 likewise).
pub open spec fn bank_fold(
    w: World,
    ids: Seq<i32>,
    n: int,
    scans0: Seq<i32>,
    other_scans: Seq<i32>,
    tc0: Seq<i64>,
    cc0: Seq<i64>,
    otc: Seq<i64>,
    occ: Seq<i64>,
    score0: int,
) -> (Seq<i32>, Seq<i64>, Seq<i64>, int)
    decreases n,
{
    if n <= 0 {
        (scans0, tc0, cc0, score0)
    } else {
        let prev = bank_fold(w, ids, n - 1, scans0, other_scans, tc0, cc0, otc, occ, score0);
        let scans = prev.0;
        let tc = prev.1;
        let cc = prev.2;
        let score = prev.3;
        let id = ids[n - 1];
        if has_creature(w.creatures@, id) {
            let c = creature_of(w.creatures@, id);
            if 0 <= c.typ <= 2 && 0 <= c.color <= 3 {
                let base = (c.typ + 1) * (if !contains_id(other_scans, id) {
                    2int
                } else {
                    1int
                });
                let tc1 = tc.update(c.typ as int, (tc[c.typ as int] + 1) as i64);
                let cc1 = cc.update(c.color as int, (cc[c.color as int] + 1) as i64);
                let tbonus = if tc1[c.typ as int] == 4 {
                    if otc[c.typ as int] == 4 {
                        4int
                    } else {
                        8int
                    }
                } else {
                    0int
                };
                let cbonus = if cc1[c.color as int] == 3 {
                    if occ[c.color as int] == 3 {
                        3int
                    } else {
                        6int
                    }
                } else {
                    0int
                };
                let scans1 = if contains_id(scans, id) {
                    scans
                } else {
                    scans.push(id)
                };
                (scans1, tc1, cc1, score + base + tbonus + cbonus)
            } else {
                prev
            }
        } else {
            prev
        }
    }
}

pub proof fn lemma_bank_fold_bounds(
    w: World,
    ids: Seq<i32>,
    n: int,
    scans0: Seq<i32>,
    other_scans: Seq<i32>,
    tc0: Seq<i64>,
    cc0: Seq<i64>,
    otc: Seq<i64>,
    occ: Seq<i64>,
    score0: int,
)
    requires
        0 <= n,
        tc0.len() == 3,
        cc0.len() == 4,
    ensures
        ({
            let r = bank_fold(w, ids, n, scans0, other_scans, tc0, cc0, otc, occ, score0);
            &&& score0 <= r.3 <= score0 + 20 * n
            &&& r.0.len() <= scans0.len() + n
            &&& r.1.len() == tc0.len()
            &&& r.2.len() == cc0.len()
        }),
    decreases n,
{
    if n > 0 {
        lemma_bank_fold_bounds(w, ids, n - 1, scans0, other_scans, tc0, cc0, otc, occ, score0);
        let prev = bank_fold(w, ids, n - 1, scans0, other_scans, tc0, cc0, otc, occ, score0);
        let id = ids[n - 1];
        if has_creature(w.creatures@, id) {
            let c = creature_of(w.creatures@, id);
            if 0 <= c.typ <= 2 && 0 <= c.color <= 3 {
                let base = (c.typ + 1) * (if !contains_id(other_scans, id) {
                    2int
                } else {
                    1int
                });
                assert(1 <= base <= 6);
            }
        }
    }
}

/// Ghost mirror of one simulated drone.
pub struct SDrone {
    pub pos: Vec2,
    pub scans: Seq<i32>,
    pub battery: int,
}

pub open spec fn drone_model(d: DroneState) -> SDrone {
    SDrone { pos: d.pos, scans: d.scans@, battery: d.battery as int }
}

/// Ghost mirror of a whole solver state, over mathematical sequences.
pub struct SolverModel {
    pub my_drones: Seq<SDrone>,
    pub enemy_drones: Seq<SDrone>,
    pub my_scans: Seq<i32>,
    pub enemy_scans: Seq<i32>,
    pub my_score: int,
    pub enemy_score: int,
    pub my_typ_tally: Seq<i64>,
    pub my_col_tally: Seq<i64>,
    pub enemy_typ_tally: Seq<i64>,
    pub enemy_col_tally: Seq<i64>,
    pub visited: Seq<bool>,
}

/// Banking one drone's held scans of one side, on the model: the side's
/// account and tallies take the `bank_fold` results and every newly banked
/// id leaves both of that side's drones' holding lists.
pub open spec fn bank_spec(w: World, m: SolverModel, i: int, mine: bool) -> SolverModel {
    let ids = if mine {
        m.my_drones[i].scans
    } else {
        m.enemy_drones[i].scans
    };
    let r = bank_fold(
        w,
        ids,
        ids.len() as int,
        if mine {
            m.my_scans
        } else {
            m.enemy_scans
        },
        if mine {
            m.enemy_scans
        } else {
            m.my_scans
        },
        if mine {
            m.my_typ_tally
        } else {
            m.enemy_typ_tally
        },
        if mine {
            m.my_col_tally
        } else {
            m.enemy_col_tally
        },
        if mine {
            m.enemy_typ_tally
        } else {
            m.my_typ_tally
        },
        if mine {
            m.enemy_col_tally
        } else {
            m.my_col_tally
        },
        if mine {
            m.my_score
        } else {
            m.enemy_score
        },
    );
    if mine {
        SolverModel {
            my_scans: r.0,
            my_typ_tally: r.1,
            my_col_tally: r.2,
            my_score: r.3,
            my_drones: m.my_drones.map_values(
                |d: SDrone| SDrone { pos: d.pos, scans: remove_banked(d.scans, r.0), battery: d.battery },
            ),
            ..m
        }
    } else {
        SolverModel {
            enemy_scans: r.0,
            enemy_typ_tally: r.1,
            enemy_col_tally: r.2,
            enemy_score: r.3,
            enemy_drones: m.enemy_drones.map_values(
                |d: SDrone| SDrone { pos: d.pos, scans: remove_banked(d.scans, r.0), battery: d.battery },
            ),
            ..m
        }
    }
}

/// One plan step of one drone of one side, on the model: move (or drift
/// toward the surface), clamp into the map, bank above the banking depth,
/// mark the visited cell (clamped into the grid), update the battery.
pub open spec fn step_spec(
    w: World,
    m: SolverModel,
    i: int,
    a: Action,
    mine: bool,
    first: bool,
) -> SolverModel {
    let d = if mine {
        m.my_drones[i]
    } else {
        m.enemy_drones[i]
    };
    let mov = match a.mov {
        Some(v) => v,
        None => Vec2 { x: 0, y: -300i64 },
    };
    let np = d.pos.add_spec(mov).clamp_spec(Vec2 { x: 0, y: 0 }, Vec2 { x: MAP_SIZE, y: MAP_SIZE });
    let m1 = if np.y < BANK_Y {
        bank_spec(w, m, i, mine)
    } else {
        m
    };
    let cx = if np.x as int / 500 < CELLS {
        np.x as int / 500
    } else {
        CELLS - 1
    };
    let cy = if np.y as int / 500 < CELLS {
        np.y as int / 500
    } else {
        CELLS - 1
    };
    let nb = if first && a.light && d.battery >= 5 {
        d.battery - 5
    } else if d.battery < 1_000_000 {
        d.battery + 1
    } else {
        d.battery
    };
    let nd = SDrone {
        pos: np,
        battery: nb,
        scans: if mine {
            m1.my_drones[i].scans
        } else {
            m1.enemy_drones[i].scans
        },
    };
    if mine {
        SolverModel {
            my_drones: m1.my_drones.update(i, nd),
            visited: m1.visited.update(cy * CELLS + cx, true),
            ..m1
        }
    } else {
        SolverModel {
            enemy_drones: m1.enemy_drones.update(i, nd),
            visited: m1.visited.update(cy * CELLS + cx, true),
            ..m1
        }
    }
}

/// One plan tick: both own drones step, then both enemy drones.
pub open spec fn tick_spec(
    w: World,
    m: SolverModel,
    my: (Action, Action),
    en: (Action, Action),
    first: bool,
) -> SolverModel {
    let m1 = step_spec(w, m, 0, my.0, true, first);
    let m2 = step_spec(w, m1, 1, my.1, true, first);
    let m3 = step_spec(w, m2, 0, en.0, false, first);
    step_spec(w, m3, 1, en.1, false, first)
}

/// The first `k` plan ticks, the light honored only on the first.
pub open spec fn plan_fold(
    w: World,
    m: SolverModel,
    my: (Action, Action),
    en: (Action, Action),
    k: int,
) -> SolverModel
    decreases k,
{
    if k <= 0 {
        m
    } else {
        tick_spec(w, plan_fold(w, m, my, en, k - 1), my, en, k - 1 == 0)
    }
}

/// The bounds under which one more plan application is admitted during a
/// replay; a state that drifted beyond them is left as it is.
pub open spec fn within_replay_bounds(m: SolverModel) -> bool {
    &&& -100_000_000 <= m.my_score <= 100_000_000
    &&& -100_000_000 <= m.enemy_score <= 100_000_000
    &&& m.my_scans.len() <= 10_000
    &&& m.enemy_scans.len() <= 10_000
    &&& forall|k: int| 0 <= k < 3 ==> 0 <= (#[trigger] m.my_typ_tally[k]) <= 100_000
    &&& forall|k: int| 0 <= k < 3 ==> 0 <= (#[trigger] m.enemy_typ_tally[k]) <= 100_000
    &&& forall|k: int| 0 <= k < 4 ==> 0 <= (#[trigger] m.my_col_tally[k]) <= 100_000
    &&& forall|k: int| 0 <= k < 4 ==> 0 <= (#[trigger] m.enemy_col_tally[k]) <= 100_000
}

/// A whole plan replayed step by step: each of the first `k` plan entries
/// runs `iters` ticks, skipped once the state leaves the replay bounds.
pub open spec fn try_fold(
    w: World,
    m0: SolverModel,
    plan: Seq<(Action, Action)>,
    opp: Seq<(Action, Action)>,
    iters: int,
    k: int,
) -> SolverModel
    decreases k,
{
    if k <= 0 {
        m0
    } else {
        let prev = try_fold(w, m0, plan, opp, iters, k - 1);
        if within_replay_bounds(prev) {
            plan_fold(w, prev, plan[k - 1], opp[k - 1], iters)
        } else {
            prev
        }
    }
}

/// Plan value of a model state: banked score difference, weighted, plus the
/// visited cells' exploration weight.
pub open spec fn model_score(m: SolverModel, cells: Seq<i64>) -> int {
    (m.my_score - m.enemy_score) * 100 + visited_sum(cells, m.visited, (CELLS * CELLS) as int)
        / 1000
}

/// The opponent baseline plan: ten straight-up banking steps.
pub open spec fn opp_plan() -> Seq<(Action, Action)> {
    Seq::new(
        10,
        |i: int|
            (
                Action { mov: Some(Vec2 { x: 0, y: -800i64 }), light: true },
                Action { mov: Some(Vec2 { x: 0, y: -800i64 }), light: true },
            ),
    )
}

/// The value the solver assigns to a candidate plan: replay it against the
/// opponent baseline from the turn's snapshot state and score the outcome.
pub open spec fn plan_score(w: World, plan: Seq<(Action, Action)>, iters: int, cells: Seq<i64>) -> int {
    model_score(
        try_fold(w, snapshot_model(w), plan, opp_plan(), iters, plan.len() as int),
        cells,
    )
}

/// The plan that ages `prev` by one step: its first step dropped, every
/// later step shifted forward, and an arbitrary fresh final step.
pub open spec fn plan_aged_from(p0: Seq<(Action, Action)>, prev: Seq<(Action, Action)>) -> bool {
    &&& p0.len() == 10
    &&& prev.len() == 10
    &&& forall|t: int| 0 <= t < 9 ==> p0[t] == prev[t + 1]
}

/// The model state `SimulationState::new` builds from a snapshot.
pub open spec fn snapshot_model(w: World) -> SolverModel {
    SolverModel {
        my_drones: Seq::new(
            2,
            |i: int|
                SDrone {
                    pos: w.me.drones@[i].pos,
                    scans: w.me.drones@[i].scans@,
                    battery: w.me.drones@[i].bat as int,
                },
        ),
        enemy_drones: Seq::new(
            2,
            |i: int|
                SDrone {
                    pos: w.opponent.drones@[i].pos,
                    scans: w.opponent.drones@[i].scans@,
                    battery: w.opponent.drones@[i].bat as int,
                },
        ),
        my_scans: w.me.scans@,
        enemy_scans: w.opponent.scans@,
        my_score: w.me.score as int,
        enemy_score: w.opponent.score as int,
        my_typ_tally: Seq::new(
            3,
            |t: int| crate::world::count_typ(w.creatures@, w.me.scans@, t as i8) as i64,
        ),
        my_col_tally: Seq::new(
            4,
            |c: int| crate::world::count_col(w.creatures@, w.me.scans@, c as i8) as i64,
        ),
        enemy_typ_tally: Seq::new(
            3,
            |t: int| crate::world::count_typ(w.creatures@, w.opponent.scans@, t as i8) as i64,
        ),
        enemy_col_tally: Seq::new(
            4,
            |c: int| crate::world::count_col(w.creatures@, w.opponent.scans@, c as i8) as i64,
        ),
        visited: Seq::new((CELLS * CELLS) as nat, |k: int| false),
    }
}

impl SimulationState {
    /// The ghost mirror of this state.
    pub open spec fn model(self) -> SolverModel {
        SolverModel {
            my_drones: self.my_drones@.map_values(|d: DroneState| drone_model(d)),
            enemy_drones: self.enemy_drones@.map_values(|d: DroneState| drone_model(d)),
            my_scans: self.my_scans@,
            enemy_scans: self.enemy_scans@,
            my_score: self.my_score as int,
            enemy_score: self.enemy_score as int,
            my_typ_tally: self.my_fishes_of_type@,
            my_col_tally: self.my_fishes_of_color@,
            enemy_typ_tally: self.enemy_fishes_of_type@,
            enemy_col_tally: self.enemy_fishes_of_color@,
            visited: self.visited_cells@,
        }
    }
}

impl SimulationState {
    /// Structural validity of a solver state.
    pub open spec fn wf(self) -> bool {
        &&& self.my_drones@.len() == 2
        &&& self.enemy_drones@.len() == 2
        &&& forall|i: int|
            0 <= i < 2 ==> (#[trigger] self.my_drones@[i]).scans@.len() <= 10_000 && 0
                <= self.my_drones@[i].pos.x <= MAP_SIZE && 0 <= self.my_drones@[i].pos.y
                <= MAP_SIZE
        &&& forall|i: int|
            0 <= i < 2 ==> (#[trigger] self.enemy_drones@[i]).scans@.len() <= 10_000 && 0
                <= self.enemy_drones@[i].pos.x <= MAP_SIZE && 0 <= self.enemy_drones@[i].pos.y
                <= MAP_SIZE
        &&& self.my_scans@.len() <= 1_000_000
        &&& self.enemy_scans@.len() <= 1_000_000
        &&& forall|i: int|
            0 <= i < 2 ==> -1_000_000 <= (#[trigger] self.my_drones@[i]).battery <= 1_000_000
        &&& forall|i: int|
            0 <= i < 2 ==> -1_000_000 <= (#[trigger] self.enemy_drones@[i]).battery <= 1_000_000
        &&& -1_000_000_000 <= self.my_score <= 1_000_000_000
        &&& -1_000_000_000 <= self.enemy_score <= 1_000_000_000
        &&& self.my_fishes_of_type@.len() == 3
        &&& self.my_fishes_of_color@.len() == 4
        &&& self.enemy_fishes_of_type@.len() == 3
        &&& self.enemy_fishes_of_color@.len() == 4
        &&& self.visited_cells@.len() == CELLS * CELLS
    }

    /// The solver's start state for this turn, copied from the snapshot.
    pub fn new(world: &World) -> (r: SimulationState)
        requires
            world.wf(),
            -100_000_000 <= world.me.score <= 100_000_000,
            -100_000_000 <= world.opponent.score <= 100_000_000,
        ensures
            r.wf(),
            r.my_scans@ == world.me.scans@,
            r.enemy_scans@ == world.opponent.scans@,
            r.my_score == world.me.score,
            r.enemy_score == world.opponent.score,
            forall|i: int|
                0 <= i < 2 ==> (#[trigger] r.my_drones@[i]).pos == world.me.drones@[i].pos
                    && r.my_drones@[i].battery == world.me.drones@[i].bat
                    && r.my_drones@[i].scans@ == world.me.drones@[i].scans@,
            forall|i: int|
                0 <= i < 2 ==> (#[trigger] r.enemy_drones@[i]).pos == world.opponent.drones@[i].pos
                    && r.enemy_drones@[i].battery == world.opponent.drones@[i].bat
                    && r.enemy_drones@[i].scans@ == world.opponent.drones@[i].scans@,
            forall|t: int|
                0 <= t < 3 ==> #[trigger] r.my_fishes_of_type@[t] == crate::world::count_typ(
                    world.creatures@,
                    world.me.scans@,
                    t as i8,
                ) && r.enemy_fishes_of_type@[t] == crate::world::count_typ(
                    world.creatures@,
                    world.opponent.scans@,
                    t as i8,
                ),
            forall|c: int|
                0 <= c < 4 ==> #[trigger] r.my_fishes_of_color@[c] == crate::world::count_col(
                    world.creatures@,
                    world.me.scans@,
                    c as i8,
                ) && r.enemy_fishes_of_color@[c] == crate::world::count_col(
                    world.creatures@,
                    world.opponent.scans@,
                    c as i8,
                ),
            forall|k: int| 0 <= k < r.visited_cells@.len() ==> !(#[trigger] r.visited_cells@[k]),
            forall|k: int|
                0 <= k < 3 ==> 0 <= (#[trigger] r.my_fishes_of_type@[k]) <= 10_000,
            forall|k: int|
                0 <= k < 3 ==> 0 <= (#[trigger] r.enemy_fishes_of_type@[k]) <= 10_000,
            forall|k: int|
                0 <= k < 4 ==> 0 <= (#[trigger] r.my_fishes_of_color@[k]) <= 10_000,
            forall|k: int|
                0 <= k < 4 ==> 0 <= (#[trigger] r.enemy_fishes_of_color@[k]) <= 10_000,
            r.model() == snapshot_model(*world),
    {
        let mut my_drones: Vec<DroneState> = Vec::new();
        let mut enemy_drones: Vec<DroneState> = Vec::new();
        let mut i: usize = 0;
        while i < 2
            invariant
                world.wf(),
                0 <= i <= 2,
                my_drones@.len() == i,
                forall|j: int|
                    0 <= j < i ==> (#[trigger] my_drones@[j]).pos == world.me.drones@[j].pos
                        && my_drones@[j].battery == world.me.drones@[j].bat
                        && my_drones@[j].scans@ == world.me.drones@[j].scans@,
            decreases 2 - i,
        {
            let d = &world.me.drones[i];
            proof {
                assert(world.me.drones@[i as int].wf());
            }
            my_drones.push(
                DroneState {
                    pos: d.pos,
                    battery: d.bat,
                    scans: crate::simulation::clone_ids(&d.scans),
                },
            );
            i = i + 1;
        }
        let mut i2: usize = 0;
        while i2 < 2
            invariant
                world.wf(),
                0 <= i2 <= 2,
                enemy_drones@.len() == i2,
                forall|j: int|
                    0 <= j < i2 ==> (#[trigger] enemy_drones@[j]).pos
                        == world.opponent.drones@[j].pos && enemy_drones@[j].battery
                        == world.opponent.drones@[j].bat && enemy_drones@[j].scans@
                        == world.opponent.drones@[j].scans@,
            decreases 2 - i2,
        {
            let d = &world.opponent.drones[i2];
            proof {
                assert(world.opponent.drones@[i2 as int].wf());
            }
            enemy_drones.push(
                DroneState {
                    pos: d.pos,
                    battery: d.bat,
                    scans: crate::simulation::clone_ids(&d.scans),
                },
            );
            i2 = i2 + 1;
        }
        proof {
            crate::world::lemma_count_typ_nonneg(world.creatures@, world.me.scans@, 0);
            crate::world::lemma_count_typ_nonneg(world.creatures@, world.me.scans@, 1);
            crate::world::lemma_count_typ_nonneg(world.creatures@, world.me.scans@, 2);
            crate::world::lemma_count_typ_nonneg(world.creatures@, world.opponent.scans@, 0);
            crate::world::lemma_count_typ_nonneg(world.creatures@, world.opponent.scans@, 1);
            crate::world::lemma_count_typ_nonneg(world.creatures@, world.opponent.scans@, 2);
            crate::world::lemma_count_col_nonneg(world.creatures@, world.me.scans@, 0);
            crate::world::lemma_count_col_nonneg(world.creatures@, world.me.scans@, 1);
            crate::world::lemma_count_col_nonneg(world.creatures@, world.me.scans@, 2);
            crate::world::lemma_count_col_nonneg(world.creatures@, world.me.scans@, 3);
            crate::world::lemma_count_col_nonneg(world.creatures@, world.opponent.scans@, 0);
            crate::world::lemma_count_col_nonneg(world.creatures@, world.opponent.scans@, 1);
            crate::world::lemma_count_col_nonneg(world.creatures@, world.opponent.scans@, 2);
            crate::world::lemma_count_col_nonneg(world.creatures@, world.opponent.scans@, 3);
        }
        let mut my_fishes_of_type: Vec<i64> = Vec::new();
        my_fishes_of_type.push(world.count_scans_of_typ(&world.me.scans, 0) as i64);
        my_fishes_of_type.push(world.count_scans_of_typ(&world.me.scans, 1) as i64);
        my_fishes_of_type.push(world.count_scans_of_typ(&world.me.scans, 2) as i64);
        let mut enemy_fishes_of_type: Vec<i64> = Vec::new();
        enemy_fishes_of_type.push(world.count_scans_of_typ(&world.opponent.scans, 0) as i64);
        enemy_fishes_of_type.push(world.count_scans_of_typ(&world.opponent.scans, 1) as i64);
        enemy_fishes_of_type.push(world.count_scans_of_typ(&world.opponent.scans, 2) as i64);
        let mut my_fishes_of_color: Vec<i64> = Vec::new();
        my_fishes_of_color.push(world.count_scans_of_col(&world.me.scans, 0) as i64);
        my_fishes_of_color.push(world.count_scans_of_col(&world.me.scans, 1) as i64);
        my_fishes_of_color.push(world.count_scans_of_col(&world.me.scans, 2) as i64);
        my_fishes_of_color.push(world.count_scans_of_col(&world.me.scans, 3) as i64);
        let mut enemy_fishes_of_color: Vec<i64> = Vec::new();
        enemy_fishes_of_color.push(world.count_scans_of_col(&world.opponent.scans, 0) as i64);
        enemy_fishes_of_color.push(world.count_scans_of_col(&world.opponent.scans, 1) as i64);
        enemy_fishes_of_color.push(world.count_scans_of_col(&world.opponent.scans, 2) as i64);
        enemy_fishes_of_color.push(world.count_scans_of_col(&world.opponent.scans, 3) as i64);
        let mut visited_cells: Vec<bool> = Vec::new();
        let mut k: usize = 0;
        while k < CELLS * CELLS
            invariant
                visited_cells@.len() == k <= CELLS * CELLS,
                forall|j: int| 0 <= j < k ==> !(#[trigger] visited_cells@[j]),
            decreases CELLS * CELLS - k,
        {
            visited_cells.push(false);
            k = k + 1;
        }
        proof {
            assert forall|t: int|
                0 <= t < 3 implies #[trigger] my_fishes_of_type@[t] == crate::world::count_typ(
                world.creatures@,
                world.me.scans@,
                t as i8,
            ) && enemy_fishes_of_type@[t] == crate::world::count_typ(
                world.creatures@,
                world.opponent.scans@,
                t as i8,
            ) by {
                if t == 0 {
                } else if t == 1 {
                } else {
                    assert(t == 2);
                }
            }
            assert forall|c: int|
                0 <= c < 4 implies #[trigger] my_fishes_of_color@[c] == crate::world::count_col(
                world.creatures@,
                world.me.scans@,
                c as i8,
            ) && enemy_fishes_of_color@[c] == crate::world::count_col(
                world.creatures@,
                world.opponent.scans@,
                c as i8,
            ) by {
                if c == 0 {
                } else if c == 1 {
                } else if c == 2 {
                } else {
                    assert(c == 3);
                }
            }
            assert(world.me.drones@[0].wf() && world.me.drones@[1].wf());
            assert(world.opponent.drones@[0].wf() && world.opponent.drones@[1].wf());
        }
        let r = SimulationState {
            my_drones,
            enemy_drones,
            my_scans: clone_ids(&world.me.scans),
            enemy_scans: clone_ids(&world.opponent.scans),
            my_score: world.me.score as i64,
            enemy_score: world.opponent.score as i64,
            my_fishes_of_type,
            my_fishes_of_color,
            enemy_fishes_of_type,
            enemy_fishes_of_color,
            visited_cells,
        };
        proof {
            let sm = snapshot_model(*world);
            assert(r.model().my_drones =~= sm.my_drones);
            assert(r.model().enemy_drones =~= sm.enemy_drones);
            assert(r.model().my_typ_tally =~= sm.my_typ_tally);
            assert(r.model().my_col_tally =~= sm.my_col_tally);
            assert(r.model().enemy_typ_tally =~= sm.enemy_typ_tally);
            assert(r.model().enemy_col_tally =~= sm.enemy_col_tally);
            assert(r.model().visited =~= sm.visited);
            assert(r.model() == sm);
        }
        r
    }
}

/// The ids of `ids` that are not in `banked`, computed.
fn remove_banked_exec(ids: &Vec<i32>, banked: &Vec<i32>) -> (r: Vec<i32>)
    ensures
        r@ == remove_banked(ids@, banked@),
        r@.len() <= ids@.len(),
{
    proof {
        lemma_remove_banked_len(ids@, banked@);
    }
    let n = ids.len();
    let mut out: Vec<i32> = Vec::new();
    let mut i: usize = 0;
    while i < n
        invariant
            0 <= i <= n == ids@.len(),
            out@ == remove_banked(ids@.take(i as int), banked@),
            out@.len() <= i,
        decreases n - i,
    {
        proof {
            assert(ids@.take(i as int + 1).drop_last() =~= ids@.take(i as int));
            assert(ids@.take(i as int + 1).last() == ids@[i as int]);
            lemma_remove_banked_len(ids@.take(i as int), banked@);
        }
        if !contains_scan(banked, ids[i]) {
            out.push(ids[i]);
        }
        i = i + 1;
    }
    proof {
        assert(ids@.take(n as int) =~= ids@);
    }
    out
}

/// Banks one drone's held scans into one side's account, exactly as
/// `bank_fold` describes.
fn bank_side(
    world: &World,
    drone_scans: &Vec<i32>,
    scans: &mut Vec<i32>,
    other_scans: &Vec<i32>,
    tc: &mut Vec<i64>,
    cc: &mut Vec<i64>,
    otc: &Vec<i64>,
    occ: &Vec<i64>,
    score: &mut i64,
)
    requires
        world.wf(),
        old(tc)@.len() == 3,
        old(cc)@.len() == 4,
        otc@.len() == 3,
        occ@.len() == 4,
        drone_scans@.len() <= 10_000,
        old(scans)@.len() <= 990_000,
        -900_000_000 <= *old(score) <= 900_000_000,
        forall|k: int| 0 <= k < 3 ==> 0 <= (#[trigger] old(tc)@[k]) <= 1_000_000_000,
        forall|k: int| 0 <= k < 4 ==> 0 <= (#[trigger] old(cc)@[k]) <= 1_000_000_000,
    ensures
        ({
            let r = bank_fold(
                *world,
                drone_scans@,
                drone_scans@.len() as int,
                old(scans)@,
                other_scans@,
                old(tc)@,
                old(cc)@,
                otc@,
                occ@,
                *old(score) as int,
            );
            &&& final(scans)@ == r.0
            &&& final(tc)@ == r.1
            &&& final(cc)@ == r.2
            &&& *final(score) == r.3
        }),
        final(scans)@.len() <= old(scans)@.len() + drone_scans@.len(),
        *old(score) <= *final(score) <= *old(score) + 20 * drone_scans@.len(),
        final(tc)@.len() == 3,
        final(cc)@.len() == 4,
        forall|k: int|
            0 <= k < 3 ==> old(tc)@[k] <= (#[trigger] final(tc)@[k]) <= old(tc)@[k]
                + drone_scans@.len(),
        forall|k: int|
            0 <= k < 4 ==> old(cc)@[k] <= (#[trigger] final(cc)@[k]) <= old(cc)@[k]
                + drone_scans@.len(),
{
    let ghost w = *world;
    let ghost ids = drone_scans@;
    let ghost scans0 = scans@;
    let ghost tc0 = tc@;
    let ghost cc0 = cc@;
    let ghost score0 = *score as int;
    let n = drone_scans.len();
    let mut i: usize = 0;
    while i < n
        invariant
            world.wf(),
            w == *world,
            ids == drone_scans@,
            0 <= i <= n == ids.len(),
            n <= 10_000,
            scans0.len() <= 990_000,
            -900_000_000 <= score0 <= 900_000_000,
            otc@.len() == 3,
            occ@.len() == 4,
            tc0.len() == 3,
            cc0.len() == 4,
            forall|k: int| 0 <= k < 3 ==> 0 <= (#[trigger] tc0[k]) <= 1_000_000_000,
            forall|k: int| 0 <= k < 4 ==> 0 <= (#[trigger] cc0[k]) <= 1_000_000_000,
            ({
                let r = bank_fold(w, ids, i as int, scans0, other_scans@, tc0, cc0, otc@, occ@, score0);
                &&& scans@ == r.0
                &&& tc@ == r.1
                &&& cc@ == r.2
                &&& *score == r.3
            }),
        decreases n - i,
    {
        proof {
            lemma_bank_fold_bounds(w, ids, i as int, scans0, other_scans@, tc0, cc0, otc@, occ@, score0);
            lemma_bank_fold_bounds(w, ids, i as int + 1, scans0, other_scans@, tc0, cc0, otc@, occ@, score0);
            lemma_bank_fold_tallies(w, ids, i as int, scans0, other_scans@, tc0, cc0, otc@, occ@, score0);
            lemma_bank_fold_tallies(w, ids, i as int + 1, scans0, other_scans@, tc0, cc0, otc@, occ@, score0);
        }
        let id = drone_scans[i];
        let found = world.find_creature(id);
        match found {
            Some(c) => {
                proof {
                    world.lemma_found_is_creature_of(c);
                }
                if 0 <= c.typ && c.typ <= 2 && 0 <= c.color && c.color <= 3 {
                    let mut points: i64 = (c.typ as i64) + 1;
                    if !contains_scan(other_scans, id) {
                        points = points * 2;
                    }
                    let ti = c.typ as usize;
                    let ci = c.color as usize;
                    let tval = tc[ti] + 1;
                    tc.set(ti, tval);
                    let cval = cc[ci] + 1;
                    cc.set(ci, cval);
                    if tval == 4 {
                        if otc[ti] == 4 {
                            points = points + 4;
                        } else {
                            points = points + 8;
                        }
                    }
                    if cval == 3 {
                        if occ[ci] == 3 {
                            points = points + 3;
                        } else {
                            points = points + 6;
                        }
                    }
                    if !contains_scan(scans, id) {
                        scans.push(id);
                    }
                    *score = *score + points;
                }
            },
            None => {},
        }
        i = i + 1;
    }
    proof {
        lemma_bank_fold_bounds(w, ids, n as int, scans0, other_scans@, tc0, cc0, otc@, occ@, score0);
        lemma_bank_fold_tallies(w, ids, n as int, scans0, other_scans@, tc0, cc0, otc@, occ@, score0);
    }
}

/// A sum bound on how far banking can move the tallies.
pub proof fn lemma_bank_fold_tallies(
    w: World,
    ids: Seq<i32>,
    n: int,
    scans0: Seq<i32>,
    other_scans: Seq<i32>,
    tc0: Seq<i64>,
    cc0: Seq<i64>,
    otc: Seq<i64>,
    occ: Seq<i64>,
    score0: int,
)
    requires
        0 <= n <= 10_000,
        tc0.len() == 3,
        cc0.len() == 4,
        forall|k: int| 0 <= k < 3 ==> 0 <= (#[trigger] tc0[k]) <= 1_000_000_000,
        forall|k: int| 0 <= k < 4 ==> 0 <= (#[trigger] cc0[k]) <= 1_000_000_000,
    ensures
        ({
            let r = bank_fold(w, ids, n, scans0, other_scans, tc0, cc0, otc, occ, score0);
            &&& forall|k: int|
                0 <= k < 3 ==> tc0[k] <= (#[trigger] r.1[k]) <= tc0[k] + n
            &&& forall|k: int|
                0 <= k < 4 ==> cc0[k] <= (#[trigger] r.2[k]) <= cc0[k] + n
        }),
    decreases n,
{
    if n > 0 {
        lemma_bank_fold_tallies(w, ids, n - 1, scans0, other_scans, tc0, cc0, otc, occ, score0);
        lemma_bank_fold_bounds(w, ids, n - 1, scans0, other_scans, tc0, cc0, otc, occ, score0);
        let prev = bank_fold(w, ids, n - 1, scans0, other_scans, tc0, cc0, otc, occ, score0);
        let id = ids[n - 1];
        if has_creature(w.creatures@, id) {
            let c = creature_of(w.creatures@, id);
            if 0 <= c.typ <= 2 && 0 <= c.color <= 3 {
                let tc1 = prev.1.update(c.typ as int, (prev.1[c.typ as int] + 1) as i64);
                let cc1 = prev.2.update(c.color as int, (prev.2[c.color as int] + 1) as i64);
                assert forall|k: int| 0 <= k < 3 implies tc0[k] <= (#[trigger] tc1[k]) <= tc0[k]
                    + n by {
                    if k != c.typ as int {
                        assert(tc1[k] == prev.1[k]);
                    }
                }
                assert forall|k: int| 0 <= k < 4 implies cc0[k] <= (#[trigger] cc1[k]) <= cc0[k]
                    + n by {
                    if k != c.color as int {
                        assert(cc1[k] == prev.2[k]);
                    }
                }
            }
        }
    }
}

impl SimulationState {
    /// Banks the held scans of one drone of one side: each scan is scored
    /// with its doubling and completion bonuses, the banked set and tallies
    /// grow accordingly, and every newly banked id leaves both of that
    /// side's drones' holding lists.
    pub fn evaluate_scans(&mut self, world: &World, idx: usize, mine: bool)
        requires
            old(self).wf(),
            world.wf(),
            idx < 2,
            -900_000_000 <= old(self).my_score <= 900_000_000,
            -900_000_000 <= old(self).enemy_score <= 900_000_000,
            old(self).my_scans@.len() <= 980_000,
            old(self).enemy_scans@.len() <= 980_000,
            forall|k: int|
                0 <= k < 3 ==> 0 <= (#[trigger] old(self).my_fishes_of_type@[k])
                    <= 1_000_000_000,
            forall|k: int|
                0 <= k < 3 ==> 0 <= (#[trigger] old(self).enemy_fishes_of_type@[k])
                    <= 1_000_000_000,
            forall|k: int|
                0 <= k < 4 ==> 0 <= (#[trigger] old(self).my_fishes_of_color@[k])
                    <= 1_000_000_000,
            forall|k: int|
                0 <= k < 4 ==> 0 <= (#[trigger] old(self).enemy_fishes_of_color@[k])
                    <= 1_000_000_000,
        ensures
            final(self).wf(),
            final(self).visited_cells@ == old(self).visited_cells@,
            ({
                let side_scans = if mine {
                    old(self).my_drones@[idx as int].scans@
                } else {
                    old(self).enemy_drones@[idx as int].scans@
                };
                let r = bank_fold(
                    *world,
                    side_scans,
                    side_scans.len() as int,
                    if mine { old(self).my_scans@ } else { old(self).enemy_scans@ },
                    if mine { old(self).enemy_scans@ } else { old(self).my_scans@ },
                    if mine { old(self).my_fishes_of_type@ } else { old(self).enemy_fishes_of_type@ },
                    if mine { old(self).my_fishes_of_color@ } else { old(self).enemy_fishes_of_color@ },
                    if mine { old(self).enemy_fishes_of_type@ } else { old(self).my_fishes_of_type@ },
                    if mine { old(self).enemy_fishes_of_color@ } else { old(self).my_fishes_of_color@ },
                    if mine { old(self).my_score as int } else { old(self).enemy_score as int },
                );
                if mine {
                    &&& final(self).my_scans@ == r.0
                    &&& final(self).my_fishes_of_type@ == r.1
                    &&& final(self).my_fishes_of_color@ == r.2
                    &&& final(self).my_score == r.3
                    &&& old(self).my_score <= final(self).my_score <= old(self).my_score + 200_000
                    &&& final(self).enemy_scans@ == old(self).enemy_scans@
                    &&& final(self).enemy_score == old(self).enemy_score
                    &&& final(self).enemy_fishes_of_type@ == old(self).enemy_fishes_of_type@
                    &&& final(self).enemy_fishes_of_color@ == old(self).enemy_fishes_of_color@
                    &&& final(self).enemy_drones@ == old(self).enemy_drones@
                    &&& forall|k: int|
                        0 <= k < 3 ==> old(self).my_fishes_of_type@[k] <= (
                        #[trigger] final(self).my_fishes_of_type@[k]) <= old(self).my_fishes_of_type@[k] + 10_000
                    &&& forall|k: int|
                        0 <= k < 4 ==> old(self).my_fishes_of_color@[k] <= (
                        #[trigger] final(self).my_fishes_of_color@[k]) <= old(self).my_fishes_of_color@[k] + 10_000
                    &&& forall|d: int|
                        0 <= d < 2 ==> (#[trigger] final(self).my_drones@[d]).scans@
                            == remove_banked(old(self).my_drones@[d].scans@, r.0) && final(self).my_drones@[d].pos == old(self).my_drones@[d].pos && final(self).my_drones@[d].battery == old(self).my_drones@[d].battery
                } else {
                    &&& final(self).enemy_scans@ == r.0
                    &&& final(self).enemy_fishes_of_type@ == r.1
                    &&& final(self).enemy_fishes_of_color@ == r.2
                    &&& final(self).enemy_score == r.3
                    &&& old(self).enemy_score <= final(self).enemy_score <= old(self).enemy_score
                        + 200_000
                    &&& final(self).my_scans@ == old(self).my_scans@
                    &&& final(self).my_score == old(self).my_score
                    &&& final(self).my_fishes_of_type@ == old(self).my_fishes_of_type@
                    &&& final(self).my_fishes_of_color@ == old(self).my_fishes_of_color@
                    &&& final(self).my_drones@ == old(self).my_drones@
                    &&& forall|k: int|
                        0 <= k < 3 ==> old(self).enemy_fishes_of_type@[k] <= (
                        #[trigger] final(self).enemy_fishes_of_type@[k]) <= old(self).enemy_fishes_of_type@[k] + 10_000
                    &&& forall|k: int|
                        0 <= k < 4 ==> old(self).enemy_fishes_of_color@[k] <= (
                        #[trigger] final(self).enemy_fishes_of_color@[k]) <= old(self).enemy_fishes_of_color@[k] + 10_000
                    &&& forall|d: int|
                        0 <= d < 2 ==> (#[trigger] final(self).enemy_drones@[d]).scans@
                            == remove_banked(old(self).enemy_drones@[d].scans@, r.0) && final(self).enemy_drones@[d].pos == old(self).enemy_drones@[d].pos && final(self).enemy_drones@[d].battery == old(self).enemy_drones@[d].battery
                }
            }),
    {
        if mine {
            let held = clone_ids(&vstd::std_specs::vec::vec_index(&self.my_drones, idx).scans);
            bank_side(
                world,
                &held,
                &mut self.my_scans,
                &self.enemy_scans,
                &mut self.my_fishes_of_type,
                &mut self.my_fishes_of_color,
                &self.enemy_fishes_of_type,
                &self.enemy_fishes_of_color,
                &mut self.my_score,
            );
            let d0 = remove_banked_exec(
                &vstd::std_specs::vec::vec_index(&self.my_drones, 0).scans,
                &self.my_scans,
            );
            let d1 = remove_banked_exec(
                &vstd::std_specs::vec::vec_index(&self.my_drones, 1).scans,
                &self.my_scans,
            );
            let p0 = vstd::std_specs::vec::vec_index(&self.my_drones, 0).pos;
            let b0 = vstd::std_specs::vec::vec_index(&self.my_drones, 0).battery;
            let p1 = vstd::std_specs::vec::vec_index(&self.my_drones, 1).pos;
            let b1 = vstd::std_specs::vec::vec_index(&self.my_drones, 1).battery;
            self.my_drones.set(0, DroneState { pos: p0, battery: b0, scans: d0 });
            self.my_drones.set(1, DroneState { pos: p1, battery: b1, scans: d1 });
        } else {
            let held = clone_ids(&vstd::std_specs::vec::vec_index(&self.enemy_drones, idx).scans);
            bank_side(
                world,
                &held,
                &mut self.enemy_scans,
                &self.my_scans,
                &mut self.enemy_fishes_of_type,
                &mut self.enemy_fishes_of_color,
                &self.my_fishes_of_type,
                &self.my_fishes_of_color,
                &mut self.enemy_score,
            );
            let d0 = remove_banked_exec(
                &vstd::std_specs::vec::vec_index(&self.enemy_drones, 0).scans,
                &self.enemy_scans,
            );
            let d1 = remove_banked_exec(
                &vstd::std_specs::vec::vec_index(&self.enemy_drones, 1).scans,
                &self.enemy_scans,
            );
            let p0 = vstd::std_specs::vec::vec_index(&self.enemy_drones, 0).pos;
            let b0 = vstd::std_specs::vec::vec_index(&self.enemy_drones, 0).battery;
            let p1 = vstd::std_specs::vec::vec_index(&self.enemy_drones, 1).pos;
            let b1 = vstd::std_specs::vec::vec_index(&self.enemy_drones, 1).battery;
            self.enemy_drones.set(0, DroneState { pos: p0, battery: b0, scans: d0 });
            self.enemy_drones.set(1, DroneState { pos: p1, battery: b1, scans: d1 });
        }
    }
}

/// One plan step for one drone: an optional move vector and a light toggle.
#[derive(Clone, Copy, Debug)]
pub struct Action {
    pub mov: Option<Vec2>,
    pub light: bool,
}

impl Action {
    /// Move vectors stay small enough for every position update to fit.
    pub open spec fn wf(self) -> bool {
        self.mov matches Some(m) ==> -2000 <= m.x <= 2000 && -2000 <= m.y <= 2000
    }
}

/// Sum of the first `n` cell weights whose cells the plan visited.
pub open spec fn visited_sum(cells: Seq<i64>, visited: Seq<bool>, n: int) -> int
    decreases n,
{
    if n <= 0 {
        0
    } else {
        visited_sum(cells, visited, n - 1) + if visited[n - 1] {
            cells[n - 1] as int
        } else {
            0int
        }
    }
}

pub proof fn lemma_visited_sum_bounds(cells: Seq<i64>, visited: Seq<bool>, n: int)
    requires
        0 <= n <= cells.len(),
        forall|k: int| 0 <= k < cells.len() ==> 0 <= #[trigger] cells[k] <= 1_000_000_000,
    ensures
        0 <= visited_sum(cells, visited, n) <= 1_000_000_000 * n,
    decreases n,
{
    if n > 0 {
        lemma_visited_sum_bounds(cells, visited, n - 1);
    }
}

impl SimulationState {
    /// Plan value: banked score difference, weighted heavily, plus the
    /// visited cells' exploration weight (in whole units of the fixed-point
    /// cell scale).
    pub fn score(&self, cells: &Vec<i64>) -> (r: i64)
        requires
            self.wf(),
            cells@.len() == CELLS * CELLS,
            forall|k: int| 0 <= k < cells@.len() ==> 0 <= #[trigger] cells@[k] <= 1_000_000_000,
        ensures
            r == (self.my_score - self.enemy_score) * 100 + visited_sum(
                cells@,
                self.visited_cells@,
                (CELLS * CELLS) as int,
            ) / 1000,
    {
        let n = cells.len();
        let mut acc: i64 = 0;
        let mut k: usize = 0;
        while k < n
            invariant
                self.wf(),
                0 <= k <= n == cells@.len(),
                n == CELLS * CELLS,
                forall|j: int| 0 <= j < cells@.len() ==> 0 <= #[trigger] cells@[j]
                    <= 1_000_000_000,
                acc == visited_sum(cells@, self.visited_cells@, k as int),
                0 <= acc <= 1_000_000_000 * k,
            decreases n - k,
        {
            proof {
                lemma_visited_sum_bounds(cells@, self.visited_cells@, k as int);
            }
            if self.visited_cells[k] {
                acc = acc + cells[k];
            }
            k = k + 1;
        }
        let diff = self.my_score - self.enemy_score;
        let expl = ((acc as u64) / 1000u64) as i64;
        proof {
            vstd::arithmetic::div_mod::lemma_div_nonincreasing(acc as int, 1000);
            vstd::arithmetic::div_mod::lemma_div_pos_is_pos(acc as int, 1000);
        }
        diff * 100 + expl
    }

    /// One move step of one drone of one side: apply the move (or the
    /// default drift toward the surface), clamp into the map, bank above the
    /// banking depth, mark the visited cell, and update the battery.
    fn step_drone(
        &mut self,
        world: &World,
        i: usize,
        action: Action,
        mine: bool,
        first: bool,
    )
        requires
            old(self).wf(),
            world.wf(),
            i < 2,
            action.wf(),
            -900_000_000 + 400_000 <= old(self).my_score <= 900_000_000 - 400_000,
            -900_000_000 + 400_000 <= old(self).enemy_score <= 900_000_000 - 400_000,
            old(self).my_scans@.len() <= 970_000,
            old(self).enemy_scans@.len() <= 970_000,
            forall|k: int|
                0 <= k < 3 ==> 0 <= (#[trigger] old(self).my_fishes_of_type@[k])
                    <= 999_000_000,
            forall|k: int|
                0 <= k < 3 ==> 0 <= (#[trigger] old(self).enemy_fishes_of_type@[k])
                    <= 999_000_000,
            forall|k: int|
                0 <= k < 4 ==> 0 <= (#[trigger] old(self).my_fishes_of_color@[k])
                    <= 999_000_000,
            forall|k: int|
                0 <= k < 4 ==> 0 <= (#[trigger] old(self).enemy_fishes_of_color@[k])
                    <= 999_000_000,
        ensures
            final(self).wf(),
            final(self).model() == step_spec(*world, old(self).model(), i as int, action, mine, first),
            ({
                let d = if mine {
                    old(self).my_drones@[i as int]
                } else {
                    old(self).enemy_drones@[i as int]
                };
                let mov = match action.mov {
                    Some(m) => m,
                    None => Vec2 { x: 0, y: -300i64 },
                };
                let np = d.pos.add_spec(mov).clamp_spec(
                    Vec2 { x: 0, y: 0 },
                    Vec2 { x: MAP_SIZE, y: MAP_SIZE },
                );
                let nd = if mine {
                    final(self).my_drones@[i as int]
                } else {
                    final(self).enemy_drones@[i as int]
                };
                let cx = if np.x as int / 500 < CELLS {
                    np.x as int / 500
                } else {
                    CELLS - 1
                };
                let cy = if np.y as int / 500 < CELLS {
                    np.y as int / 500
                } else {
                    CELLS - 1
                };
                &&& nd.pos == np
                &&& nd.battery == if first && action.light && d.battery >= 5 {
                    d.battery - 5
                } else if d.battery < 1_000_000 {
                    d.battery + 1
                } else {
                    d.battery as int
                }
                &&& final(self).visited_cells@ == old(self).visited_cells@.update(
                    cy * CELLS + cx,
                    true,
                )
                &&& (np.y >= BANK_Y ==> final(self).my_score == old(self).my_score && final(self).enemy_score == old(self).enemy_score && final(self).my_scans@ == old(self).my_scans@ && final(self).enemy_scans@ == old(self).enemy_scans@)
            }),
            old(self).my_score <= final(self).my_score <= old(self).my_score + 200_000,
            old(self).enemy_score <= final(self).enemy_score <= old(self).enemy_score + 200_000,
            final(self).my_scans@.len() <= old(self).my_scans@.len() + 10_000,
            final(self).enemy_scans@.len() <= old(self).enemy_scans@.len() + 10_000,
            forall|k: int|
                0 <= k < 3 ==> old(self).my_fishes_of_type@[k] <= (#[trigger] final(self).my_fishes_of_type@[k]) <= old(self).my_fishes_of_type@[k] + 10_000,
            forall|k: int|
                0 <= k < 3 ==> old(self).enemy_fishes_of_type@[k] <= (#[trigger] final(self).enemy_fishes_of_type@[k]) <= old(self).enemy_fishes_of_type@[k] + 10_000,
            forall|k: int|
                0 <= k < 4 ==> old(self).my_fishes_of_color@[k] <= (#[trigger] final(self).my_fishes_of_color@[k]) <= old(self).my_fishes_of_color@[k] + 10_000,
            forall|k: int|
                0 <= k < 4 ==> old(self).enemy_fishes_of_color@[k] <= (#[trigger] final(self).enemy_fishes_of_color@[k]) <= old(self).enemy_fishes_of_color@[k] + 10_000,
    {
        let drones = if mine {
            &self.my_drones
        } else {
            &self.enemy_drones
        };
        let d = vstd::std_specs::vec::vec_index(drones, i);
        let mov = match action.mov {
            Some(m) => m,
            None => Vec2 { x: 0, y: -300 },
        };
        let pos = d.pos.add(mov).clamp(Vec2 { x: 0, y: 0 }, Vec2 { x: MAP_SIZE, y: MAP_SIZE });
        let bat = d.battery;
        let ghost m0 = self.model();
        let banked = pos.y < BANK_Y;
        if banked {
            let ghost snap = *self;
            self.evaluate_scans(world, i, mine);
            proof {
                assert(self.model().my_drones =~= bank_spec(*world, m0, i as int, mine).my_drones);
                assert(self.model().enemy_drones =~= bank_spec(
                    *world,
                    m0,
                    i as int,
                    mine,
                ).enemy_drones);
                assert(self.model() == bank_spec(*world, m0, i as int, mine));
            }
            proof {
                if mine {
                    let ids = snap.my_drones@[i as int].scans@;
                    lemma_bank_fold_bounds(
                        *world,
                        ids,
                        ids.len() as int,
                        snap.my_scans@,
                        snap.enemy_scans@,
                        snap.my_fishes_of_type@,
                        snap.my_fishes_of_color@,
                        snap.enemy_fishes_of_type@,
                        snap.enemy_fishes_of_color@,
                        snap.my_score as int,
                    );
                    lemma_remove_banked_len(snap.my_drones@[0].scans@, self.my_scans@);
                    lemma_remove_banked_len(snap.my_drones@[1].scans@, self.my_scans@);
                } else {
                    let ids = snap.enemy_drones@[i as int].scans@;
                    lemma_bank_fold_bounds(
                        *world,
                        ids,
                        ids.len() as int,
                        snap.enemy_scans@,
                        snap.my_scans@,
                        snap.enemy_fishes_of_type@,
                        snap.enemy_fishes_of_color@,
                        snap.my_fishes_of_type@,
                        snap.my_fishes_of_color@,
                        snap.enemy_score as int,
                    );
                    lemma_remove_banked_len(snap.enemy_drones@[0].scans@, self.enemy_scans@);
                    lemma_remove_banked_len(snap.enemy_drones@[1].scans@, self.enemy_scans@);
                }
            }
        }
        let mut cx = ((pos.x as u64) / 500) as usize;
        let mut cy = ((pos.y as u64) / 500) as usize;
        if cx >= CELLS {
            cx = CELLS - 1;
        }
        if cy >= CELLS {
            cy = CELLS - 1;
        }
        self.visited_cells.set(cy * CELLS + cx, true);
        let newbat: i32 = if first && action.light && bat >= 5 {
            bat - 5
        } else if bat < 1_000_000 {
            bat + 1
        } else {
            bat
        };
        let ghost mid: SolverModel = if banked {
            bank_spec(*world, m0, i as int, mine)
        } else {
            m0
        };
        proof {
            assert(self.model().visited =~= mid.visited.update(
                (cy * CELLS + cx) as int,
                true,
            ));
        }
        if mine {
            let sc = clone_ids(&vstd::std_specs::vec::vec_index(&self.my_drones, i).scans);
            self.my_drones.set(i, DroneState { pos, battery: newbat, scans: sc });
        } else {
            let sc = clone_ids(&vstd::std_specs::vec::vec_index(&self.enemy_drones, i).scans);
            self.enemy_drones.set(i, DroneState { pos, battery: newbat, scans: sc });
        }
        proof {
            let r = step_spec(*world, m0, i as int, action, mine, first);
            if mine {
                assert(self.model().my_drones =~= r.my_drones);
                assert(self.model().enemy_drones =~= r.enemy_drones);
            } else {
                assert(self.model().my_drones =~= r.my_drones);
                assert(self.model().enemy_drones =~= r.enemy_drones);
            }
            assert(self.model().visited =~= r.visited);
            assert(self.model() == r);
        }
    }
}

/// Runs a fixed number of plan steps: each tick moves and banks both sides'
/// drones under the given per-side action pair.
pub fn simulate(
    world: &World,
    state: &mut SimulationState,
    my_actions: (Action, Action),
    enemy_actions: (Action, Action),
    iters: usize,
)
    requires
        world.wf(),
        old(state).wf(),
        my_actions.0.wf(),
        my_actions.1.wf(),
        enemy_actions.0.wf(),
        enemy_actions.1.wf(),
        iters <= 20,
        -100_000_000 <= old(state).my_score <= 100_000_000,
        -100_000_000 <= old(state).enemy_score <= 100_000_000,
        old(state).my_scans@.len() <= 10_000,
        old(state).enemy_scans@.len() <= 10_000,
        forall|k: int|
            0 <= k < 3 ==> 0 <= (#[trigger] old(state).my_fishes_of_type@[k]) <= 100_000,
        forall|k: int|
            0 <= k < 3 ==> 0 <= (#[trigger] old(state).enemy_fishes_of_type@[k]) <= 100_000,
        forall|k: int|
            0 <= k < 4 ==> 0 <= (#[trigger] old(state).my_fishes_of_color@[k]) <= 100_000,
        forall|k: int|
            0 <= k < 4 ==> 0 <= (#[trigger] old(state).enemy_fishes_of_color@[k]) <= 100_000,
    ensures
        final(state).wf(),
        final(state).model() == plan_fold(
            *world,
            old(state).model(),
            my_actions,
            enemy_actions,
            iters as int,
        ),
        old(state).my_score <= final(state).my_score <= old(state).my_score + 20 * 800_000,
        old(state).enemy_score <= final(state).enemy_score <= old(state).enemy_score + 20
            * 800_000,
{
    let mut it: usize = 0;
    while it < iters
        invariant
            world.wf(),
            state.wf(),
            my_actions.0.wf(),
            my_actions.1.wf(),
            enemy_actions.0.wf(),
            enemy_actions.1.wf(),
            0 <= it <= iters <= 20,
            state.model() == plan_fold(*world, old(state).model(), my_actions, enemy_actions, it as int),
            old(state).my_score <= state.my_score <= old(state).my_score + (800_000) * it,
            old(state).enemy_score <= state.enemy_score <= old(state).enemy_score + (800_000)
                * it,
            -100_000_000 <= old(state).my_score <= 100_000_000,
            -100_000_000 <= old(state).enemy_score <= 100_000_000,
            state.my_scans@.len() <= old(state).my_scans@.len() + (40_000) * it,
            state.enemy_scans@.len() <= old(state).enemy_scans@.len() + (40_000) * it,
            old(state).my_scans@.len() <= 10_000,
            old(state).enemy_scans@.len() <= 10_000,
            forall|k: int|
                0 <= k < 3 ==> 0 <= (#[trigger] state.my_fishes_of_type@[k]) <= 100_000 + (
                40_000) * it,
            forall|k: int|
                0 <= k < 3 ==> 0 <= (#[trigger] state.enemy_fishes_of_type@[k]) <= 100_000 + (
                40_000) * it,
            forall|k: int|
                0 <= k < 4 ==> 0 <= (#[trigger] state.my_fishes_of_color@[k]) <= 100_000 + (
                40_000) * it,
            forall|k: int|
                0 <= k < 4 ==> 0 <= (#[trigger] state.enemy_fishes_of_color@[k]) <= 100_000 + (
                40_000) * it,
        decreases iters - it,
    {
        proof {
            assert((40_000) * it <= 800_000 && (800_000) * it <= 16_000_000) by (nonlinear_arith)
                requires
                    0 <= it <= 20,
            ;
        }
        let first = it == 0;
        state.step_drone(world, 0, my_actions.0, true, first);
        state.step_drone(world, 1, my_actions.1, true, first);
        state.step_drone(world, 0, enemy_actions.0, false, first);
        state.step_drone(world, 1, enemy_actions.1, false, first);
        proof {
            assert((40_000) * (it + 1) == (40_000) * it + 40_000 && (800_000) * (it + 1) == (
            800_000) * it + 800_000) by (nonlinear_arith);
        }
        it = it + 1;
    }
}

/// One random plan step: one of eight compass moves and an occasional light.
fn random_action(rng: &mut rand::rngs::StdRng) -> (r: Action)
    ensures
        r.wf(),
        r.mov is Some,
{
    let k = rng_below(rng, 8);
    let mov = if k == 0 {
        Vec2 { x: -400, y: -400 }
    } else if k == 1 {
        Vec2 { x: -600, y: 0 }
    } else if k == 2 {
        Vec2 { x: -400, y: 400 }
    } else if k == 3 {
        Vec2 { x: 0, y: -600 }
    } else if k == 4 {
        Vec2 { x: 0, y: 600 }
    } else if k == 5 {
        Vec2 { x: 400, y: -400 }
    } else if k == 6 {
        Vec2 { x: 600, y: 0 }
    } else {
        Vec2 { x: 400, y: 400 }
    };
    let light = rng_below(rng, 4) == 1;
    Action { mov: Some(mov), light }
}

/// The straight-up banking step.
fn up_action() -> (r: Action)
    ensures
        r.wf(),
        r == (Action { mov: Some(Vec2 { x: 0, y: -800i64 }), light: true }),
{
    Action { mov: Some(Vec2 { x: 0, y: -800 }), light: true }
}

/// Whether every step of a plan is well-formed.
pub open spec fn plan_wf(p: Seq<(Action, Action)>) -> bool {
    forall|i: int| 0 <= i < p.len() ==> (#[trigger] p[i]).0.wf() && p[i].1.wf()
}

/// A plan of random steps.
fn generate_random_actions(size: usize, rng: &mut rand::rngs::StdRng) -> (r: Vec<(Action, Action)>)
    ensures
        r@.len() == size,
        plan_wf(r@),
{
    let mut out: Vec<(Action, Action)> = Vec::new();
    let mut i: usize = 0;
    while i < size
        invariant
            0 <= i <= size,
            out@.len() == i,
            plan_wf(out@),
        decreases size - i,
    {
        let a = random_action(rng);
        let b = random_action(rng);
        out.push((a, b));
        i = i + 1;
    }
    out
}

/// A plan that only surfaces and banks.
fn generate_opponent_actions(size: usize) -> (r: Vec<(Action, Action)>)
    ensures
        r@.len() == size,
        plan_wf(r@),
        size == 10 ==> r@ == opp_plan(),
{
    let mut out: Vec<(Action, Action)> = Vec::new();
    let mut i: usize = 0;
    while i < size
        invariant
            0 <= i <= size,
            out@.len() == i,
            plan_wf(out@),
            forall|j: int|
                0 <= j < i ==> #[trigger] out@[j] == (
                    Action { mov: Some(Vec2 { x: 0, y: -800i64 }), light: true },
                    Action { mov: Some(Vec2 { x: 0, y: -800i64 }), light: true },
                ),
        decreases size - i,
    {
        out.push((up_action(), up_action()));
        i = i + 1;
    }
    proof {
        if size == 10 {
            assert(out@ =~= opp_plan());
        }
    }
    out
}

/// A copy of a plan.
fn clone_plan(p: &Vec<(Action, Action)>) -> (r: Vec<(Action, Action)>)
    ensures
        r@ == p@,
{
    let n = p.len();
    let mut out: Vec<(Action, Action)> = Vec::new();
    let mut i: usize = 0;
    while i < n
        invariant
            0 <= i <= n == p@.len(),
            out@.len() == i,
            forall|j: int| 0 <= j < i ==> #[trigger] out@[j] == p@[j],
        decreases n - i,
    {
        out.push(p[i]);
        i = i + 1;
    }
    proof {
        assert(out@ =~= p@);
    }
    out
}

/// Runs one plan against the opponent baseline from a fresh copy of the
/// start state and returns its value.
fn try_plan(
    world: &World,
    initial: &SimulationState,
    plan: &Vec<(Action, Action)>,
    opponent: &Vec<(Action, Action)>,
    iters: usize,
    cells: &Vec<i64>,
) -> (r: i64)
    requires
        world.wf(),
        initial.wf(),
        plan_wf(plan@),
        plan_wf(opponent@),
        plan@.len() <= 100,
        opponent@.len() == plan@.len(),
        iters <= 20,
        -100_000_000 <= initial.my_score <= 100_000_000,
        -100_000_000 <= initial.enemy_score <= 100_000_000,
        initial.my_scans@.len() <= 10_000,
        initial.enemy_scans@.len() <= 10_000,
        forall|k: int|
            0 <= k < 3 ==> 0 <= (#[trigger] initial.my_fishes_of_type@[k]) <= 100_000,
        forall|k: int|
            0 <= k < 3 ==> 0 <= (#[trigger] initial.enemy_fishes_of_type@[k]) <= 100_000,
        forall|k: int|
            0 <= k < 4 ==> 0 <= (#[trigger] initial.my_fishes_of_color@[k]) <= 100_000,
        forall|k: int|
            0 <= k < 4 ==> 0 <= (#[trigger] initial.enemy_fishes_of_color@[k]) <= 100_000,
        cells@.len() == CELLS * CELLS,
        forall|k: int| 0 <= k < cells@.len() ==> 0 <= #[trigger] cells@[k] <= 1_000_000_000,
    ensures
        r == model_score(
            try_fold(
                *world,
                initial.model(),
                plan@,
                opponent@,
                iters as int,
                plan@.len() as int,
            ),
            cells@,
        ),
{
    let mut state = clone_sim_state(initial);
    let n = plan.len();
    let mut i: usize = 0;
    while i < n
        invariant
            world.wf(),
            state.wf(),
            plan_wf(plan@),
            plan_wf(opponent@),
            0 <= i <= n == plan@.len(),
            n <= 100,
            opponent@.len() == n,
            iters <= 20,
            cells@.len() == CELLS * CELLS,
            forall|k: int| 0 <= k < cells@.len() ==> 0 <= #[trigger] cells@[k] <= 1_000_000_000,
            state.model() == try_fold(
                *world,
                initial.model(),
                plan@,
                opponent@,
                iters as int,
                i as int,
            ),
        decreases n - i,
    {
        let mp = *vstd::std_specs::vec::vec_index(&plan, i);
        let op = *vstd::std_specs::vec::vec_index(&opponent, i);
        let admitted = state.my_score >= -100_000_000 && state.my_score <= 100_000_000
            && state.enemy_score >= -100_000_000 && state.enemy_score <= 100_000_000 && sim_small(
            &state,
        );
        proof {
            let m = state.model();
            assert(m.my_typ_tally == state.my_fishes_of_type@);
            assert(m.my_col_tally == state.my_fishes_of_color@);
            assert(m.enemy_typ_tally == state.enemy_fishes_of_type@);
            assert(m.enemy_col_tally == state.enemy_fishes_of_color@);
            assert(m.my_scans == state.my_scans@);
            assert(m.enemy_scans == state.enemy_scans@);
            assert(admitted == within_replay_bounds(m));
        }
        if admitted {
            simulate(world, &mut state, mp, op, iters);
        }
        i = i + 1;
    }
    let total = state.score(cells);
    proof {
        assert(total == model_score(state.model(), cells@));
    }
    total
}

/// Whether a state is still within the bounds one plan application needs.
fn sim_small(state: &SimulationState) -> (r: bool)
    requires
        state.wf(),
    ensures
        r == (state.my_scans@.len() <= 10_000 && state.enemy_scans@.len() <= 10_000 && (forall|
            k: int,
        |
            0 <= k < 3 ==> 0 <= (#[trigger] state.my_fishes_of_type@[k]) <= 100_000) && (forall|
            k: int,
        |
            0 <= k < 3 ==> 0 <= (#[trigger] state.enemy_fishes_of_type@[k]) <= 100_000) && (forall|
            k: int,
        |
            0 <= k < 4 ==> 0 <= (#[trigger] state.my_fishes_of_color@[k]) <= 100_000) && (forall|
            k: int,
        |
            0 <= k < 4 ==> 0 <= (#[trigger] state.enemy_fishes_of_color@[k]) <= 100_000)),
{
    if state.my_scans.len() > 10_000 || state.enemy_scans.len() > 10_000 {
        return false;
    }
    let mut k: usize = 0;
    while k < 3
        invariant
            state.wf(),
            0 <= k <= 3,
            forall|j: int|
                0 <= j < k ==> 0 <= (#[trigger] state.my_fishes_of_type@[j]) <= 100_000,
            forall|j: int|
                0 <= j < k ==> 0 <= (#[trigger] state.enemy_fishes_of_type@[j]) <= 100_000,
        decreases 3 - k,
    {
        if state.my_fishes_of_type[k] < 0 || state.my_fishes_of_type[k] > 100_000
            || state.enemy_fishes_of_type[k] < 0 || state.enemy_fishes_of_type[k] > 100_000 {
            return false;
        }
        k = k + 1;
    }
    let mut k2: usize = 0;
    while k2 < 4
        invariant
            state.wf(),
            0 <= k2 <= 4,
            forall|j: int|
                0 <= j < k2 ==> 0 <= (#[trigger] state.my_fishes_of_color@[j]) <= 100_000,
            forall|j: int|
                0 <= j < k2 ==> 0 <= (#[trigger] state.enemy_fishes_of_color@[j]) <= 100_000,
        decreases 4 - k2,
    {
        if state.my_fishes_of_color[k2] < 0 || state.my_fishes_of_color[k2] > 100_000
            || state.enemy_fishes_of_color[k2] < 0 || state.enemy_fishes_of_color[k2] > 100_000 {
            return false;
        }
        k2 = k2 + 1;
    }
    true
}

/// A copy of a solver state.
fn clone_sim_state(s: &SimulationState) -> (r: SimulationState)
    ensures
        r.my_drones@.len() == s.my_drones@.len(),
        r.enemy_drones@.len() == s.enemy_drones@.len(),
        forall|i: int|
            0 <= i < s.my_drones@.len() ==> (#[trigger] r.my_drones@[i]).pos
                == s.my_drones@[i].pos && r.my_drones@[i].battery == s.my_drones@[i].battery
                && r.my_drones@[i].scans@ == s.my_drones@[i].scans@,
        forall|i: int|
            0 <= i < s.enemy_drones@.len() ==> (#[trigger] r.enemy_drones@[i]).pos
                == s.enemy_drones@[i].pos && r.enemy_drones@[i].battery
                == s.enemy_drones@[i].battery && r.enemy_drones@[i].scans@
                == s.enemy_drones@[i].scans@,
        r.my_scans@ == s.my_scans@,
        r.enemy_scans@ == s.enemy_scans@,
        r.my_score == s.my_score,
        r.enemy_score == s.enemy_score,
        r.my_fishes_of_type@ == s.my_fishes_of_type@,
        r.my_fishes_of_color@ == s.my_fishes_of_color@,
        r.enemy_fishes_of_type@ == s.enemy_fishes_of_type@,
        r.enemy_fishes_of_color@ == s.enemy_fishes_of_color@,
        r.visited_cells@ == s.visited_cells@,
        r.model() == s.model(),
        s.wf() ==> r.wf(),
{
    let mut my_drones: Vec<DroneState> = Vec::new();
    let nm = s.my_drones.len();
    let mut i: usize = 0;
    while i < nm
        invariant
            0 <= i <= nm == s.my_drones@.len(),
            my_drones@.len() == i,
            forall|j: int|
                0 <= j < i ==> (#[trigger] my_drones@[j]).pos == s.my_drones@[j].pos
                    && my_drones@[j].battery == s.my_drones@[j].battery && my_drones@[j].scans@
                    == s.my_drones@[j].scans@,
        decreases nm - i,
    {
        let d = vstd::std_specs::vec::vec_index(&s.my_drones, i);
        my_drones.push(DroneState { pos: d.pos, battery: d.battery, scans: clone_ids(&d.scans) });
        i = i + 1;
    }
    let mut enemy_drones: Vec<DroneState> = Vec::new();
    let ne = s.enemy_drones.len();
    let mut i2: usize = 0;
    while i2 < ne
        invariant
            0 <= i2 <= ne == s.enemy_drones@.len(),
            enemy_drones@.len() == i2,
            forall|j: int|
                0 <= j < i2 ==> (#[trigger] enemy_drones@[j]).pos == s.enemy_drones@[j].pos
                    && enemy_drones@[j].battery == s.enemy_drones@[j].battery
                    && enemy_drones@[j].scans@ == s.enemy_drones@[j].scans@,
        decreases ne - i2,
    {
        let d = vstd::std_specs::vec::vec_index(&s.enemy_drones, i2);
        enemy_drones.push(
            DroneState { pos: d.pos, battery: d.battery, scans: clone_ids(&d.scans) },
        );
        i2 = i2 + 1;
    }
    let mut visited: Vec<bool> = Vec::new();
    let nv = s.visited_cells.len();
    let mut k: usize = 0;
    while k < nv
        invariant
            0 <= k <= nv == s.visited_cells@.len(),
            visited@.len() == k,
            forall|j: int| 0 <= j < k ==> #[trigger] visited@[j] == s.visited_cells@[j],
        decreases nv - k,
    {
        visited.push(s.visited_cells[k]);
        k = k + 1;
    }
    proof {
        assert(visited@ =~= s.visited_cells@);
    }
    let r = SimulationState {
        my_drones,
        enemy_drones,
        my_scans: clone_ids(&s.my_scans),
        enemy_scans: clone_ids(&s.enemy_scans),
        my_score: s.my_score,
        enemy_score: s.enemy_score,
        my_fishes_of_type: clone_tallies(&s.my_fishes_of_type),
        my_fishes_of_color: clone_tallies(&s.my_fishes_of_color),
        enemy_fishes_of_type: clone_tallies(&s.enemy_fishes_of_type),
        enemy_fishes_of_color: clone_tallies(&s.enemy_fishes_of_color),
        visited_cells: visited,
    };
    proof {
        assert(r.model().my_drones =~= s.model().my_drones);
        assert(r.model().enemy_drones =~= s.model().enemy_drones);
        assert(r.model() == s.model());
    }
    r
}

/// A copy of a tally list.
fn clone_tallies(t: &Vec<i64>) -> (r: Vec<i64>)
    ensures
        r@ == t@,
{
    let n = t.len();
    let mut out: Vec<i64> = Vec::new();
    let mut i: usize = 0;
    while i < n
        invariant
            0 <= i <= n == t@.len(),
            out@.len() == i,
            forall|j: int| 0 <= j < i ==> #[trigger] out@[j] == t@[j],
        decreases n - i,
    {
        out.push(t[i]);
        i = i + 1;
    }
    proof {
        assert(out@ =~= t@);
    }
    out
}

/// The sampling solver: keeps the best plan found so far across turns.
pub struct Solver {
    pub prev_best: Vec<(Action, Action)>,
}

impl Solver {
    pub fn new(rng: &mut rand::rngs::StdRng) -> (r: Solver)
        ensures
            r.prev_best@.len() == 10,
            plan_wf(r.prev_best@),
    {
        Solver { prev_best: generate_random_actions(10, rng) }
    }

    /// Ages last turn's best plan, then samples random plans for the rest of
    /// the budget, keeping the plan whose rollout scores best; returns the
    /// kept plan's first action pair.
    pub fn find_best_action(
        &mut self,
        world: &World,
        cells: &Vec<i64>,
        rng: &mut rand::rngs::StdRng,
    ) -> (r: Vec<Action>)
        requires
            world.wf(),
            old(self).prev_best@.len() == 10,
            plan_wf(old(self).prev_best@),
            -100_000_000 <= world.me.score <= 100_000_000,
            -100_000_000 <= world.opponent.score <= 100_000_000,
            cells@.len() == CELLS * CELLS,
            forall|k: int| 0 <= k < cells@.len() ==> 0 <= #[trigger] cells@[k] <= 1_000_000_000,
        ensures
            final(self).prev_best@.len() == 10,
            plan_wf(final(self).prev_best@),
            r@.len() == 2,
            r@[0] == final(self).prev_best@[0].0,
            r@[1] == final(self).prev_best@[0].1,
            r@[0].wf(),
            r@[1].wf(),
            exists|p0: Seq<(Action, Action)>, it: int|
                plan_aged_from(p0, old(self).prev_best@) && (it == 3 || it == 5) && #[trigger] plan_score(
                    *world,
                    final(self).prev_best@,
                    it,
                    cells@,
                ) >= #[trigger] plan_score(*world, p0, 3, cells@),
    {
        let start = crate::ext::instant_now();
        let mut best_actions = clone_plan(&self.prev_best);
        let ghost prev0 = self.prev_best@;
        best_actions.remove(0);
        let a = random_action(rng);
        let b = random_action(rng);
        best_actions.push((a, b));
        let ghost aged0 = best_actions@;
        proof {
            assert(plan_aged_from(aged0, prev0));
        }
        let opponent_actions = generate_opponent_actions(10);
        let initial_state = SimulationState::new(world);
        let mut best_score = try_plan(world, &initial_state, &best_actions, &opponent_actions, 3, cells);
        let ghost mut best_it: int = 3;
        proof {
            assert(initial_state.model() == snapshot_model(*world));
            assert(best_score == plan_score(*world, best_actions@, 3, cells@));
        }
        let mut g: usize = 0;
        while g < 1_000_000
            invariant
                world.wf(),
                initial_state.wf(),
                initial_state.my_score == world.me.score,
                initial_state.enemy_score == world.opponent.score,
                -100_000_000 <= world.me.score <= 100_000_000,
                -100_000_000 <= world.opponent.score <= 100_000_000,
                initial_state.my_scans@ == world.me.scans@,
                initial_state.enemy_scans@ == world.opponent.scans@,
                forall|k: int|
                    0 <= k < 3 ==> 0 <= (#[trigger] initial_state.my_fishes_of_type@[k])
                        <= 100_000,
                forall|k: int|
                    0 <= k < 3 ==> 0 <= (#[trigger] initial_state.enemy_fishes_of_type@[k])
                        <= 100_000,
                forall|k: int|
                    0 <= k < 4 ==> 0 <= (#[trigger] initial_state.my_fishes_of_color@[k])
                        <= 100_000,
                forall|k: int|
                    0 <= k < 4 ==> 0 <= (#[trigger] initial_state.enemy_fishes_of_color@[k])
                        <= 100_000,
                plan_wf(best_actions@),
                best_actions@.len() == 10,
                plan_wf(opponent_actions@),
                opponent_actions@.len() == 10,
                cells@.len() == CELLS * CELLS,
                forall|k: int| 0 <= k < cells@.len() ==> 0 <= #[trigger] cells@[k]
                    <= 1_000_000_000,
                0 <= g <= 1_000_000,
                initial_state.model() == snapshot_model(*world),
                opponent_actions@ == opp_plan(),
                plan_aged_from(aged0, old(self).prev_best@),
                aged0.len() == 10,
                best_it == 3 || best_it == 5,
                best_score == plan_score(*world, best_actions@, best_it, cells@),
                plan_score(*world, best_actions@, best_it, cells@) >= plan_score(
                    *world,
                    aged0,
                    3,
                    cells@,
                ),
            decreases 1_000_000 - g,
        {
            if crate::ext::elapsed_millis(&start) >= 30 {
                g = 1_000_000;
            } else {
                let current_actions = generate_random_actions(10, rng);
                let current_score = try_plan(
                    world,
                    &initial_state,
                    &current_actions,
                    &opponent_actions,
                    5,
                    cells,
                );
                if current_score > best_score {
                    best_actions = current_actions;
                    best_score = current_score;
                    proof {
                        best_it = 5;
                    }
                }
                g = g + 1;
            }
        }
        let first = *vstd::std_specs::vec::vec_index(&best_actions, 0);
        self.prev_best = best_actions;
        proof {
            assert(plan_aged_from(aged0, old(self).prev_best@) && (best_it == 3 || best_it == 5)
                && plan_score(*world, self.prev_best@, best_it, cells@) >= plan_score(
                *world,
                aged0,
                3,
                cells@,
            ));
        }
        let mut out: Vec<Action> = Vec::new();
        out.push(first.0);
        out.push(first.1);
        out
    }
}

/// A copy of an id list.
pub fn clone_ids(ids: &Vec<i32>) -> (r: Vec<i32>)
    ensures
        r@ == ids@,
{
    let n = ids.len();
    let mut out: Vec<i32> = Vec::new();
    let mut i: usize = 0;
    while i < n
        invariant
            0 <= i <= n == ids@.len(),
            out@.len() == i,
            forall|j: int| 0 <= j < i ==> #[trigger] out@[j] == ids@[j],
        decreases n - i,
    {
        out.push(ids[i]);
        i = i + 1;
    }
    proof {
        assert(out@ =~= ids@);
    }
    out
}

} // verus!
