//! Hazard tracking: per hazard a dead-reckoned position and velocity one tick
//! ahead, from simple target-seeking and separation rules, merged with direct
//! sightings. Hazard identities persist for the process lifetime.

use vstd::prelude::*;

use crate::vec2::Vec2;
use crate::world::{Creature, Drone, World, MAP_SIZE};

verus! {

/// Distance within which a hazard targets a drone (widened when that drone
/// was inferred to have used its light).
pub const AGGRESSION_RADIUS: i64 = 800;

/// Aggression radius toward a drone whose battery dropped last turn.
pub const LIT_AGGRESSION_RADIUS: i64 = 2000;

/// Speed of a hazard chasing a target.
pub const CHASE_SPEED: i64 = 540;

/// Distance below which hazards repel each other, and the speed they do it
/// with.
pub const SEPARATION_RADIUS: i64 = 600;

pub const SEPARATION_SPEED: i64 = 200;

/// Maximum idle speed of a hazard.
pub const IDLE_SPEED: i64 = 270;

/// Top of the vertical band hazards are confined to.
pub const HAZARD_MIN_Y: i64 = 2500;

/// One tracked hazard.
#[derive(Clone, Copy, Debug)]
pub struct Monster {
    pub id: i32,
    pub vel: Vec2,
    pub pos: Vec2,
    pub target: Option<Vec2>,
}

impl Monster {
    /// In-map position and target, and a bounded velocity.
    pub open spec fn wf(self) -> bool {
        &&& 0 <= self.pos.x <= MAP_SIZE
        &&& 0 <= self.pos.y <= MAP_SIZE
        &&& -MAP_SIZE <= self.vel.x <= MAP_SIZE
        &&& -MAP_SIZE <= self.vel.y <= MAP_SIZE
        &&& (self.target matches Some(t) ==> 0 <= t.x <= MAP_SIZE && 0 <= t.y <= MAP_SIZE)
    }
}

/// Both players' drones, in the order they are scanned for targets.
pub open spec fn all_drones(w: World) -> Seq<Drone> {
    w.me.drones@ + w.opponent.drones@
}

/// Whether the battery table has an entry for `id`.
pub open spec fn has_bat(bats: Seq<(i32, i32)>, id: i32) -> bool {
    exists|j: int| 0 <= j < bats.len() && (#[trigger] bats[j]).0 == id
}

/// The recorded battery of `id` (meaningful under `has_bat` and distinct
/// ids).
pub open spec fn bat_of(bats: Seq<(i32, i32)>, id: i32) -> i32 {
    bats[choose|j: int| 0 <= j < bats.len() && (#[trigger] bats[j]).0 == id].1
}

/// The distance within which hazard aggression is triggered by `d`: widened
/// when the drone's battery decreased since last turn (inferred light use).
pub open spec fn aggression_radius_spec(bats: Seq<(i32, i32)>, d: Drone) -> int {
    if has_bat(bats, d.id) && bat_of(bats, d.id) > d.bat {
        LIT_AGGRESSION_RADIUS as int
    } else {
        AGGRESSION_RADIUS as int
    }
}

/// Distance from hazard `m` to point `p`.
pub open spec fn dist_to(m: Monster, p: Vec2) -> int {
    p.sub_spec(m.pos).len_spec()
}

/// Whether drone `d` can draw hazard `m`'s aggression.
pub open spec fn target_candidate(bats: Seq<(i32, i32)>, m: Monster, d: Drone) -> bool {
    d.emergency != 1 && dist_to(m, d.pos) < aggression_radius_spec(bats, d)
}

/// The battery table after recording every drone's current battery.
pub open spec fn upsert_bats(bats: Seq<(i32, i32)>, drones: Seq<Drone>) -> Seq<(i32, i32)>
    decreases drones.len(),
{
    if drones.len() == 0 {
        bats
    } else {
        let prev = upsert_bats(bats, drones.drop_last());
        let d = drones.last();
        if has_bat(prev, d.id) {
            prev.map(
                |j: int, e: (i32, i32)|
                    if e.0 == d.id {
                        (e.0, d.bat)
                    } else {
                        e
                    },
            )
        } else {
            prev.push((d.id, d.bat))
        }
    }
}

/// No two battery entries share an id.
pub open spec fn bats_distinct(bats: Seq<(i32, i32)>) -> bool {
    forall|i: int, j: int| 0 <= i < j < bats.len() ==> (#[trigger] bats[i]).0 != (
    #[trigger] bats[j]).0
}

/// No two tracked hazards share an id.
pub open spec fn monsters_distinct(ms: Seq<Monster>) -> bool {
    forall|i: int, j: int| 0 <= i < j < ms.len() ==> (#[trigger] ms[i]).id != (#[trigger] ms[j]).id
}

pub open spec fn monsters_wf(ms: Seq<Monster>) -> bool {
    forall|i: int| 0 <= i < ms.len() ==> (#[trigger] ms[i]).wf()
}

/// Distance between two tracked hazards.
pub open spec fn mdist(ms: Seq<Monster>, i: int, j: int) -> int {
    ms[j].pos.sub_spec(ms[i].pos).len_spec()
}

/// Whether another hazard sits within the separation radius of hazard `i`.
pub open spec fn has_close_neighbor(ms: Seq<Monster>, i: int) -> bool {
    exists|j: int| 0 <= j < ms.len() && j != i && mdist(ms, i, j) < SEPARATION_RADIUS
}

/// The velocity rule relating the old hazard list to the new one: chase the
/// remembered target at chase speed; else back away at separation speed from
/// a nearest hazard within the separation radius (any nearest one, when
/// distances tie); else keep the old velocity, clamped to the idle maximum.
pub open spec fn velocities_rel(old_ms: Seq<Monster>, new_ms: Seq<Monster>) -> bool {
    &&& new_ms.len() == old_ms.len()
    &&& forall|i: int|
        0 <= i < old_ms.len() ==> {
            let m = old_ms[i];
            let nm = #[trigger] new_ms[i];
            &&& nm.id == m.id
            &&& nm.pos == m.pos
            &&& nm.target == m.target
            &&& (match m.target {
                Some(t) => nm.vel == t.sub_spec(m.pos).scaled_spec(CHASE_SPEED as int),
                None => {
                    if has_close_neighbor(old_ms, i) {
                        exists|j: int|
                            0 <= j < old_ms.len() && j != i && mdist(old_ms, i, j)
                                < SEPARATION_RADIUS && nm.vel == m.pos.sub_spec(
                                old_ms[j].pos,
                            ).scaled_spec(SEPARATION_SPEED as int) && forall|k: int|
                                0 <= k < old_ms.len() && k != i ==> #[trigger] mdist(old_ms, i, k)
                                    >= mdist(old_ms, i, j)
                    } else if m.vel.len_spec() > IDLE_SPEED {
                        nm.vel == m.vel.scaled_spec(IDLE_SPEED as int)
                    } else {
                        nm.vel == m.vel
                    }
                },
            })
        }
}

/// One tick of dead-reckoned motion: add the velocity, reflect it on the
/// walls of the hazard band, clamp the position into the band.
pub open spec fn integrate_spec(m: Monster) -> Monster {
    let p1 = m.pos.add_spec(m.vel);
    let vx = if p1.x < 0 || p1.x > MAP_SIZE {
        (-m.vel.x) as i64
    } else {
        m.vel.x
    };
    let vy = if p1.y < HAZARD_MIN_Y || p1.y > MAP_SIZE {
        (-m.vel.y) as i64
    } else {
        m.vel.y
    };
    Monster {
        id: m.id,
        pos: p1.clamp_spec(
            Vec2 { x: 0, y: HAZARD_MIN_Y },
            Vec2 { x: MAP_SIZE, y: MAP_SIZE },
        ),
        vel: Vec2 { x: vx, y: vy },
        target: m.target,
    }
}

/// Whether a hazard with this id is tracked.
pub open spec fn has_monster(ms: Seq<Monster>, id: i32) -> bool {
    exists|j: int| 0 <= j < ms.len() && (#[trigger] ms[j]).id == id
}

/// The hazard list after ground truth of every currently visible hazard has
/// been merged in (first `n` catalogue entries processed).
pub open spec fn visible_fold(ms: Seq<Monster>, cs: Seq<Creature>, n: int) -> Seq<Monster>
    decreases n,
{
    if n <= 0 {
        ms
    } else {
        let prev = visible_fold(ms, cs, n - 1);
        let c = cs[n - 1];
        if c.typ == -1 && c.pos is Some {
            if has_monster(prev, c.id) {
                prev.map(
                    |j: int, m: Monster|
                        if m.id == c.id {
                            Monster { id: m.id, pos: c.pos.unwrap(), vel: c.speed.unwrap(), target: m.target }
                        } else {
                            m
                        },
                )
            } else {
                prev.push(
                    Monster { id: c.id, vel: c.speed.unwrap(), pos: c.pos.unwrap(), target: None },
                )
            }
        } else {
            prev
        }
    }
}

/// The target rule relating the hazard list to its retargeted version: each
/// hazard aims at a nearest drone within that drone's aggression radius (any
/// nearest one, when distances tie), or at nothing.
pub open spec fn targets_rel(
    bats: Seq<(i32, i32)>,
    drones: Seq<Drone>,
    old_ms: Seq<Monster>,
    new_ms: Seq<Monster>,
) -> bool {
    &&& new_ms.len() == old_ms.len()
    &&& forall|i: int|
        0 <= i < old_ms.len() ==> {
            let m = old_ms[i];
            let nm = #[trigger] new_ms[i];
            &&& nm.id == m.id
            &&& nm.pos == m.pos
            &&& nm.vel == m.vel
            &&& (match nm.target {
                Some(p) => exists|j: int|
                    0 <= j < drones.len() && target_candidate(bats, m, #[trigger] drones[j]) && p
                        == drones[j].pos && forall|k: int|
                        0 <= k < drones.len() && target_candidate(bats, m, #[trigger] drones[k])
                            ==> dist_to(m, drones[k].pos) >= dist_to(m, drones[j].pos),
                None => forall|j: int|
                    0 <= j < drones.len() ==> !target_candidate(bats, m, #[trigger] drones[j]),
            })
        }
}

/// Predicts hazard motion one tick ahead and merges sightings; retains one
/// battery reading per drone to infer light usage next turn.
pub struct Tracker {
    pub monsters: Vec<Monster>,
    pub drone_bat: Vec<(i32, i32)>,
}

impl Tracker {
    pub open spec fn wf(self) -> bool {
        &&& monsters_distinct(self.monsters@)
        &&& monsters_wf(self.monsters@)
        &&& bats_distinct(self.drone_bat@)
    }

    pub fn new() -> (r: Tracker)
        ensures
            r.monsters@.len() == 0,
            r.drone_bat@.len() == 0,
            r.wf(),
    {
        Tracker { monsters: Vec::new(), drone_bat: Vec::new() }
    }

    /// The aggression radius hazard logic grants this drone.
    fn get_aggression_radius(&self, drone: &Drone) -> (r: i64)
        requires
            bats_distinct(self.drone_bat@),
        ensures
            r == aggression_radius_spec(self.drone_bat@, *drone),
    {
        let n = self.drone_bat.len();
        let mut i: usize = 0;
        while i < n
            invariant
                bats_distinct(self.drone_bat@),
                0 <= i <= n == self.drone_bat@.len(),
                forall|j: int| 0 <= j < i ==> (#[trigger] self.drone_bat@[j]).0 != drone.id,
            decreases n - i,
        {
            if self.drone_bat[i].0 == drone.id {
                proof {
                    let j = choose|j: int|
                        0 <= j < self.drone_bat@.len() && (#[trigger] self.drone_bat@[j]).0
                            == drone.id;
                    if j != i as int {
                        assert(self.drone_bat@[j].0 != self.drone_bat@[i as int].0);
                    }
                }
                if self.drone_bat[i].1 > drone.bat {
                    return LIT_AGGRESSION_RADIUS;
                } else {
                    return AGGRESSION_RADIUS;
                }
            }
            i = i + 1;
        }
        AGGRESSION_RADIUS
    }

    /// Recomputes every hazard's velocity from its remembered target, its
    /// neighbors, and its previous velocity.
    fn update_monster_velocities(&mut self)
        requires
            monsters_wf(old(self).monsters@),
        ensures
            velocities_rel(old(self).monsters@, final(self).monsters@),
            monsters_distinct(old(self).monsters@) ==> monsters_distinct(final(self).monsters@),
            monsters_wf(final(self).monsters@),
            final(self).drone_bat == old(self).drone_bat,
    {
        let ghost oms = self.monsters@;
        let n = self.monsters.len();
        let mut out: Vec<Monster> = Vec::new();
        let mut i: usize = 0;
        while i < n
            invariant
                oms == self.monsters@,
                monsters_wf(oms),
                0 <= i <= n == oms.len(),
                out@.len() == i,
                forall|t: int|
                    0 <= t < i ==> {
                        let m = oms[t];
                        let nm = #[trigger] out@[t];
                        &&& nm.id == m.id
                        &&& nm.pos == m.pos
                        &&& nm.target == m.target
                        &&& nm.wf()
                        &&& (match m.target {
                            Some(tp) => nm.vel == tp.sub_spec(m.pos).scaled_spec(
                                CHASE_SPEED as int,
                            ),
                            None => {
                                if has_close_neighbor(oms, t) {
                                    exists|j: int|
                                        0 <= j < oms.len() && j != t && mdist(oms, t, j)
                                            < SEPARATION_RADIUS && nm.vel == m.pos.sub_spec(
                                            oms[j].pos,
                                        ).scaled_spec(SEPARATION_SPEED as int) && forall|k: int|
                                            0 <= k < oms.len() && k != t ==> #[trigger] mdist(
                                                oms,
                                                t,
                                                k,
                                            ) >= mdist(oms, t, j)
                                } else if m.vel.len_spec() > IDLE_SPEED {
                                    nm.vel == m.vel.scaled_spec(IDLE_SPEED as int)
                                } else {
                                    nm.vel == m.vel
                                }
                            },
                        })
                    },
            decreases n - i,
        {
            let m = self.monsters[i];
            proof {
                assert(oms[i as int].wf());
            }
            let new_vel: Vec2;
            match m.target {
                Some(t) => {
                    new_vel = t.sub(m.pos).scale_to(CHASE_SPEED);
                    proof {
                        crate::vec2::lemma_scaled_bounds(
                            t.sub_spec(m.pos),
                            CHASE_SPEED as int,
                        );
                    }
                },
                None => {
                    let mut best_found = false;
                    let mut best_j: usize = 0;
                    let mut best_dist: i64 = 0;
                    let mut j: usize = 0;
                    while j < n
                        invariant
                            oms == self.monsters@,
                            monsters_wf(oms),
                            0 <= i < n == oms.len(),
                            0 <= j <= n,
                            m == oms[i as int],
                            best_found ==> 0 <= best_j < j && best_j != i as int && best_dist
                                == mdist(oms, i as int, best_j as int) && forall|k: int|
                                0 <= k < j && k != i ==> #[trigger] mdist(oms, i as int, k)
                                    >= best_dist,
                            !best_found ==> (j == 0 || (j == 1 && i == 0)),
                        decreases n - j,
                    {
                        if j != i {
                            let other = self.monsters[j];
                            proof {
                                assert(oms[j as int].wf());
                            }
                            let d = other.pos.sub(m.pos).len();
                            if !best_found || d < best_dist {
                                best_found = true;
                                best_j = j;
                                best_dist = d;
                            }
                        }
                        j = j + 1;
                    }
                    if best_found && best_dist < SEPARATION_RADIUS {
                        let other = self.monsters[best_j];
                        proof {
                            assert(oms[best_j as int].wf());
                        }
                        new_vel = m.pos.sub(other.pos).scale_to(SEPARATION_SPEED);
                        proof {
                            crate::vec2::lemma_scaled_bounds(
                                m.pos.sub_spec(oms[best_j as int].pos),
                                SEPARATION_SPEED as int,
                            );
                            assert(has_close_neighbor(oms, i as int));
                        }
                    } else {
                        proof {
                            if has_close_neighbor(oms, i as int) {
                                let j = choose|j: int|
                                    0 <= j < oms.len() && j != i as int && mdist(oms, i as int, j)
                                        < SEPARATION_RADIUS;
                                if best_found {
                                    assert(mdist(oms, i as int, j) >= best_dist);
                                }
                                assert(false);
                            }
                        }
                        let vlen = m.vel.len();
                        if vlen > IDLE_SPEED {
                            new_vel = m.vel.scale_to(IDLE_SPEED);
                            proof {
                                crate::vec2::lemma_scaled_bounds(m.vel, IDLE_SPEED as int);
                            }
                        } else {
                            new_vel = m.vel;
                        }
                    }
                },
            }
            out.push(Monster { id: m.id, vel: new_vel, pos: m.pos, target: m.target });
            i = i + 1;
        }
        self.monsters = out;
        proof {
            assert forall|a: int, b: int|
                monsters_distinct(oms) && 0 <= a < b < self.monsters@.len() implies (
            #[trigger] self.monsters@[a]).id != (#[trigger] self.monsters@[b]).id by {
                if monsters_distinct(oms) && 0 <= a < b < oms.len() {
                    assert(oms[a].id != oms[b].id);
                }
            }
        }
    }

    /// Integrates every hazard's position one tick, reflecting and clamping
    /// at the hazard band's walls.
    fn update_monster_positions(&mut self)
        requires
            monsters_wf(old(self).monsters@),
        ensures
            final(self).monsters@.len() == old(self).monsters@.len(),
            forall|i: int|
                0 <= i < old(self).monsters@.len() ==> #[trigger] final(self).monsters@[i]
                    == integrate_spec(old(self).monsters@[i]),
            monsters_distinct(old(self).monsters@) ==> monsters_distinct(final(self).monsters@),
            monsters_wf(final(self).monsters@),
            final(self).drone_bat == old(self).drone_bat,
    {
        let n = self.monsters.len();
        let mut i: usize = 0;
        while i < n
            invariant
                monsters_wf(old(self).monsters@),
                0 <= i <= n == old(self).monsters@.len(),
                self.monsters@.len() == n,
                self.drone_bat == old(self).drone_bat,
                forall|t: int|
                    0 <= t < i ==> #[trigger] self.monsters@[t] == integrate_spec(
                        old(self).monsters@[t],
                    ) && self.monsters@[t].wf(),
                forall|t: int| i <= t < n ==> #[trigger] self.monsters@[t] == old(self).monsters@[t],
            decreases n - i,
        {
            let m = self.monsters[i];
            proof {
                assert(old(self).monsters@[i as int].wf());
            }
            let p1 = m.pos.add(m.vel);
            let vx = if p1.x < 0 || p1.x > MAP_SIZE {
                -m.vel.x
            } else {
                m.vel.x
            };
            let vy = if p1.y < HAZARD_MIN_Y || p1.y > MAP_SIZE {
                -m.vel.y
            } else {
                m.vel.y
            };
            let pos = p1.clamp(
                Vec2 { x: 0, y: HAZARD_MIN_Y },
                Vec2 { x: MAP_SIZE, y: MAP_SIZE },
            );
            self.monsters.set(
                i,
                Monster { id: m.id, vel: Vec2 { x: vx, y: vy }, pos, target: m.target },
            );
            i = i + 1;
        }
        proof {
            assert forall|a: int, b: int|
                monsters_distinct(old(self).monsters@) && 0 <= a < b < self.monsters@.len() implies (
            #[trigger] self.monsters@[a]).id != (#[trigger] self.monsters@[b]).id by {
                if monsters_distinct(old(self).monsters@) && 0 <= a < b < old(
                    self,
                ).monsters@.len() {
                    assert(old(self).monsters@[a].id != old(self).monsters@[b].id);
                }
            }
        }
    }

    /// Overwrites position and velocity with ground truth wherever a hazard
    /// is currently visible; a first sighting registers the hazard.
    fn update_visible(&mut self, world: &World)
        requires
            world.wf(),
            monsters_distinct(old(self).monsters@),
            monsters_wf(old(self).monsters@),
        ensures
            final(self).monsters@ == visible_fold(
                old(self).monsters@,
                world.creatures@,
                world.creatures@.len() as int,
            ),
            monsters_distinct(final(self).monsters@),
            monsters_wf(final(self).monsters@),
            final(self).drone_bat == old(self).drone_bat,
    {
        let nc = world.creatures.len();
        let mut i: usize = 0;
        while i < nc
            invariant
                world.wf(),
                0 <= i <= nc == world.creatures@.len(),
                self.monsters@ == visible_fold(old(self).monsters@, world.creatures@, i as int),
                monsters_distinct(self.monsters@),
                monsters_wf(self.monsters@),
                self.drone_bat == old(self).drone_bat,
            decreases nc - i,
        {
            let c = &world.creatures[i];
            proof {
                assert(world.creatures@[i as int].wf());
            }
            if c.typ == -1 && c.pos.is_some() {
                let cpos = *c.pos.as_ref().unwrap();
                let cvel = *c.speed.as_ref().unwrap();
                let ghost pre = self.monsters@;
                let nm = self.monsters.len();
                let mut k: usize = 0;
                let mut found = false;
                while k < nm && !found
                    invariant
                        0 <= k <= nm == self.monsters@.len(),
                        pre.len() == nm,
                        monsters_distinct(self.monsters@),
                        monsters_wf(self.monsters@),
                        self.drone_bat == old(self).drone_bat,
                        0 <= cpos.x <= MAP_SIZE && 0 <= cpos.y <= MAP_SIZE,
                        -MAP_SIZE <= cvel.x <= MAP_SIZE && -MAP_SIZE <= cvel.y <= MAP_SIZE,
                        !found ==> self.monsters@ == pre && forall|j: int|
                            0 <= j < k ==> (#[trigger] self.monsters@[j]).id != c.id,
                        found ==> k > 0 && pre[k - 1].id == c.id && self.monsters@ == pre.map(
                            |j: int, m: Monster|
                                if m.id == c.id {
                                    Monster { id: m.id, pos: cpos, vel: cvel, target: m.target }
                                } else {
                                    m
                                },
                        ),
                    decreases nm - k + if found {
                        0int
                    } else {
                        1int
                    },
                {
                    if self.monsters[k].id == c.id {
                        let t = self.monsters[k].target;
                        self.monsters.set(
                            k,
                            Monster { id: c.id, pos: cpos, vel: cvel, target: t },
                        );
                        found = true;
                        proof {
                            let mapped = pre.map(
                                |j: int, m: Monster|
                                    if m.id == c.id {
                                        Monster { id: m.id, pos: cpos, vel: cvel, target: m.target }
                                    } else {
                                        m
                                    },
                            );
                            assert forall|t2: int| 0 <= t2 < pre.len() implies self.monsters@[t2]
                                == mapped[t2] by {
                                if t2 != k {
                                    assert(pre[t2].id != pre[k as int].id);
                                }
                            }
                            assert(self.monsters@ =~= mapped);
                            assert forall|a: int, b: int|
                                0 <= a < b < self.monsters@.len() implies (
                            #[trigger] self.monsters@[a]).id != (#[trigger] self.monsters@[b]).id
                                by {
                                assert(pre[a].id != pre[b].id);
                            }
                            assert forall|t2: int|
                                0 <= t2 < self.monsters@.len() implies (
                            #[trigger] self.monsters@[t2]).wf() by {
                                assert(pre[t2].wf());
                            }
                        }
                    }
                    k = k + 1;
                }
                if !found {
                    proof {
                        assert(!has_monster(self.monsters@, c.id));
                    }
                    let ghost pre2 = self.monsters@;
                    self.monsters.push(
                        Monster { id: c.id, vel: cvel, pos: cpos, target: None },
                    );
                    proof {
                        assert forall|a: int, b: int|
                            0 <= a < b < self.monsters@.len() implies (
                        #[trigger] self.monsters@[a]).id != (#[trigger] self.monsters@[b]).id by {
                            if b < pre2.len() {
                                assert(pre2[a].id != pre2[b].id);
                            } else {
                                assert(self.monsters@[b].id == c.id);
                                assert(pre2[a].id != c.id);
                            }
                        }
                        assert forall|t2: int|
                            0 <= t2 < self.monsters@.len() implies (
                        #[trigger] self.monsters@[t2]).wf() by {
                            if t2 < pre2.len() {
                                assert(pre2[t2].wf());
                            }
                        }
                    }
                } else {
                    proof {
                        assert(has_monster(pre, c.id));
                    }
                }
            }
            i = i + 1;
        }
    }

    /// Re-aims every hazard at the nearest drone within aggression range, if
    /// any.
    fn update_monsters_targets(&mut self, world: &World)
        requires
            world.wf(),
            monsters_wf(old(self).monsters@),
            bats_distinct(old(self).drone_bat@),
        ensures
            targets_rel(
                old(self).drone_bat@,
                all_drones(*world),
                old(self).monsters@,
                final(self).monsters@,
            ),
            monsters_distinct(old(self).monsters@) ==> monsters_distinct(final(self).monsters@),
            monsters_wf(final(self).monsters@),
            final(self).drone_bat == old(self).drone_bat,
    {
        let ghost ds = all_drones(*world);
        let nm = world.me.drones.len();
        let no = world.opponent.drones.len();
        let nd = nm + no;
        proof {
            assert(nm + no <= 4) by {
                assert(world.me.wf() && world.opponent.wf());
            }
        }
        let n = self.monsters.len();
        let mut i: usize = 0;
        while i < n
            invariant
                world.wf(),
                ds == all_drones(*world),
                nm == world.me.drones@.len(),
                no == world.opponent.drones@.len(),
                nd == nm + no,
                nd == ds.len(),
                monsters_wf(old(self).monsters@),
                bats_distinct(old(self).drone_bat@),
                0 <= i <= n == old(self).monsters@.len(),
                self.monsters@.len() == n,
                self.drone_bat == old(self).drone_bat,
                forall|t: int|
                    0 <= t < i ==> {
                        let m = old(self).monsters@[t];
                        let nmo = #[trigger] self.monsters@[t];
                        &&& nmo.id == m.id
                        &&& nmo.pos == m.pos
                        &&& nmo.vel == m.vel
                        &&& nmo.wf()
                        &&& (match nmo.target {
                            Some(p) => exists|j: int|
                                0 <= j < ds.len() && target_candidate(
                                    old(self).drone_bat@,
                                    m,
                                    #[trigger] ds[j],
                                ) && p == ds[j].pos && forall|k: int|
                                    0 <= k < ds.len() && target_candidate(
                                        old(self).drone_bat@,
                                        m,
                                        #[trigger] ds[k],
                                    ) ==> dist_to(m, ds[k].pos) >= dist_to(m, ds[j].pos),
                            None => forall|j: int|
                                0 <= j < ds.len() ==> !target_candidate(
                                    old(self).drone_bat@,
                                    m,
                                    #[trigger] ds[j],
                                ),
                        })
                    },
                forall|t: int| i <= t < n ==> #[trigger] self.monsters@[t] == old(
                    self,
                ).monsters@[t],
            decreases n - i,
        {
            let m = self.monsters[i];
            proof {
                assert(old(self).monsters@[i as int].wf());
            }
            let mut best_found = false;
            let mut best_j: usize = 0;
            let mut best_dist: i64 = 0;
            let mut j: usize = 0;
            while j < nd
                invariant
                    world.wf(),
                    ds == all_drones(*world),
                    nm == world.me.drones@.len(),
                    no == world.opponent.drones@.len(),
                    nd == nm + no,
                    nd == ds.len(),
                    bats_distinct(old(self).drone_bat@),
                    self.drone_bat == old(self).drone_bat,
                    0 <= i < n == self.monsters@.len(),
                    m == self.monsters@[i as int],
                    m.wf(),
                    0 <= j <= nd,
                    best_found ==> 0 <= best_j < j && target_candidate(
                        old(self).drone_bat@,
                        m,
                        ds[best_j as int],
                    ) && best_dist == dist_to(m, ds[best_j as int].pos) && forall|k: int|
                        0 <= k < j && target_candidate(old(self).drone_bat@, m, #[trigger] ds[k])
                            ==> dist_to(m, ds[k].pos) >= best_dist,
                    !best_found ==> forall|k: int|
                        0 <= k < j ==> !target_candidate(old(self).drone_bat@, m, #[trigger] ds[k]),
                decreases nd - j,
            {
                let d = if j < nm {
                    &world.me.drones[j]
                } else {
                    &world.opponent.drones[j - nm]
                };
                assert(*d == ds[j as int]);
                proof {
                    if j < nm {
                        assert(world.me.drones@[j as int].wf());
                    } else {
                        assert(world.opponent.drones@[j as int - nm].wf());
                    }
                }
                if d.emergency != 1 {
                    let dist = d.pos.sub(m.pos).len();
                    let radius = self.get_aggression_radius(d);
                    if dist < radius {
                        if !best_found || dist < best_dist {
                            best_found = true;
                            best_j = j;
                            best_dist = dist;
                        }
                    }
                }
                j = j + 1;
            }
            let new_target = if best_found {
                let d = if best_j < nm {
                    &world.me.drones[best_j]
                } else {
                    &world.opponent.drones[best_j - nm]
                };
                assert(*d == ds[best_j as int]);
                proof {
                    if best_j < nm {
                        assert(world.me.drones@[best_j as int].wf());
                    } else {
                        assert(world.opponent.drones@[best_j as int - nm].wf());
                    }
                }
                Some(d.pos)
            } else {
                None
            };
            self.monsters.set(
                i,
                Monster { id: m.id, vel: m.vel, pos: m.pos, target: new_target },
            );
            i = i + 1;
        }
        proof {
            assert forall|a: int, b: int|
                monsters_distinct(old(self).monsters@) && 0 <= a < b < self.monsters@.len() implies (
            #[trigger] self.monsters@[a]).id != (#[trigger] self.monsters@[b]).id by {
                if monsters_distinct(old(self).monsters@) && 0 <= a < b < old(
                    self,
                ).monsters@.len() {
                    assert(old(self).monsters@[a].id != old(self).monsters@[b].id);
                }
            }
        }
    }

    /// One turn of hazard tracking: velocities from last turn's targets,
    /// dead-reckoned motion, ground-truth merge of sightings, re-targeting,
    /// and the battery record for next turn's light inference.
    pub fn update(&mut self, world: &World)
        requires
            world.wf(),
            old(self).wf(),
        ensures
            final(self).wf(),
            exists|s1: Seq<Monster>, s2: Seq<Monster>|
                velocities_rel(old(self).monsters@, s1) && (forall|i: int|
                    0 <= i < s1.len() ==> #[trigger] s2[i] == integrate_spec(s1[i])) && s2.len()
                    == s1.len() && targets_rel(
                    old(self).drone_bat@,
                    all_drones(*world),
                    visible_fold(s2, world.creatures@, world.creatures@.len() as int),
                    final(self).monsters@,
                ),
            final(self).drone_bat@ == upsert_bats(old(self).drone_bat@, all_drones(*world)),
    {
        self.update_monster_velocities();
        let ghost s1 = self.monsters@;
        self.update_monster_positions();
        let ghost s2 = self.monsters@;
        self.update_visible(world);
        self.update_monsters_targets(world);
        self.update_bat(world);
    }

    /// Records every drone's battery for next turn's light inference.
    fn update_bat(&mut self, world: &World)
        requires
            bats_distinct(old(self).drone_bat@),
            world.me.drones@.len() + world.opponent.drones@.len() <= 1000,
        ensures
            final(self).drone_bat@ == upsert_bats(old(self).drone_bat@, all_drones(*world)),
            bats_distinct(final(self).drone_bat@),
            final(self).monsters == old(self).monsters,
    {
        let ghost ds = all_drones(*world);
        let nm = world.me.drones.len();
        let no = world.opponent.drones.len();
        let n = nm + no;
        let mut i: usize = 0;
        while i < n
            invariant
                nm == world.me.drones@.len(),
                no == world.opponent.drones@.len(),
                n == nm + no,
                ds == all_drones(*world),
                0 <= i <= n == ds.len(),
                self.drone_bat@ == upsert_bats(old(self).drone_bat@, ds.take(i as int)),
                bats_distinct(self.drone_bat@),
                self.monsters == old(self).monsters,
            decreases n - i,
        {
            let d = if i < nm {
                &world.me.drones[i]
            } else {
                &world.opponent.drones[i - nm]
            };
            assert(*d == ds[i as int]);
            let ghost pre = self.drone_bat@;
            let nb = self.drone_bat.len();
            let mut k: usize = 0;
            let mut found = false;
            while k < nb && !found
                invariant
                    0 <= k <= nb == self.drone_bat@.len(),
                    bats_distinct(self.drone_bat@),
                    self.monsters == old(self).monsters,
                    pre.len() == nb,
                    !found ==> self.drone_bat@ == pre && forall|j: int|
                        0 <= j < k ==> (#[trigger] self.drone_bat@[j]).0 != d.id,
                    found ==> k > 0 && pre[k - 1].0 == d.id && self.drone_bat@ == pre.map(
                        |j: int, e: (i32, i32)|
                            if e.0 == d.id {
                                (e.0, d.bat)
                            } else {
                                e
                            },
                    ),
                decreases nb - k + if found {
                    0int
                } else {
                    1int
                },
            {
                if self.drone_bat[k].0 == d.id {
                    self.drone_bat.set(k, (d.id, d.bat));
                    found = true;
                    proof {
                        let mapped = pre.map(
                            |j: int, e: (i32, i32)|
                                if e.0 == d.id {
                                    (e.0, d.bat)
                                } else {
                                    e
                                },
                        );
                        assert forall|t: int| 0 <= t < pre.len() implies self.drone_bat@[t]
                            == mapped[t] by {
                            if t != k {
                                assert(pre[t].0 != pre[k as int].0);
                            }
                        }
                        assert(self.drone_bat@ =~= mapped);
                        assert forall|a: int, b: int|
                            0 <= a < b < self.drone_bat@.len() implies (
                        #[trigger] self.drone_bat@[a]).0 != (#[trigger] self.drone_bat@[b]).0 by {
                            assert(pre[a].0 != pre[b].0);
                        }
                    }
                }
                k = k + 1;
            }
            if !found {
                proof {
                    assert(!has_bat(self.drone_bat@, d.id));
                }
                self.drone_bat.push((d.id, d.bat));
                proof {
                    assert forall|a: int, b: int|
                        0 <= a < b < self.drone_bat@.len() implies (
                    #[trigger] self.drone_bat@[a]).0 != (#[trigger] self.drone_bat@[b]).0 by {
                        if b < pre.len() {
                            assert(pre[a].0 != pre[b].0);
                        } else {
                            assert(self.drone_bat@[b].0 == d.id);
                            assert(pre[a].0 != d.id);
                        }
                    }
                }
            } else {
                proof {
                    assert(has_bat(pre, d.id));
                }
            }
            proof {
                assert(ds.take(i as int + 1).drop_last() =~= ds.take(i as int));
                assert(ds.take(i as int + 1).last() == ds[i as int]);
            }
            i = i + 1;
        }
        proof {
            assert(ds.take(n as int) =~= ds);
        }
    }
}

} // verus!
