//! The per-turn orchestrator: runs the trackers, grids and the trajectory
//! search in dependency order and turns the winning first actions into move
//! commands for the output layer.

use vstd::prelude::*;

use crate::bounds_detector::{drones_folded, stepped_entries, BoundsDetector};
use crate::maps::{decay, value_fold, zero_at_positions, ExplorationMap, ScoreMap};
use crate::pathfinding::{clamp_play, pop_wf, Action, Pathfinding, POPULATION_SIZE};
use crate::tracker::{
    all_drones, integrate_spec, targets_rel, upsert_bats, velocities_rel, visible_fold, Monster,
    Tracker,
};
use crate::world::{World, MAP_SIZE};

verus! {

/// One move order for one drone: an absolute target inside the play area and
/// the light toggle.
#[derive(Clone, Copy, PartialEq, Eq, Structural, Debug)]
pub struct Command {
    pub x: i64,
    pub y: i64,
    pub light: bool,
}

/// The command a drone at `pos` gets for action `a`: the move vector's
/// target, clamped into the play area.
pub open spec fn command_spec(pos: crate::vec2::Vec2, a: Action) -> Command {
    let t = clamp_play(pos.add_spec(a.dir.scaled_spec(crate::pathfinding::MOVE_SPEED as int)));
    Command { x: t.x, y: t.y, light: a.light }
}

/// Owns every per-turn component for the process lifetime.
pub struct Strategy {
    pub bounds_detector: BoundsDetector,
    pub tracker: Tracker,
    pub exploration_map: ExplorationMap,
    pub score_map: ScoreMap,
    pub pathfinding: Pathfinding,
}

impl Strategy {
    /// The cross-turn invariant of the orchestrator's components.
    pub open spec fn wf(self) -> bool {
        &&& self.tracker.wf()
        &&& self.exploration_map.wf()
        &&& self.score_map.wf()
        &&& BoundsDetector::all_in_map(self.bounds_detector.bounds@)
        &&& pop_wf(self.pathfinding.population@)
        &&& self.pathfinding.population@.len() <= POPULATION_SIZE
    }

    pub fn new() -> (r: Strategy)
        ensures
            r.wf(),
            r.bounds_detector.bounds@.len() == 0,
    {
        Strategy {
            bounds_detector: BoundsDetector::new(),
            tracker: Tracker::new(),
            exploration_map: ExplorationMap::new(),
            score_map: ScoreMap::new(),
            pathfinding: Pathfinding::new(),
        }
    }

    /// One turn: updates every component in dependency order, runs the
    /// trajectory search, and returns one command per owned drone, its
    /// target inside the play area.
    pub fn play(&mut self, world: &World, rng: &mut rand::rngs::StdRng) -> (r: Vec<Command>)
        requires
            world.wf(),
            old(self).wf(),
            old(self).bounds_detector.bounds@.len() == 0 || old(self).bounds_detector.aligned(
                *world,
            ),
        ensures
            final(self).wf(),
            final(self).bounds_detector.aligned(*world),
            r@.len() == 2,
            ({
                let acts = final(self).pathfinding.population@[0].1.ticks@[0];
                r@[0] == command_spec(world.me.drones@[0].pos, acts.0) && r@[1] == command_spec(
                    world.me.drones@[1].pos,
                    acts.1,
                )
            }),
            forall|i: int|
                0 <= i < 2 ==> 0 <= (#[trigger] r@[i]).x < MAP_SIZE && 0 <= r@[i].y < MAP_SIZE,
            crate::pathfinding::sorted_desc(final(self).pathfinding.population@),
            final(self).pathfinding.population@.len() == POPULATION_SIZE,
            crate::pathfinding::pop_scored(
                final(self).tracker.monsters@,
                final(self).exploration_map.map@,
                final(self).score_map.map@,
                crate::pathfinding::start_model(*world),
                final(self).pathfinding.population@,
            ),
            final(self).pathfinding.population@[0].0.value_spec()
                >= crate::pathfinding::gene_fold(
                final(self).tracker.monsters@,
                final(self).exploration_map.map@,
                final(self).score_map.map@,
                crate::pathfinding::start_model(*world),
                crate::pathfinding::baseline_ticks(),
                crate::pathfinding::GENE_SIZE as int,
            ).0.score.value_spec(),
            exists|s1: Seq<Monster>, s2: Seq<Monster>|
                velocities_rel(old(self).tracker.monsters@, s1) && (forall|i: int|
                    0 <= i < s1.len() ==> #[trigger] s2[i] == integrate_spec(s1[i])) && s2.len()
                    == s1.len() && targets_rel(
                    old(self).tracker.drone_bat@,
                    all_drones(*world),
                    visible_fold(s2, world.creatures@, world.creatures@.len() as int),
                    final(self).tracker.monsters@,
                ),
            final(self).tracker.drone_bat@ == upsert_bats(
                old(self).tracker.drone_bat@,
                all_drones(*world),
            ),
            final(self).bounds_detector.bounds@ == drones_folded(
                stepped_entries(old(self).bounds_detector.bounds@, world.creatures@),
                world.me.drones@,
            ),
            final(self).exploration_map.map@ == zero_at_positions(
                old(self).exploration_map.map@.map_values(|v: i64| decay(v)),
                world.me.drones@.map_values(|d: crate::world::Drone| d.pos),
            ),
            final(self).score_map.map@ == value_fold(
                *world,
                final(self).bounds_detector.bounds@,
                world.creatures@.len() as int,
            ),
    {
        self.tracker.update(world);
        self.bounds_detector.update(world);
        self.exploration_map.update(world);
        self.score_map.update(world, &self.bounds_detector);
        let actions = self.pathfinding.search(
            world,
            &self.tracker,
            &self.exploration_map,
            &self.score_map,
            rng,
        );
        let mut out: Vec<Command> = Vec::new();
        proof {
            assert(world.me.drones@[0].wf());
            assert(world.me.drones@[1].wf());
        }
        let d0 = &world.me.drones[0];
        let t0 = actions.0.get_move().add(d0.pos).clamp(
            crate::vec2::Vec2 { x: 0, y: 0 },
            crate::vec2::Vec2 { x: MAP_SIZE - 1, y: MAP_SIZE - 1 },
        );
        out.push(Command { x: t0.x, y: t0.y, light: actions.0.get_light() });
        let d1 = &world.me.drones[1];
        let t1 = actions.1.get_move().add(d1.pos).clamp(
            crate::vec2::Vec2 { x: 0, y: 0 },
            crate::vec2::Vec2 { x: MAP_SIZE - 1, y: MAP_SIZE - 1 },
        );
        out.push(Command { x: t1.x, y: t1.y, light: actions.1.get_light() });
        out
    }
}

} // verus!
