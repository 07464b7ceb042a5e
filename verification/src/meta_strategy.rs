//! Turn-level economic appraisal: the value of every economic entity,
//! recomputed in full each turn from the banked-scan sets of both players.

use vstd::prelude::*;

use crate::maps::{calculate_creature_cost, creature_cost_spec};
use crate::world::World;

verus! {

/// The fish-value table built from the first `n` catalogue entries: one
/// `(id, value)` pair per economic entity, in catalogue order.
pub open spec fn fish_costs(w: World, n: int) -> Seq<(i32, i64)>
    decreases n,
{
    if n <= 0 {
        Seq::empty()
    } else {
        let prev = fish_costs(w, n - 1);
        let c = w.creatures@[n - 1];
        if c.typ != -1 {
            prev.push((c.id, creature_cost_spec(w, c) as i64))
        } else {
            prev
        }
    }
}

/// Per-entity economic value of the current turn.
pub struct MetaStrategy {
    pub fish_cost: Vec<(i32, i64)>,
}

impl MetaStrategy {
    pub fn new() -> (r: MetaStrategy)
        ensures
            r.fish_cost@.len() == 0,
    {
        MetaStrategy { fish_cost: Vec::new() }
    }

    /// Rebuilds the value table for this turn.
    pub fn update(&mut self, world: &World)
        requires
            world.wf(),
        ensures
            final(self).fish_cost@ == fish_costs(*world, world.creatures@.len() as int),
    {
        let mut table: Vec<(i32, i64)> = Vec::new();
        let nc = world.creatures.len();
        let mut i: usize = 0;
        while i < nc
            invariant
                world.wf(),
                0 <= i <= nc == world.creatures@.len(),
                table@ == fish_costs(*world, i as int),
            decreases nc - i,
        {
            let c = &world.creatures[i];
            if c.typ != -1 {
                proof {
                    assert(world.creatures@[i as int].wf());
                }
                let cost = calculate_creature_cost(c, world);
                table.push((c.id, cost));
            }
            i = i + 1;
        }
        self.fish_cost = table;
    }

    /// The value of entity `id`. Asking for an id the table does not hold
    /// violates the mandated update order and is left out by precondition.
    pub fn get_fish_cost(&self, id: i32) -> (r: i64)
        requires
            exists|j: int| 0 <= j < self.fish_cost@.len() && (#[trigger] self.fish_cost@[j]).0 == id,
        ensures
            exists|j: int|
                0 <= j < self.fish_cost@.len() && #[trigger] self.fish_cost@[j] == (id, r),
    {
        let n = self.fish_cost.len();
        let mut i: usize = 0;
        while i < n
            invariant
                0 <= i <= n == self.fish_cost@.len(),
                exists|j: int| i <= j < n && (#[trigger] self.fish_cost@[j]).0 == id,
            decreases n - i,
        {
            if self.fish_cost[i].0 == id {
                return self.fish_cost[i].1;
            }
            i = i + 1;
        }
        proof {
            assert(false);
        }
        0
    }
}

} // verus!
