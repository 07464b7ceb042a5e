//! Bound inference for hidden entities: per entity id a shrinking axis-aligned
//! rectangle of possible positions, derived from the entity's depth band and
//! from the quadrant hints owned drones report.

use vstd::prelude::*;

use crate::vec2::{div_tz, div_trunc, Vec2};
use crate::world::{BlipDirection, Creature, Drone, World, MAP_SIZE};

verus! {

/// How far (per axis, in game units) an unseen entity may move in one tick;
/// known rectangles are widened by this margin every turn.
pub const MOTION_MARGIN: i64 = 200;

/// Axis-aligned rectangle of possible positions for one entity.
#[derive(Clone, Copy, PartialEq, Eq, Structural, Debug)]
pub struct Bounds {
    pub top_left: Vec2,
    pub bot_right: Vec2,
}

impl Bounds {
    /// Both corners lie in the playable area (the rectangle may be empty).
    pub open spec fn in_map(self) -> bool {
        &&& 0 <= self.top_left.x <= MAP_SIZE
        &&& 0 <= self.top_left.y <= MAP_SIZE
        &&& 0 <= self.bot_right.x <= MAP_SIZE
        &&& 0 <= self.bot_right.y <= MAP_SIZE
    }

    /// Whether point `p` lies inside the rectangle.
    pub open spec fn contains(self, p: Vec2) -> bool {
        self.top_left.x <= p.x <= self.bot_right.x && self.top_left.y <= p.y <= self.bot_right.y
    }

    /// Intersection: corners move inward to the larger top-left and the
    /// smaller bottom-right.
    pub open spec fn inter_spec(self, other: Bounds) -> Bounds {
        Bounds {
            top_left: Vec2 {
                x: if self.top_left.x >= other.top_left.x {
                    self.top_left.x
                } else {
                    other.top_left.x
                },
                y: if self.top_left.y >= other.top_left.y {
                    self.top_left.y
                } else {
                    other.top_left.y
                },
            },
            bot_right: Vec2 {
                x: if self.bot_right.x <= other.bot_right.x {
                    self.bot_right.x
                } else {
                    other.bot_right.x
                },
                y: if self.bot_right.y <= other.bot_right.y {
                    self.bot_right.y
                } else {
                    other.bot_right.y
                },
            },
        }
    }

    /// The rectangle widened by `size` on all four sides.
    pub open spec fn ext_spec(self, size: int) -> Bounds {
        Bounds {
            top_left: Vec2 {
                x: (self.top_left.x - size) as i64,
                y: (self.top_left.y - size) as i64,
            },
            bot_right: Vec2 {
                x: (self.bot_right.x + size) as i64,
                y: (self.bot_right.y + size) as i64,
            },
        }
    }

    pub fn new(x1: i64, y1: i64, x2: i64, y2: i64) -> (r: Bounds)
        ensures
            r == (Bounds { top_left: Vec2 { x: x1, y: y1 }, bot_right: Vec2 { x: x2, y: y2 } }),
    {
        Bounds { top_left: Vec2 { x: x1, y: y1 }, bot_right: Vec2 { x: x2, y: y2 } }
    }

    /// Shrinks `self` to its intersection with `other`.
    pub fn intersect(&mut self, other: &Bounds)
        ensures
            *final(self) == old(self).inter_spec(*other),
    {
        self.top_left = self.top_left.max(other.top_left);
        self.bot_right = self.bot_right.min(other.bot_right);
    }

    /// Widens `self` by `size` on all sides.
    pub fn extend(&mut self, size: i64)
        requires
            old(self).in_map(),
            0 <= size <= MAP_SIZE,
        ensures
            *final(self) == old(self).ext_spec(size as int),
    {
        self.top_left.x = self.top_left.x - size;
        self.top_left.y = self.top_left.y - size;
        self.bot_right.x = self.bot_right.x + size;
        self.bot_right.y = self.bot_right.y + size;
    }

    /// Center of the rectangle, the point estimate used by other components.
    pub fn get_center(&self) -> (r: Vec2)
        requires
            self.in_map(),
        ensures
            r.x == div_tz(self.top_left.x + self.bot_right.x, 2),
            r.y == div_tz(self.top_left.y + self.bot_right.y, 2),
    {
        Vec2 {
            x: div_trunc(self.top_left.x + self.bot_right.x, 2),
            y: div_trunc(self.top_left.y + self.bot_right.y, 2),
        }
    }
}

/// The a-priori rectangle of an entity class: hazards may be anywhere, the
/// three economic classes each live in one horizontal depth band.
pub open spec fn band_spec(typ: i8) -> Bounds {
    if typ == 0 {
        Bounds { top_left: Vec2 { x: 0, y: 2500 }, bot_right: Vec2 { x: MAP_SIZE, y: 5000 } }
    } else if typ == 1 {
        Bounds { top_left: Vec2 { x: 0, y: 5000 }, bot_right: Vec2 { x: MAP_SIZE, y: 7500 } }
    } else if typ == 2 {
        Bounds { top_left: Vec2 { x: 0, y: 7500 }, bot_right: Vec2 { x: MAP_SIZE, y: MAP_SIZE } }
    } else {
        Bounds { top_left: Vec2 { x: 0, y: 0 }, bot_right: Vec2 { x: MAP_SIZE, y: MAP_SIZE } }
    }
}

pub fn get_bounds_for_type(typ: i8) -> (r: Bounds)
    ensures
        r == band_spec(typ),
{
    if typ == 0 {
        Bounds::new(0, 2500, MAP_SIZE, 5000)
    } else if typ == 1 {
        Bounds::new(0, 5000, MAP_SIZE, 7500)
    } else if typ == 2 {
        Bounds::new(0, 7500, MAP_SIZE, MAP_SIZE)
    } else {
        Bounds::new(0, 0, MAP_SIZE, MAP_SIZE)
    }
}

/// The quarter of the map a quadrant hint pins the entity to, relative to the
/// reporting drone's position.
pub open spec fn dir_bounds_spec(dir: BlipDirection, pos: Vec2) -> Bounds {
    match dir {
        BlipDirection::TL => Bounds {
            top_left: Vec2 { x: 0, y: 0 },
            bot_right: Vec2 { x: pos.x, y: pos.y },
        },
        BlipDirection::TR => Bounds {
            top_left: Vec2 { x: pos.x, y: 0 },
            bot_right: Vec2 { x: MAP_SIZE, y: pos.y },
        },
        BlipDirection::BL => Bounds {
            top_left: Vec2 { x: 0, y: pos.y },
            bot_right: Vec2 { x: pos.x, y: MAP_SIZE },
        },
        BlipDirection::BR => Bounds {
            top_left: Vec2 { x: pos.x, y: pos.y },
            bot_right: Vec2 { x: MAP_SIZE, y: MAP_SIZE },
        },
    }
}

pub fn get_directional_bounds(dir: BlipDirection, pos: Vec2) -> (r: Bounds)
    ensures
        r == dir_bounds_spec(dir, pos),
{
    match dir {
        BlipDirection::TL => Bounds::new(0, 0, pos.x, pos.y),
        BlipDirection::TR => Bounds::new(pos.x, 0, MAP_SIZE, pos.y),
        BlipDirection::BL => Bounds::new(0, pos.y, pos.x, MAP_SIZE),
        BlipDirection::BR => Bounds::new(pos.x, pos.y, MAP_SIZE, MAP_SIZE),
    }
}

/// One update's motion step on one entry: widen by the motion margin, then
/// clamp back into the entity's depth band.
pub open spec fn step_spec(b: Bounds, typ: i8) -> Bounds {
    b.ext_spec(MOTION_MARGIN as int).inter_spec(band_spec(typ))
}

/// All entries after every hint of one drone's hint list (processed front to
/// back) has been intersected in.
pub open spec fn blips_folded(
    s: Seq<(i32, Bounds)>,
    blips: Seq<(i32, BlipDirection)>,
    pos: Vec2,
) -> Seq<(i32, Bounds)>
    decreases blips.len(),
{
    if blips.len() == 0 {
        s
    } else {
        apply_blip(blips_folded(s, blips.drop_last(), pos), blips.last().0, blips.last().1, pos)
    }
}

/// One hint applied to the entry (if any) carrying its entity id.
pub open spec fn apply_blip(
    s: Seq<(i32, Bounds)>,
    id: i32,
    dir: BlipDirection,
    pos: Vec2,
) -> Seq<(i32, Bounds)> {
    s.map(
        |j: int, e: (i32, Bounds)|
            if e.0 == id {
                (e.0, e.1.inter_spec(dir_bounds_spec(dir, pos)))
            } else {
                e
            },
    )
}

/// All entries after the hint lists of the drones (processed front to back)
/// have been intersected in.
pub open spec fn drones_folded(s: Seq<(i32, Bounds)>, drones: Seq<Drone>) -> Seq<(i32, Bounds)>
    decreases drones.len(),
{
    if drones.len() == 0 {
        s
    } else {
        blips_folded(
            drones_folded(s, drones.drop_last()),
            drones.last().blips@,
            drones.last().pos,
        )
    }
}

/// The entry list after the motion step, before hints: lazily created band
/// rectangles on the first turn, widened-and-reclamped rectangles afterwards.
pub open spec fn stepped_entries(old_entries: Seq<(i32, Bounds)>, cs: Seq<Creature>) -> Seq<
    (i32, Bounds),
> {
    if old_entries.len() == 0 {
        Seq::new(cs.len(), |i: int| (cs[i].id, band_spec(cs[i].typ)))
    } else {
        Seq::new(cs.len(), |i: int| (cs[i].id, step_spec(old_entries[i].1, cs[i].typ)))
    }
}

/// A hint is truthful for position `p` when `p` lies in the hinted quadrant
/// relative to the reporting drone.
pub open spec fn blip_truthful(dir: BlipDirection, dpos: Vec2, p: Vec2) -> bool {
    match dir {
        BlipDirection::TL => p.x <= dpos.x && p.y <= dpos.y,
        BlipDirection::TR => p.x >= dpos.x && p.y <= dpos.y,
        BlipDirection::BL => p.x <= dpos.x && p.y >= dpos.y,
        BlipDirection::BR => p.x >= dpos.x && p.y >= dpos.y,
    }
}

/// Every hint any of the drones reported about entity `id` is truthful for
/// position `p`.
pub open spec fn hints_truthful(drones: Seq<Drone>, id: i32, p: Vec2) -> bool {
    forall|d: int, k: int|
        0 <= d < drones.len() && 0 <= k < (#[trigger] drones[d].blips@).len() && drones[d].blips@[
            k
        ].0 == id ==> blip_truthful((#[trigger] drones[d].blips@[k]).1, drones[d].pos, p)
}

/// The hint folds keep the entry count and every entry's id.
pub proof fn lemma_blips_fold_shape(
    s: Seq<(i32, Bounds)>,
    blips: Seq<(i32, BlipDirection)>,
    pos: Vec2,
)
    ensures
        blips_folded(s, blips, pos).len() == s.len(),
        forall|i: int|
            0 <= i < s.len() ==> (#[trigger] blips_folded(s, blips, pos)[i]).0 == s[i].0,
    decreases blips.len(),
{
    if blips.len() > 0 {
        lemma_blips_fold_shape(s, blips.drop_last(), pos);
    }
}

pub proof fn lemma_drones_fold_shape(s: Seq<(i32, Bounds)>, drones: Seq<Drone>)
    ensures
        drones_folded(s, drones).len() == s.len(),
        forall|i: int|
            0 <= i < s.len() ==> (#[trigger] drones_folded(s, drones)[i]).0 == s[i].0,
    decreases drones.len(),
{
    if drones.len() > 0 {
        lemma_drones_fold_shape(s, drones.drop_last());
        lemma_blips_fold_shape(
            drones_folded(s, drones.drop_last()),
            drones.last().blips@,
            drones.last().pos,
        );
    }
}

/// A truthful in-map position survives the quadrant intersection of every
/// hint one drone reports.
pub proof fn lemma_blips_fold_contains(
    s: Seq<(i32, Bounds)>,
    blips: Seq<(i32, BlipDirection)>,
    pos: Vec2,
    i: int,
    id: i32,
    p: Vec2,
)
    requires
        0 <= i < s.len(),
        s[i].0 == id,
        s[i].1.contains(p),
        0 <= p.x <= MAP_SIZE,
        0 <= p.y <= MAP_SIZE,
        forall|k: int|
            0 <= k < blips.len() && (#[trigger] blips[k]).0 == id ==> blip_truthful(
                blips[k].1,
                pos,
                p,
            ),
    ensures
        blips_folded(s, blips, pos)[i].1.contains(p),
    decreases blips.len(),
{
    if blips.len() > 0 {
        lemma_blips_fold_contains(s, blips.drop_last(), pos, i, id, p);
        lemma_blips_fold_shape(s, blips.drop_last(), pos);
        let prev = blips_folded(s, blips.drop_last(), pos);
        let b = blips.last();
        assert(blips[blips.len() - 1] == b);
        if prev[i].0 == b.0 {
            assert(blip_truthful(b.1, pos, p));
            assert(dir_bounds_spec(b.1, pos).contains(p));
        }
    }
}

/// A truthful in-map position survives the hint intersections of all drones.
pub proof fn lemma_drones_fold_contains(
    s: Seq<(i32, Bounds)>,
    drones: Seq<Drone>,
    i: int,
    id: i32,
    p: Vec2,
)
    requires
        0 <= i < s.len(),
        s[i].0 == id,
        s[i].1.contains(p),
        0 <= p.x <= MAP_SIZE,
        0 <= p.y <= MAP_SIZE,
        hints_truthful(drones, id, p),
    ensures
        drones_folded(s, drones)[i].1.contains(p),
    decreases drones.len(),
{
    if drones.len() > 0 {
        assert(hints_truthful(drones.drop_last(), id, p)) by {
            assert forall|d: int, k: int|
                0 <= d < drones.drop_last().len() && 0 <= k < (
                #[trigger] drones.drop_last()[d].blips@).len() && drones.drop_last()[d].blips@[k].0
                    == id implies blip_truthful(
                (#[trigger] drones.drop_last()[d].blips@[k]).1,
                drones.drop_last()[d].pos,
                p,
            ) by {
                assert(drones.drop_last()[d] == drones[d]);
                assert(drones[d].blips@[k].0 == id);
            }
        }
        lemma_drones_fold_contains(s, drones.drop_last(), i, id, p);
        lemma_drones_fold_shape(s, drones.drop_last());
        let prev = drones_folded(s, drones.drop_last());
        let dr = drones.last();
        assert(drones[drones.len() - 1] == dr);
        lemma_blips_fold_contains(prev, dr.blips@, dr.pos, i, id, p);
    }
}

/// One full turn of bound inference keeps the true position inside the
/// entity's rectangle: if the rectangle held the entity's previous position,
/// the entity moved at most the motion margin per axis, it stayed in its
/// class's depth band, and every hint reported about it was truthful, then
/// the updated rectangle holds its new position.
pub proof fn lemma_update_preserves_containment(
    old_entries: Seq<(i32, Bounds)>,
    cs: Seq<Creature>,
    drones: Seq<Drone>,
    i: int,
    p_old: Vec2,
    p_new: Vec2,
)
    requires
        0 <= i < cs.len(),
        old_entries.len() == 0 || old_entries.len() == cs.len(),
        old_entries.len() != 0 ==> old_entries[i].1.contains(p_old) && old_entries[i].1.in_map(),
        old_entries.len() != 0 ==> -MOTION_MARGIN <= p_new.x - p_old.x <= MOTION_MARGIN
            && -MOTION_MARGIN <= p_new.y - p_old.y <= MOTION_MARGIN,
        band_spec(cs[i].typ).contains(p_new),
        0 <= p_new.x <= MAP_SIZE,
        0 <= p_new.y <= MAP_SIZE,
        hints_truthful(drones, cs[i].id, p_new),
    ensures
        drones_folded(stepped_entries(old_entries, cs), drones)[i].1.contains(p_new),
{
    let stepped = stepped_entries(old_entries, cs);
    assert(stepped.len() == cs.len());
    assert(stepped[i].0 == cs[i].id);
    if old_entries.len() == 0 {
        assert(stepped[i].1.contains(p_new));
    } else {
        assert(old_entries[i].1.ext_spec(MOTION_MARGIN as int).contains(p_new));
        assert(stepped[i].1.contains(p_new));
    }
    lemma_drones_fold_contains(stepped, drones, i, cs[i].id, p_new);
}

/// Whether an entry for `id` is registered.
pub open spec fn has_bound(s: Seq<(i32, Bounds)>, id: i32) -> bool {
    exists|j: int| 0 <= j < s.len() && (#[trigger] s[j]).0 == id
}

/// The registered rectangle of `id` (meaningful under `has_bound` and
/// distinct ids).
pub open spec fn bound_of(s: Seq<(i32, Bounds)>, id: i32) -> Bounds {
    s[choose|j: int| 0 <= j < s.len() && (#[trigger] s[j]).0 == id].1
}

/// No two entries carry the same id.
pub open spec fn entries_distinct(s: Seq<(i32, Bounds)>) -> bool {
    forall|i: int, j: int|
        0 <= i < j < s.len() ==> (#[trigger] s[i]).0 != (#[trigger] s[j]).0
}

/// Per hidden entity, the rectangle of positions still possible.
pub struct BoundsDetector {
    pub bounds: Vec<(i32, Bounds)>,
}

impl BoundsDetector {
    /// The entry list mirrors the entity catalogue: entry `i` belongs to
    /// entity `i`, every rectangle inside the map.
    pub open spec fn aligned(self, w: World) -> bool {
        &&& self.bounds@.len() == w.creatures@.len()
        &&& forall|i: int|
            0 <= i < self.bounds@.len() ==> (#[trigger] self.bounds@[i]).0 == w.creatures@[i].id
    }

    pub open spec fn all_in_map(s: Seq<(i32, Bounds)>) -> bool {
        forall|i: int| 0 <= i < s.len() ==> (#[trigger] s[i]).1.in_map()
    }

    pub fn new() -> (r: BoundsDetector)
        ensures
            r.bounds@.len() == 0,
    {
        BoundsDetector { bounds: Vec::new() }
    }

    /// Index of the entry for `id`, if any.
    fn find_index(&self, id: i32) -> (r: Option<usize>)
        ensures
            match r {
                Some(j) => 0 <= j < self.bounds@.len() && self.bounds@[j as int].0 == id,
                None => forall|j: int| 0 <= j < self.bounds@.len() ==> (#[trigger] self.bounds@[j]).0
                    != id,
            },
    {
        let n = self.bounds.len();
        let mut i: usize = 0;
        while i < n
            invariant
                0 <= i <= n == self.bounds@.len(),
                forall|j: int| 0 <= j < i ==> (#[trigger] self.bounds@[j]).0 != id,
            decreases n - i,
        {
            if self.bounds[i].0 == id {
                return Some(i);
            }
            i = i + 1;
        }
        None
    }

    /// The current rectangle of the entity with id `id`. Querying an id that
    /// was never registered violates the mandated update order and is left
    /// out by precondition.
    pub fn get_bounds(&self, id: i32) -> (r: &Bounds)
        requires
            has_bound(self.bounds@, id),
            entries_distinct(self.bounds@),
        ensures
            *r == bound_of(self.bounds@, id),
    {
        let r = self.find_index(id);
        match r {
            Some(j) => &self.bounds[j].1,
            None => {
                proof {
                    assert(false);
                }
                &self.bounds[0].1
            },
        }
    }

    /// Runs one turn of bound inference: lazy initialization or the
    /// widen-and-reclamp motion step on every entry, then one intersection
    /// per directional hint received this turn.
    pub fn update(&mut self, world: &World)
        requires
            world.wf(),
            old(self).bounds@.len() == 0 || old(self).aligned(*world),
            Self::all_in_map(old(self).bounds@),
        ensures
            final(self).aligned(*world),
            Self::all_in_map(final(self).bounds@),
            final(self).bounds@ == drones_folded(
                stepped_entries(old(self).bounds@, world.creatures@),
                world.me.drones@,
            ),
    {
        if self.bounds.len() == 0 {
            self.initialize(world);
        } else {
            self.extend_bounds(world);
        }
        assert(self.bounds@ =~= stepped_entries(old(self).bounds@, world.creatures@));
        self.handle_blips(world);
    }

    /// First turn: one band rectangle per entity, determined by its class.
    fn initialize(&mut self, world: &World)
        requires
            old(self).bounds@.len() == 0,
        ensures
            final(self).bounds@ =~= Seq::new(
                world.creatures@.len(),
                |i: int| (world.creatures@[i].id, band_spec(world.creatures@[i].typ)),
            ),
            Self::all_in_map(final(self).bounds@),
    {
        let n = world.creatures.len();
        let mut i: usize = 0;
        while i < n
            invariant
                0 <= i <= n == world.creatures@.len(),
                self.bounds@.len() == i,
                forall|j: int|
                    0 <= j < i ==> #[trigger] self.bounds@[j] == (
                    world.creatures@[j].id,
                    band_spec(world.creatures@[j].typ),
                ),
                Self::all_in_map(self.bounds@),
            decreases n - i,
        {
            let c = &world.creatures[i];
            let b = get_bounds_for_type(c.typ);
            self.bounds.push((c.id, b));
            i = i + 1;
        }
    }

    /// Later turns: widen every rectangle by the motion margin and clamp it
    /// back into its entity's depth band.
    fn extend_bounds(&mut self, world: &World)
        requires
            world.wf(),
            old(self).aligned(*world),
            Self::all_in_map(old(self).bounds@),
        ensures
            final(self).bounds@ =~= Seq::new(
                world.creatures@.len(),
                |i: int|
                    (world.creatures@[i].id, step_spec(old(self).bounds@[i].1, world.creatures@[i].typ)),
            ),
            Self::all_in_map(final(self).bounds@),
    {
        let n = world.creatures.len();
        let mut i: usize = 0;
        while i < n
            invariant
                world.wf(),
                0 <= i <= n == world.creatures@.len(),
                self.bounds@.len() == n,
                old(self).aligned(*world),
                self.bounds@.len() == old(self).bounds@.len(),
                forall|j: int|
                    0 <= j < i ==> #[trigger] self.bounds@[j] == (
                    world.creatures@[j].id,
                    step_spec(old(self).bounds@[j].1, world.creatures@[j].typ),
                ),
                forall|j: int| i <= j < n ==> #[trigger] self.bounds@[j] == old(self).bounds@[j],
                Self::all_in_map(self.bounds@),
            decreases n - i,
        {
            let c = &world.creatures[i];
            let mut b = self.bounds[i].1;
            b.extend(MOTION_MARGIN);
            let band = get_bounds_for_type(c.typ);
            b.intersect(&band);
            self.bounds.set(i, (c.id, b));
            i = i + 1;
        }
    }

    /// Applies every directional hint of every owned drone to the hinted
    /// entity's rectangle.
    fn handle_blips(&mut self, world: &World)
        requires
            world.wf(),
            old(self).aligned(*world),
            Self::all_in_map(old(self).bounds@),
        ensures
            final(self).bounds@ == drones_folded(old(self).bounds@, world.me.drones@),
            final(self).aligned(*world),
            Self::all_in_map(final(self).bounds@),
    {
        let nd = world.me.drones.len();
        let mut d: usize = 0;
        while d < nd
            invariant
                world.wf(),
                0 <= d <= nd == world.me.drones@.len(),
                self.bounds@ == drones_folded(old(self).bounds@, world.me.drones@.take(d as int)),
                self.bounds@.len() == old(self).bounds@.len(),
                old(self).aligned(*world),
                self.aligned(*world),
                Self::all_in_map(self.bounds@),
            decreases nd - d,
        {
            let drone = &world.me.drones[d];
            let nb = drone.blips.len();
            let mut k: usize = 0;
            let ghost s_before = self.bounds@;
            while k < nb
                invariant
                    world.wf(),
                    0 <= k <= nb == drone.blips@.len(),
                    drone == &world.me.drones@[d as int],
                    0 <= d < world.me.drones@.len(),
                    self.bounds@ == blips_folded(s_before, drone.blips@.take(k as int), drone.pos),
                    self.bounds@.len() == s_before.len(),
                    self.aligned(*world),
                    Self::all_in_map(self.bounds@),
                decreases nb - k,
            {
                let (id, dir) = drone.blips[k];
                let ghost pre = self.bounds@;
                let idx = self.find_index(id);
                match idx {
                    Some(j) => {
                        let rect = get_directional_bounds(dir, drone.pos);
                        let mut b = self.bounds[j].1;
                        let ghost bid = self.bounds@[j as int].0;
                        b.intersect(&rect);
                        self.bounds.set(j, (id, b));
                        proof {
                            assert(world.me.drones@[d as int].wf());
                            assert(pre[j as int].1.in_map());
                            assert(b.in_map());
                            assert forall|t: int| 0 <= t < pre.len() implies self.bounds@[t]
                                == apply_blip(pre, id, dir, drone.pos)[t] by {
                                if t != j {
                                    assert(pre[t].0 == world.creatures@[t].id);
                                    assert(pre[j as int].0 == world.creatures@[j as int].id);
                                }
                            }
                            assert(self.bounds@ =~= apply_blip(pre, id, dir, drone.pos));
                            assert forall|t: int| 0 <= t < self.bounds@.len() implies (
                            #[trigger] self.bounds@[t]).1.in_map() by {
                                if t != j {
                                    assert(pre[t].1.in_map());
                                }
                            }
                        }
                    },
                    None => {
                        proof {
                            assert forall|t: int| 0 <= t < pre.len() implies self.bounds@[t]
                                == apply_blip(pre, id, dir, drone.pos)[t] by {}
                            assert(self.bounds@ =~= apply_blip(pre, id, dir, drone.pos));
                        }
                    },
                }
                proof {
                    assert(drone.blips@.take(k as int + 1).drop_last() =~= drone.blips@.take(
                        k as int,
                    ));
                    assert(drone.blips@.take(k as int + 1).last() == drone.blips@[k as int]);
                }
                k = k + 1;
            }
            proof {
                assert(drone.blips@.take(nb as int) =~= drone.blips@);
                assert(world.me.drones@.take(d as int + 1).drop_last() =~= world.me.drones@.take(
                    d as int,
                ));
                assert(world.me.drones@.take(d as int + 1).last() == world.me.drones@[d as int]);
            }
            d = d + 1;
        }
        proof {
            assert(world.me.drones@.take(nd as int) =~= world.me.drones@);
        }
    }
}

} // verus!
