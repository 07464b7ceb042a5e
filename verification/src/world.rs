//! Per-turn world snapshot: the entity catalogue, both players and their
//! drones, plus the spec-level lookup and counting helpers the scoring
//! components are specified with.

use vstd::prelude::*;
use vstd::string::StrSliceExecFns;

use crate::vec2::Vec2;

verus! {

/// Width and height of the playable area, in game units.
pub const MAP_SIZE: i64 = 10000;

/// Quadrant code of a directional hint, relative to the reporting drone.
#[derive(Clone, Copy, PartialEq, Eq, Structural, Debug)]
pub enum BlipDirection {
    TL,
    TR,
    BL,
    BR,
}

impl BlipDirection {
    /// Decodes the two-letter quadrant code of the turn protocol; any other
    /// text is a malformed input, which the caller must treat as fatal.
    pub fn from_str(s: &str) -> (r: BlipDirection)
        requires
            s@ == "TL"@ || s@ == "TR"@ || s@ == "BL"@ || s@ == "BR"@,
        ensures
            s@ == "TL"@ ==> r == BlipDirection::TL,
            s@ == "TR"@ ==> r == BlipDirection::TR,
            s@ == "BL"@ ==> r == BlipDirection::BL,
            s@ == "BR"@ ==> r == BlipDirection::BR,
    {
        proof {
            reveal_strlit("TL");
            reveal_strlit("TR");
            reveal_strlit("BL");
            reveal_strlit("BR");
        }
        let c0 = s.get_char(0);
        let c1 = s.get_char(1);
        if c0 == 'T' {
            if c1 == 'L' {
                BlipDirection::TL
            } else {
                BlipDirection::TR
            }
        } else {
            if c1 == 'L' {
                BlipDirection::BL
            } else {
                BlipDirection::BR
            }
        }
    }
}

impl Default for BlipDirection {
    fn default() -> (r: BlipDirection)
        ensures
            r == BlipDirection::BL,
    {
        BlipDirection::BL
    }
}

/// One game entity: an economic creature (`typ` 0..=2) or a hazard
/// (`typ == -1`). Position and velocity are present only while visible.
#[derive(Clone, Copy, Debug)]
pub struct Creature {
    pub id: i32,
    pub color: i8,
    pub typ: i8,
    pub pos: Option<Vec2>,
    pub speed: Option<Vec2>,
}

impl Creature {
    pub fn new(id: i32, color: i8, typ: i8, pos: Option<Vec2>, speed: Option<Vec2>) -> (r:
        Creature)
        ensures
            r.id == id && r.color == color && r.typ == typ && r.pos == pos && r.speed == speed,
    {
        Creature { id, color, typ, pos, speed }
    }

    /// Forgets the per-turn visibility data, keeping the identity.
    pub fn clear(&mut self)
        ensures
            final(self).pos is None,
            final(self).speed is None,
            final(self).id == old(self).id,
            final(self).color == old(self).color,
            final(self).typ == old(self).typ,
    {
        self.pos = None;
        self.speed = None;
    }

    /// Structural validity: a known class, a color only economic entities
    /// carry, and in-map visibility data.
    pub open spec fn wf(self) -> bool {
        &&& (self.typ == -1 || (0 <= self.typ <= 2 && 0 <= self.color <= 3))
        &&& (self.pos matches Some(p) ==> 0 <= p.x <= MAP_SIZE && 0 <= p.y <= MAP_SIZE)
        &&& (self.speed matches Some(v) ==> -MAP_SIZE <= v.x <= MAP_SIZE && -MAP_SIZE <= v.y
            <= MAP_SIZE)
        &&& (self.pos is Some ==> self.speed is Some)
    }
}

/// One owned or opposing mobile unit.
#[derive(Clone, Debug)]
pub struct Drone {
    pub id: i32,
    pub pos: Vec2,
    pub bat: i32,
    pub emergency: i32,
    /// Directional hints received this turn, one per hinted entity id.
    pub blips: Vec<(i32, BlipDirection)>,
    /// Entity ids scanned by this drone but not yet banked.
    pub scans: Vec<i32>,
}

impl Drone {
    pub open spec fn wf(self) -> bool {
        &&& 0 <= self.pos.x < MAP_SIZE
        &&& 0 <= self.pos.y < MAP_SIZE
        &&& 0 <= self.bat <= 30
        &&& self.scans@.len() <= 1000
        &&& self.blips@.len() <= 1000
    }
}

/// One player: banked score, banked scan ids, and the two drones.
#[derive(Clone, Debug)]
pub struct Player {
    pub score: i32,
    pub scans: Vec<i32>,
    pub drones: Vec<Drone>,
}

impl Player {
    /// Drops the per-turn data before the input layer repopulates it.
    pub fn clear(&mut self)
        ensures
            final(self).scans@.len() == 0,
            final(self).drones@.len() == 0,
            final(self).score == old(self).score,
    {
        self.scans.clear();
        self.drones.clear();
    }

    pub open spec fn wf(self) -> bool {
        &&& self.drones.len() == 2
        &&& self.scans@.len() <= 10000
        &&& forall|i: int| 0 <= i < self.drones.len() ==> #[trigger] self.drones[i].wf()
    }
}

/// The per-turn immutable snapshot the decision engine reads.
#[derive(Clone, Debug)]
pub struct World {
    pub creatures: Vec<Creature>,
    pub me: Player,
    pub opponent: Player,
    pub iter: i32,
}

/// Whether some entity in `cs` carries id `id`.
pub open spec fn has_creature(cs: Seq<Creature>, id: i32) -> bool {
    exists|j: int| 0 <= j < cs.len() && cs[j].id == id
}

/// Index of the entity with id `id` (meaningful under `has_creature`).
pub open spec fn idx_of(cs: Seq<Creature>, id: i32) -> int {
    choose|j: int| 0 <= j < cs.len() && cs[j].id == id
}

/// The entity with id `id` (meaningful under `has_creature`).
pub open spec fn creature_of(cs: Seq<Creature>, id: i32) -> Creature {
    cs[idx_of(cs, id)]
}

/// Whether `ids` contains `id`.
pub open spec fn contains_id(ids: Seq<i32>, id: i32) -> bool {
    exists|j: int| 0 <= j < ids.len() && ids[j] == id
}

/// How many ids in `ids` name an entity of class `t`.
pub open spec fn count_typ(cs: Seq<Creature>, ids: Seq<i32>, t: i8) -> int
    decreases ids.len(),
{
    if ids.len() == 0 {
        0
    } else {
        count_typ(cs, ids.drop_last(), t) + if has_creature(cs, ids.last()) && creature_of(
            cs,
            ids.last(),
        ).typ == t {
            1int
        } else {
            0int
        }
    }
}

/// How many ids in `ids` name an entity of color `c`.
pub open spec fn count_col(cs: Seq<Creature>, ids: Seq<i32>, c: i8) -> int
    decreases ids.len(),
{
    if ids.len() == 0 {
        0
    } else {
        count_col(cs, ids.drop_last(), c) + if has_creature(cs, ids.last()) && creature_of(
            cs,
            ids.last(),
        ).color == c {
            1int
        } else {
            0int
        }
    }
}

pub proof fn lemma_count_typ_nonneg(cs: Seq<Creature>, ids: Seq<i32>, t: i8)
    ensures
        0 <= count_typ(cs, ids, t) <= ids.len(),
    decreases ids.len(),
{
    if ids.len() > 0 {
        lemma_count_typ_nonneg(cs, ids.drop_last(), t);
    }
}

pub proof fn lemma_count_col_nonneg(cs: Seq<Creature>, ids: Seq<i32>, c: i8)
    ensures
        0 <= count_col(cs, ids, c) <= ids.len(),
    decreases ids.len(),
{
    if ids.len() > 0 {
        lemma_count_col_nonneg(cs, ids.drop_last(), c);
    }
}

impl World {
    /// Validity of a snapshot: distinct well-formed entities, well-formed
    /// players, and every scan or hint id naming a known economic entity.
    pub open spec fn wf(self) -> bool {
        &&& self.creatures@.len() <= 1000
        &&& forall|i: int, j: int|
            0 <= i < j < self.creatures.len() ==> (#[trigger] self.creatures[i].id) != (
            #[trigger] self.creatures[j].id)
        &&& forall|i: int| 0 <= i < self.creatures.len() ==> #[trigger] self.creatures[i].wf()
        &&& self.me.wf()
        &&& self.opponent.wf()
        &&& self.scans_wf(self.me.scans@)
        &&& self.scans_wf(self.opponent.scans@)
        &&& forall|d: int|
            0 <= d < self.me.drones.len() ==> self.scans_wf(
                #[trigger] self.me.drones[d].scans@,
            ) && self.blips_wf(self.me.drones[d].blips@)
        &&& forall|d: int|
            0 <= d < self.opponent.drones.len() ==> self.scans_wf(
                #[trigger] self.opponent.drones[d].scans@,
            )
    }

    /// Every id in `ids` names a known economic entity.
    pub open spec fn scans_wf(self, ids: Seq<i32>) -> bool {
        forall|j: int|
            0 <= j < ids.len() ==> has_creature(self.creatures@, #[trigger] ids[j])
                && creature_of(self.creatures@, ids[j]).typ != -1
    }

    /// Every hinted id names a known entity.
    pub open spec fn blips_wf(self, blips: Seq<(i32, BlipDirection)>) -> bool {
        forall|j: int| 0 <= j < blips.len() ==> has_creature(self.creatures@, #[trigger] (
        blips[j]).0)
    }

    /// Drops the per-turn data of both players.
    pub fn clear(&mut self)
        ensures
            final(self).me.scans@.len() == 0,
            final(self).me.drones@.len() == 0,
            final(self).opponent.scans@.len() == 0,
            final(self).opponent.drones@.len() == 0,
            final(self).me.score == old(self).me.score,
            final(self).opponent.score == old(self).opponent.score,
            final(self).creatures == old(self).creatures,
            final(self).iter == old(self).iter,
    {
        self.me.clear();
        self.opponent.clear();
    }

    /// Linear lookup of an entity by id.
    pub fn find_creature(&self, id: i32) -> (r: Option<Creature>)
        ensures
            match r {
                Some(c) => has_creature(self.creatures@, id) && c.id == id && exists|j: int|
                    0 <= j < self.creatures@.len() && self.creatures@[j] == c,
                None => !has_creature(self.creatures@, id),
            },
    {
        let n = self.creatures.len();
        let mut i: usize = 0;
        while i < n
            invariant
                0 <= i <= n == self.creatures@.len(),
                forall|j: int| 0 <= j < i ==> (#[trigger] self.creatures@[j]).id != id,
            decreases n - i,
        {
            if self.creatures[i].id == id {
                return Some(self.creatures[i]);
            }
            i = i + 1;
        }
        None
    }

    /// How many of the given scan ids name an entity of class `t`.
    pub fn count_scans_of_typ(&self, ids: &Vec<i32>, t: i8) -> (n: usize)
        requires
            self.wf(),
        ensures
            n == count_typ(self.creatures@, ids@, t),
    {
        proof {
            lemma_count_typ_nonneg(self.creatures@, ids@, t);
        }
        let mut n: usize = 0;
        let mut i: usize = 0;
        while i < ids.len()
            invariant
                self.wf(),
                0 <= i <= ids@.len(),
                n == count_typ(self.creatures@, ids@.take(i as int), t),
                n <= i,
            decreases ids@.len() - i,
        {
            proof {
                assert(ids@.take(i as int + 1).drop_last() =~= ids@.take(i as int));
                assert(ids@.take(i as int + 1).last() == ids@[i as int]);
            }
            let c = self.find_creature(ids[i]);
            match c {
                Some(c) => {
                    proof {
                        self.lemma_found_is_creature_of(c);
                    }
                    if c.typ == t {
                        n = n + 1;
                    }
                },
                None => {},
            }
            i = i + 1;
        }
        proof {
            assert(ids@.take(ids@.len() as int) =~= ids@);
        }
        n
    }

    /// How many of the given scan ids name an entity of color `col`.
    pub fn count_scans_of_col(&self, ids: &Vec<i32>, col: i8) -> (n: usize)
        requires
            self.wf(),
        ensures
            n == count_col(self.creatures@, ids@, col),
    {
        proof {
            lemma_count_col_nonneg(self.creatures@, ids@, col);
        }
        let mut n: usize = 0;
        let mut i: usize = 0;
        while i < ids.len()
            invariant
                self.wf(),
                0 <= i <= ids@.len(),
                n == count_col(self.creatures@, ids@.take(i as int), col),
                n <= i,
            decreases ids@.len() - i,
        {
            proof {
                assert(ids@.take(i as int + 1).drop_last() =~= ids@.take(i as int));
                assert(ids@.take(i as int + 1).last() == ids@[i as int]);
            }
            let c = self.find_creature(ids[i]);
            match c {
                Some(c) => {
                    proof {
                        self.lemma_found_is_creature_of(c);
                    }
                    if c.color == col {
                        n = n + 1;
                    }
                },
                None => {},
            }
            i = i + 1;
        }
        proof {
            assert(ids@.take(ids@.len() as int) =~= ids@);
        }
        n
    }

    /// Under distinct ids, any entity found by id is the entity `creature_of`
    /// denotes.
    pub proof fn lemma_found_is_creature_of(self, c: Creature)
        requires
            self.wf(),
            exists|j: int| 0 <= j < self.creatures@.len() && self.creatures@[j] == c,
            has_creature(self.creatures@, c.id),
        ensures
            creature_of(self.creatures@, c.id) == c,
    {
        let cs = self.creatures@;
        let j = choose|j: int| 0 <= j < cs.len() && cs[j] == c;
        let k = idx_of(cs, c.id);
        assert(0 <= k < cs.len() && cs[k].id == c.id);
        if j != k {
            assert(cs[j].id != cs[k].id || cs[j].id != cs[j].id);
        }
    }
}

/// Whether `ids` (a scan list) contains `id`.
pub fn contains_scan(ids: &Vec<i32>, id: i32) -> (r: bool)
    ensures
        r == contains_id(ids@, id),
{
    let mut i: usize = 0;
    while i < ids.len()
        invariant
            0 <= i <= ids@.len(),
            forall|j: int| 0 <= j < i ==> ids@[j] != id,
        decreases ids@.len() - i,
    {
        if ids[i] == id {
            return true;
        }
        i = i + 1;
    }
    false
}

} // verus!
