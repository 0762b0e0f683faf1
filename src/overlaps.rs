use vstd::prelude::*;

use crate::geometry::WorldPos;
use crate::movement::{is_range_overlapping, min, spec_overlapping};

verus! {

/// The overlap record of an entity: whom it overlapped at the last tick,
/// its half-extents in world units, and whether it takes part at all.
#[derive(Clone, Debug)]
pub struct Overlaps {
    pub entities: Vec<u64>,
    pub width: i64,
    pub height: i64,
    pub is_active: bool,
}

impl Overlaps {
    /// An active record 18 by 20 world pixels: a little narrower than a tile,
    /// so that an entity in the next column is not caught.
    pub fn new() -> (r: Overlaps)
        ensures
            r.entities@.len() == 0,
            r.width == 18_000,
            r.height == 20_000,
            r.is_active,
    {
        Overlaps { entities: Vec::new(), width: 18_000, height: 20_000, is_active: true }
    }
}

impl Default for Overlaps {
    fn default() -> (r: Overlaps)
        ensures
            r.entities@.len() == 0,
            r.width == 18_000,
            r.height == 20_000,
            r.is_active,
    {
        Overlaps::new()
    }
}

/// An entity as the overlap pass sees it.
#[derive(Clone, Debug)]
pub struct Collider {
    pub id: u64,
    pub position: WorldPos,
    pub overlaps: Overlaps,
}

pub open spec fn spec_is_overlapping(a: Collider, b: Collider) -> bool {
    &&& spec_overlapping(
        a.position.x as int,
        b.position.x as int,
        min(a.overlaps.width as int, b.overlaps.width as int),
    )
    &&& spec_overlapping(
        a.position.y as int,
        b.position.y as int,
        min(a.overlaps.height as int, b.overlaps.height as int),
    )
}

/// Entities `i` and `j` overlap this tick: two distinct active records whose
/// boxes, both shrunk to the smaller of the two, meet.
pub open spec fn pair_hit(cs: Seq<Collider>, i: int, j: int) -> bool {
    i != j && cs[i].overlaps.is_active && cs[j].overlaps.is_active && spec_is_overlapping(cs[i], cs[j])
}

/// The ids, in order, of the first `k` entities that entity `i` overlaps.
pub open spec fn overlap_ids(cs: Seq<Collider>, i: int, k: int) -> Seq<u64>
    decreases k,
{
    if k <= 0 {
        seq![]
    } else if pair_hit(cs, i, k - 1) {
        overlap_ids(cs, i, k - 1).push(cs[k - 1].id)
    } else {
        overlap_ids(cs, i, k - 1)
    }
}

pub open spec fn colliders_wf(cs: Seq<Collider>) -> bool {
    forall|i: int|
        0 <= i < cs.len() ==> {
            &&& (#[trigger] cs[i]).position.in_world()
            &&& cs[i].overlaps.width >= 0
            &&& cs[i].overlaps.height >= 0
        }
}

/// Whether two entities overlap, by the smaller of their two extents on each axis.
pub fn is_overlapping(a: &Collider, b: &Collider) -> (r: bool)
    requires
        a.position.in_world(),
        b.position.in_world(),
        a.overlaps.width >= 0,
        b.overlaps.width >= 0,
        a.overlaps.height >= 0,
        b.overlaps.height >= 0,
    ensures
        r == spec_is_overlapping(*a, *b),
{
    let w = if a.overlaps.width < b.overlaps.width {
        a.overlaps.width
    } else {
        b.overlaps.width
    };
    let h = if a.overlaps.height < b.overlaps.height {
        a.overlaps.height
    } else {
        b.overlaps.height
    };
    is_range_overlapping(a.position.x, b.position.x, w).0 && is_range_overlapping(a.position.y, b.position.y, h).0
}

/// Rebuilds every overlap list: entity `i`'s list holds, in order, the ids of
/// the entities it overlaps this tick.
pub fn build_overlaps(colliders: &mut Vec<Collider>)
    requires
        colliders_wf(old(colliders)@),
    ensures
        final(colliders)@.len() == old(colliders)@.len(),
        forall|i: int|
            0 <= i < old(colliders)@.len() ==> {
                &&& (#[trigger] final(colliders)@[i]).id == old(colliders)@[i].id
                &&& final(colliders)@[i].position == old(colliders)@[i].position
                &&& final(colliders)@[i].overlaps.width == old(colliders)@[i].overlaps.width
                &&& final(colliders)@[i].overlaps.height == old(colliders)@[i].overlaps.height
                &&& final(colliders)@[i].overlaps.is_active == old(colliders)@[i].overlaps.is_active
                &&& final(colliders)@[i].overlaps.entities@ == overlap_ids(
                    old(colliders)@,
                    i,
                    old(colliders)@.len() as int,
                )
            },
{
    let ghost cs = colliders@;
    let n = colliders.len();
    let mut lists: Vec<Vec<u64>> = Vec::new();
    let mut i: usize = 0;
    while i < n
        invariant
            n == cs.len(),
            colliders@ == cs,
            colliders_wf(cs),
            i <= n,
            lists@.len() == i,
            forall|a: int| 0 <= a < i ==> (#[trigger] lists@[a])@ == overlap_ids(cs, a, n as int),
        decreases n - i,
    {
        let mut ids: Vec<u64> = Vec::new();
        let mut j: usize = 0;
        while j < n
            invariant
                n == cs.len(),
                colliders@ == cs,
                colliders_wf(cs),
                i < n,
                j <= n,
                ids@ == overlap_ids(cs, i as int, j as int),
            decreases n - j,
        {
            let a = &colliders[i];
            let b = &colliders[j];
            if j != i && a.overlaps.is_active && b.overlaps.is_active && is_overlapping(a, b) {
                ids.push(b.id);
            }
            j += 1;
        }
        lists.push(ids);
        i += 1;
    }
    let mut k: usize = 0;
    while k < n
        invariant
            n == cs.len(),
            colliders@.len() == n,
            lists@.len() == n,
            k <= n,
            forall|a: int| 0 <= a < n ==> (#[trigger] lists@[a])@ == overlap_ids(cs, a, n as int),
            forall|a: int|
                0 <= a < n ==> {
                    &&& (#[trigger] colliders@[a]).id == cs[a].id
                    &&& colliders@[a].position == cs[a].position
                    &&& colliders@[a].overlaps.width == cs[a].overlaps.width
                    &&& colliders@[a].overlaps.height == cs[a].overlaps.height
                    &&& colliders@[a].overlaps.is_active == cs[a].overlaps.is_active
                    &&& a < k ==> colliders@[a].overlaps.entities@ == overlap_ids(cs, a, n as int)
                },
        decreases n - k,
    {
        let mut c = colliders[k].clone();
        c.id = colliders[k].id;
        c.position = colliders[k].position;
        c.overlaps = Overlaps {
            entities: lists[k].clone(),
            width: colliders[k].overlaps.width,
            height: colliders[k].overlaps.height,
            is_active: colliders[k].overlaps.is_active,
        };
        colliders.set(k, c);
        k += 1;
    }
}

proof fn lemma_overlap_ids_contains(cs: Seq<Collider>, i: int, k: int, id: u64)
    requires
        0 <= k <= cs.len(),
    ensures
        overlap_ids(cs, i, k).contains(id) <==> exists|j: int| 0 <= j < k && pair_hit(cs, i, j) && cs[j].id == id,
    decreases k,
{
    if k > 0 {
        lemma_overlap_ids_contains(cs, i, k - 1, id);
        let prev = overlap_ids(cs, i, k - 1);
        if pair_hit(cs, i, k - 1) {
            let cur = prev.push(cs[k - 1].id);
            if cur.contains(id) && !prev.contains(id) {
                assert(cs[k - 1].id == id) by {
                    let m = choose|m: int| 0 <= m < cur.len() && cur[m] == id;
                    if m < prev.len() {
                        assert(prev[m] == id);
                    }
                }
            }
            if prev.contains(id) {
                let m = choose|m: int| 0 <= m < prev.len() && prev[m] == id;
                assert(cur[m] == id);
            }
            if cs[k - 1].id == id {
                assert(cur[prev.len() as int] == id);
            }
        }
    }
}

/// Overlap is mutual: with distinct ids, entity `a` lists `b` exactly when
/// `b` lists `a`.
pub proof fn lemma_overlap_symmetric(cs: Seq<Collider>, a: int, b: int)
    requires
        0 <= a < cs.len(),
        0 <= b < cs.len(),
        forall|x: int, y: int| 0 <= x < cs.len() && 0 <= y < cs.len() && x != y ==> cs[x].id != cs[y].id,
    ensures
        overlap_ids(cs, a, cs.len() as int).contains(cs[b].id) <==> overlap_ids(cs, b, cs.len() as int).contains(
            cs[a].id,
        ),
{
    lemma_overlap_ids_contains(cs, a, cs.len() as int, cs[b].id);
    lemma_overlap_ids_contains(cs, b, cs.len() as int, cs[a].id);
    if overlap_ids(cs, a, cs.len() as int).contains(cs[b].id) {
        let j = choose|j: int| 0 <= j < cs.len() && pair_hit(cs, a, j) && cs[j].id == cs[b].id;
        assert(j == b);
        assert(pair_hit(cs, b, a));
    }
    if overlap_ids(cs, b, cs.len() as int).contains(cs[a].id) {
        let j = choose|j: int| 0 <= j < cs.len() && pair_hit(cs, b, j) && cs[j].id == cs[a].id;
        assert(j == a);
        assert(pair_hit(cs, a, b));
    }
}

} // verus!
