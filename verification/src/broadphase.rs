//! Broadphase rules: which collider proxies may form a collision candidate
//! pair, how the pair is ordered, how collision layers filter it, and the
//! statistics of the spatial hash grid.

use vstd::prelude::*;
use crate::collision_layer::{layers_collide, CollisionLayers};
use crate::physics::{BodyId, ColliderId};

verus! {

/// What the broadphase knows of a collider proxy besides its bounding box.
#[derive(Clone, Copy, Debug, PartialEq, Eq, Structural)]
pub struct ProxyFlags {
    pub collider_id: ColliderId,
    pub body_id: BodyId,
    pub is_dynamic: bool,
    pub is_sensor: bool,
}

/// Two proxies may collide: they belong to different bodies, and at least one
/// of them is dynamic or a sensor (static pairs never collide).
pub open spec fn may_pair_spec(a: ProxyFlags, b: ProxyFlags) -> bool {
    a.body_id != b.body_id && (a.is_dynamic || b.is_dynamic || a.is_sensor || b.is_sensor)
}

/// The candidate pair of a query proxy and another proxy sharing a grid cell,
/// given whether their bounding boxes overlap: the collider ids, smaller first.
pub open spec fn candidate_pair_spec(query: ProxyFlags, other: ProxyFlags, boxes_overlap: bool) -> Option<
    (ColliderId, ColliderId),
> {
    if may_pair_spec(query, other) && boxes_overlap {
        if query.collider_id.0 <= other.collider_id.0 {
            Some((query.collider_id, other.collider_id))
        } else {
            Some((other.collider_id, query.collider_id))
        }
    } else {
        None
    }
}

/// Whether two proxies may collide.
pub fn may_pair(a: &ProxyFlags, b: &ProxyFlags) -> (r: bool)
    ensures
        r == may_pair_spec(*a, *b),
{
    if a.body_id.0 == b.body_id.0 {
        return false;
    }
    a.is_dynamic || b.is_dynamic || a.is_sensor || b.is_sensor
}

/// The candidate pair of a query proxy and another proxy of a shared cell.
pub fn candidate_pair(query: &ProxyFlags, other: &ProxyFlags, boxes_overlap: bool) -> (r: Option<(ColliderId, ColliderId)>)
    ensures
        r == candidate_pair_spec(*query, *other, boxes_overlap),
{
    if !may_pair(query, other) || !boxes_overlap {
        return None;
    }
    if query.collider_id.0 <= other.collider_id.0 {
        Some((query.collider_id, other.collider_id))
    } else {
        Some((other.collider_id, query.collider_id))
    }
}

/// Which proxy queries does not matter: both orders give the same candidate,
/// and a candidate always lists the smaller collider id first.
pub proof fn lemma_candidate_pair_symmetric(a: ProxyFlags, b: ProxyFlags, boxes_overlap: bool)
    ensures
        candidate_pair_spec(a, b, boxes_overlap) == candidate_pair_spec(b, a, boxes_overlap),
        candidate_pair_spec(a, b, boxes_overlap) matches Some(p) ==> p.0.0 <= p.1.0,
{
    if a.collider_id.0 == b.collider_id.0 {
        assert(a.collider_id == b.collider_id);
    }
}

/// Two proxies of the same body, or two static non-sensor proxies, never form a candidate.
pub proof fn lemma_no_self_or_static_pairs(a: ProxyFlags, b: ProxyFlags, boxes_overlap: bool)
    requires
        a.body_id == b.body_id || (!a.is_dynamic && !b.is_dynamic && !a.is_sensor && !b.is_sensor),
    ensures
        candidate_pair_spec(a, b, boxes_overlap) is None,
{
}

/// The grid cells a proxy's bounding box covers: every cell `(x, y, z)` with
/// each coordinate between the minimum and maximum cell (inclusive).
#[derive(Clone, Copy, Debug, PartialEq, Eq, Structural)]
pub struct CellRange {
    pub min_x: i32,
    pub min_y: i32,
    pub min_z: i32,
    pub max_x: i32,
    pub max_y: i32,
    pub max_z: i32,
}

/// A proxy as the grid holds it: its flags and the cells it covers.
#[derive(Clone, Copy, Debug, PartialEq, Eq, Structural)]
pub struct GridProxy {
    pub flags: ProxyFlags,
    pub cells: CellRange,
}

/// Cell `(x, y, z)` holds every proxy whose range covers it.
pub open spec fn range_holds(r: CellRange, x: int, y: int, z: int) -> bool {
    r.min_x <= x <= r.max_x && r.min_y <= y <= r.max_y && r.min_z <= z <= r.max_z
}

/// Some cell holds both proxies.
pub open spec fn ranges_share_cell_spec(a: CellRange, b: CellRange) -> bool {
    exists|x: int, y: int, z: int| #[trigger] range_holds(a, x, y, z) && range_holds(b, x, y, z)
}

/// A proxy that queries the grid: a dynamic or a sensor one.
pub open spec fn is_query_proxy(f: ProxyFlags) -> bool {
    f.is_dynamic || f.is_sensor
}

/// The grid walk tests proxy `j` for query proxy `i`: `i` queries, the two
/// share a cell, and they may pair.
pub open spec fn grid_tests_pair(proxies: Seq<GridProxy>, i: int, j: int) -> bool {
    &&& 0 <= i < proxies.len()
    &&& 0 <= j < proxies.len()
    &&& is_query_proxy(proxies[i].flags)
    &&& ranges_share_cell_spec(proxies[i].cells, proxies[j].cells)
    &&& may_pair_spec(proxies[i].flags, proxies[j].flags)
}

/// Whether some grid cell holds both proxies.
pub fn ranges_share_cell(a: &CellRange, b: &CellRange) -> (r: bool)
    ensures
        r == ranges_share_cell_spec(*a, *b),
{
    let lo_x = if a.min_x >= b.min_x { a.min_x } else { b.min_x };
    let lo_y = if a.min_y >= b.min_y { a.min_y } else { b.min_y };
    let lo_z = if a.min_z >= b.min_z { a.min_z } else { b.min_z };
    let hi_x = if a.max_x <= b.max_x { a.max_x } else { b.max_x };
    let hi_y = if a.max_y <= b.max_y { a.max_y } else { b.max_y };
    let hi_z = if a.max_z <= b.max_z { a.max_z } else { b.max_z };
    let r = lo_x <= hi_x && lo_y <= hi_y && lo_z <= hi_z;
    proof {
        if r {
            assert(range_holds(*a, lo_x as int, lo_y as int, lo_z as int));
            assert(range_holds(*b, lo_x as int, lo_y as int, lo_z as int));
        }
    }
    r
}

/// The proxy pairs the grid walk tests, as (query index, other index), each
/// once: for every dynamic or sensor proxy, the proxies that share one of its
/// cells and may pair with it. Whether their bounding boxes overlap is decided
/// on each pair afterwards (see `candidate_pair`).
pub fn grid_tested_pairs(proxies: &[GridProxy]) -> (r: Vec<(usize, usize)>)
    ensures
        r@.no_duplicates(),
        forall|i: usize, j: usize| #[trigger] r@.contains((i, j)) <==> grid_tests_pair(proxies@, i as int, j as int),
{
    let n = proxies.len();
    let mut out: Vec<(usize, usize)> = Vec::new();
    let mut i: usize = 0;
    while i < n
        invariant
            n == proxies@.len(),
            i <= n,
            forall|k: int| 0 <= k < out@.len() ==> (#[trigger] out@[k]).0 < i,
            out@.no_duplicates(),
            forall|a: usize, b: usize| #[trigger] out@.contains((a, b)) <==> (a < i && grid_tests_pair(proxies@, a as int, b as int)),
        decreases n - i,
    {
        let query = proxies[i];
        if query.flags.is_dynamic || query.flags.is_sensor {
            let ghost start = out@;
            let mut j: usize = 0;
            while j < n
                invariant
                    n == proxies@.len(),
                    i < n,
                    j <= n,
                    query == proxies@[i as int],
                    is_query_proxy(query.flags),
                    start.len() <= out@.len(),
                    forall|k: int| 0 <= k < start.len() ==> #[trigger] out@[k] == start[k],
                    forall|k: int| 0 <= k < start.len() ==> (#[trigger] start[k]).0 < i,
                    forall|k: int| start.len() <= k < out@.len() ==> (#[trigger] out@[k]).0 == i && out@[k].1 < j,
                    out@.no_duplicates(),
                    forall|a: usize, b: usize| #[trigger] out@.contains((a, b)) <==> ((a < i && grid_tests_pair(proxies@, a as int, b as int))
                        || (a == i && b < j && grid_tests_pair(proxies@, a as int, b as int))),
                decreases n - j,
            {
                let other = proxies[j];
                if ranges_share_cell(&query.cells, &other.cells) && may_pair(&query.flags, &other.flags) {
                    let ghost before = out@;
                    out.push((i, j));
                    proof {
                        assert forall|a: int, b: int| 0 <= a < b < out@.len() implies out@[a] != out@[b] by {
                            if b == before.len() {
                                assert(out@[a] == before[a]);
                                if a < start.len() {
                                    assert(before[a] == start[a]);
                                } else {
                                    assert(before[a].1 < j);
                                }
                            } else {
                                assert(out@[a] == before[a] && out@[b] == before[b]);
                            }
                        }
                        assert forall|a: usize, b: usize| #[trigger] out@.contains((a, b)) <==> ((a < i && grid_tests_pair(proxies@, a as int, b as int))
                            || (a == i && b < j + 1 && grid_tests_pair(proxies@, a as int, b as int))) by {
                            if out@.contains((a, b)) {
                                let k = choose|k: int| 0 <= k < out@.len() && out@[k] == (a, b);
                                if k < before.len() {
                                    assert(before[k] == (a, b));
                                    assert(before.contains((a, b)));
                                }
                            }
                            if before.contains((a, b)) {
                                let k = choose|k: int| 0 <= k < before.len() && before[k] == (a, b);
                                assert(out@[k] == (a, b));
                            }
                            if a == i && b == j {
                                assert(out@[before.len() as int] == (a, b));
                            }
                        }
                    }
                } else {
                    proof {
                        assert forall|a: usize, b: usize| #[trigger] out@.contains((a, b)) <==> ((a < i && grid_tests_pair(proxies@, a as int, b as int))
                            || (a == i && b < j + 1 && grid_tests_pair(proxies@, a as int, b as int))) by {
                            if a == i && b == j {
                                if grid_tests_pair(proxies@, a as int, b as int) {
                                    assert(proxies@[j as int] == other);
                                }
                            }
                        }
                    }
                }
                j = j + 1;
            }
            proof {
                assert forall|k: int| 0 <= k < out@.len() implies (#[trigger] out@[k]).0 < i + 1 by {
                    if k < start.len() {
                        assert(out@[k] == start[k]);
                    }
                }
            }
        } else {
            proof {
                assert forall|a: usize, b: usize| #[trigger] out@.contains((a, b)) <==> (a < i + 1 && grid_tests_pair(proxies@, a as int, b as int)) by {
                    if a == i {
                        assert(!is_query_proxy(proxies@[i as int].flags));
                    }
                }
            }
        }
        i = i + 1;
    }
    out
}

fn contains_pair(pairs: &Vec<(ColliderId, ColliderId)>, p: (ColliderId, ColliderId)) -> (r: bool)
    ensures
        r == pairs@.contains(p),
{
    let mut i: usize = 0;
    while i < pairs.len()
        invariant
            i <= pairs@.len(),
            forall|k: int| 0 <= k < i ==> #[trigger] pairs@[k] != p,
        decreases pairs@.len() - i,
    {
        let q = pairs[i];
        if q.0.0 == p.0.0 && q.1.0 == p.1.0 {
            assert(pairs@[i as int] == p);
            return true;
        }
        i = i + 1;
    }
    false
}

/// The candidate pairs found by all queries, each listed once (in the order
/// first found); `None` entries are proxies that formed no candidate.
pub fn unique_candidate_pairs(candidates: &[Option<(ColliderId, ColliderId)>]) -> (r: Vec<(ColliderId, ColliderId)>)
    ensures
        r@.no_duplicates(),
        forall|p: (ColliderId, ColliderId)| #[trigger] r@.contains(p) <==> candidates@.contains(Some(p)),
{
    let mut out: Vec<(ColliderId, ColliderId)> = Vec::new();
    let mut i: usize = 0;
    while i < candidates.len()
        invariant
            i <= candidates@.len(),
            out@.no_duplicates(),
            forall|p: (ColliderId, ColliderId)| #[trigger] out@.contains(p) <==> candidates@.take(i as int).contains(Some(p)),
        decreases candidates@.len() - i,
    {
        let ghost before = out@;
        let ghost prefix = candidates@.take(i as int);
        let ghost next = candidates@.take(i + 1);
        assert(next == prefix.push(candidates@[i as int]));
        assert(forall|q: (ColliderId, ColliderId)| #[trigger] before.contains(q) <==> prefix.contains(Some(q)));
        let mut added: Option<(ColliderId, ColliderId)> = None;
        match candidates[i] {
            Some(p) => {
                if !contains_pair(&out, p) {
                    out.push(p);
                    added = Some(p);
                }
            },
            None => {},
        }
        assert(out@ == match added {
            Some(p) => before.push(p),
            None => before,
        });
        assert(added matches Some(p) ==> candidates@[i as int] == Some(p) && !before.contains(p));
        assert(added is None ==> (candidates@[i as int] is None || before.contains(candidates@[i as int]->0)));
        assert forall|q: (ColliderId, ColliderId)| #[trigger] out@.contains(q) <==> next.contains(Some(q)) by {
            if next.contains(Some(q)) {
                let k = choose|k: int| 0 <= k < next.len() && next[k] == Some(q);
                if k < i {
                    assert(prefix[k] == Some(q));
                    assert(prefix.contains(Some(q)));
                    assert(before.contains(q));
                    let m = choose|m: int| 0 <= m < before.len() && before[m] == q;
                    assert(out@[m] == q);
                } else if added is None {
                    assert(before.contains(q));
                    let m = choose|m: int| 0 <= m < before.len() && before[m] == q;
                    assert(out@[m] == q);
                } else {
                    assert(out@[before.len() as int] == q);
                }
            }
            if out@.contains(q) {
                let m = choose|m: int| 0 <= m < out@.len() && out@[m] == q;
                if m < before.len() {
                    assert(before[m] == q);
                    assert(before.contains(q));
                    assert(prefix.contains(Some(q)));
                    let k = choose|k: int| 0 <= k < prefix.len() && prefix[k] == Some(q);
                    assert(next[k] == Some(q));
                } else {
                    assert(next[i as int] == Some(q));
                }
            }
        }
        proof {
            if added is Some {
                assert forall|a: int, b: int| 0 <= a < b < out@.len() implies out@[a] != out@[b] by {
                    if b == before.len() {
                        assert(out@[a] == before[a]);
                    }
                }
            }
        }
        i = i + 1;
    }
    assert(candidates@.take(candidates@.len() as int) =~= candidates@);
    out
}

/// Layer filtering of a candidate whose colliders' layers may be unknown:
/// only when both are known do they have to accept each other.
pub open spec fn layers_allow_spec(a: Option<CollisionLayers>, b: Option<CollisionLayers>) -> bool {
    match (a, b) {
        (Some(x), Some(y)) => layers_collide(x.group, x.mask, y.group, y.mask),
        _ => true,
    }
}

/// Whether the collision layers of two colliders let them form a candidate.
pub fn layers_allow(a: &Option<CollisionLayers>, b: &Option<CollisionLayers>) -> (r: bool)
    ensures
        r == layers_allow_spec(*a, *b),
{
    match (a, b) {
        (Some(x), Some(y)) => x.can_collide_with(y),
        _ => true,
    }
}

/// Statistics about the spatial hash grid.
#[derive(Clone, Copy, Debug, PartialEq, Eq, Structural)]
pub struct SpatialHashStats {
    pub cell_count: usize,
    pub total_proxy_entries: usize,
    pub max_proxies_per_cell: usize,
    pub dynamic_proxy_count: usize,
}

/// The sum of the counts.
pub open spec fn usize_total(xs: Seq<usize>) -> int
    decreases xs.len(),
{
    if xs.len() == 0 {
        0
    } else {
        usize_total(xs.drop_last()) + xs.last()
    }
}

/// The largest count, zero for none.
pub open spec fn usize_max(xs: Seq<usize>) -> usize
    decreases xs.len(),
{
    if xs.len() == 0 {
        0
    } else if usize_max(xs.drop_last()) >= xs.last() {
        usize_max(xs.drop_last())
    } else {
        xs.last()
    }
}

proof fn lemma_usize_total_monotone(xs: Seq<usize>, i: int)
    requires
        0 <= i <= xs.len(),
    ensures
        usize_total(xs.take(i)) <= usize_total(xs),
    decreases xs.len() - i,
{
    if i < xs.len() {
        assert(xs.take(i + 1).drop_last() =~= xs.take(i));
        lemma_usize_total_monotone(xs, i + 1);
    } else {
        assert(xs.take(i) =~= xs);
    }
}

/// The grid statistics from the number of proxies in each cell (in any order)
/// and the number of dynamic proxies.
pub fn spatial_hash_stats(cell_proxy_counts: &[usize], dynamic_proxy_count: usize) -> (r: SpatialHashStats)
    requires
        usize_total(cell_proxy_counts@) <= usize::MAX,
    ensures
        r.cell_count == cell_proxy_counts@.len(),
        r.total_proxy_entries == usize_total(cell_proxy_counts@),
        r.max_proxies_per_cell == usize_max(cell_proxy_counts@),
        r.dynamic_proxy_count == dynamic_proxy_count,
{
    let ghost xs = cell_proxy_counts@;
    let mut total: usize = 0;
    let mut max: usize = 0;
    let mut i: usize = 0;
    assert(xs.take(0) =~= Seq::<usize>::empty());
    while i < cell_proxy_counts.len()
        invariant
            i <= xs.len(),
            xs == cell_proxy_counts@,
            usize_total(xs) <= usize::MAX,
            total == usize_total(xs.take(i as int)),
            max == usize_max(xs.take(i as int)),
        decreases xs.len() - i,
    {
        assert(xs.take(i + 1).drop_last() =~= xs.take(i as int));
        proof {
            lemma_usize_total_monotone(xs, i + 1);
        }
        let count = cell_proxy_counts[i];
        total = total + count;
        if count > max {
            max = count;
        }
        i = i + 1;
    }
    assert(xs.take(xs.len() as int) =~= xs);
    SpatialHashStats {
        cell_count: cell_proxy_counts.len(),
        total_proxy_entries: total,
        max_proxies_per_cell: max,
        dynamic_proxy_count,
    }
}

} // verus!
