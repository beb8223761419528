//! Physics identifiers and contact bookkeeping: body/collider ids and their
//! counters, contact ids derived from feature pairs, order-independent
//! manifold keys, and warm-start matching of contacts by id.

use vstd::prelude::*;

verus! {

/// Identifier of a rigid body in the physics world.
#[derive(Clone, Copy, Debug, PartialEq, Eq, Hash, Structural)]
pub struct BodyId(pub u64);

/// Identifier of a collider in the physics world.
#[derive(Clone, Copy, Debug, PartialEq, Eq, Hash, Structural)]
pub struct ColliderId(pub u64);

/// How a rigid body is simulated.
#[derive(Clone, Copy, Debug, PartialEq, Eq, Structural)]
pub enum RigidBodyType {
    Dynamic,
    Static,
    KinematicPositionBased,
    KinematicVelocityBased,
}

/// Unique identifier for a contact point, used for warm start matching.
/// Derived from the feature pair (face/edge indices) that generated this contact.
#[derive(Clone, Copy, Debug, PartialEq, Eq, Hash, Structural)]
pub struct ContactId(pub u32);

/// The contact id of an unordered feature pair: the smaller feature in the high
/// half-word, the larger in the low half-word.
pub open spec fn contact_id_value(feature_a: u16, feature_b: u16) -> int {
    if feature_a <= feature_b {
        (feature_a as u32) * 0x10000 + feature_b as u32
    } else {
        (feature_b as u32) * 0x10000 + feature_a as u32
    }
}

impl ContactId {
    /// Create a contact ID from two feature IDs.
    /// The ordering ensures the same pair always produces the same ID.
    pub fn from_features(feature_a: u16, feature_b: u16) -> (r: Self)
        ensures
            r.0 == contact_id_value(feature_a, feature_b),
    {
        let (lo, hi) = if feature_a <= feature_b {
            (feature_a, feature_b)
        } else {
            (feature_b, feature_a)
        };
        let r = ((lo as u32) << 16u32) | hi as u32;
        assert(((lo as u32) << 16u32) | (hi as u32) == (lo as u32) * 0x10000 + hi as u32) by (bit_vector);
        ContactId(r)
    }
}

/// The feature order does not matter: both orders give the same contact id.
pub proof fn lemma_contact_id_order_independent(a: u16, b: u16)
    ensures
        contact_id_value(a, b) == contact_id_value(b, a),
{
}

/// Distinct unordered feature pairs give distinct contact ids.
pub proof fn lemma_contact_id_injective(a: u16, b: u16, c: u16, d: u16)
    requires
        contact_id_value(a, b) == contact_id_value(c, d),
    ensures
        (a == c && b == d) || (a == d && b == c),
{
}

/// Key for identifying a contact manifold between two colliders.
#[derive(Clone, Copy, Debug, PartialEq, Eq, Hash, Structural)]
pub struct ManifoldKey {
    pub collider_a: ColliderId,
    pub collider_b: ColliderId,
}

/// The ordered collider pair: smaller id first.
pub open spec fn ordered_pair(a: ColliderId, b: ColliderId) -> (ColliderId, ColliderId) {
    if a.0 <= b.0 {
        (a, b)
    } else {
        (b, a)
    }
}

impl ManifoldKey {
    /// Creates a key with the collider ids in ascending order.
    pub fn new(collider_a: ColliderId, collider_b: ColliderId) -> (r: Self)
        ensures
            (r.collider_a, r.collider_b) == ordered_pair(collider_a, collider_b),
    {
        if collider_a.0 <= collider_b.0 {
            ManifoldKey { collider_a, collider_b }
        } else {
            ManifoldKey { collider_a: collider_b, collider_b: collider_a }
        }
    }
}

/// A manifold key does not depend on the order of its colliders, and it is
/// always stored in ascending order.
pub proof fn lemma_manifold_key_order_independent(a: ColliderId, b: ColliderId)
    ensures
        ordered_pair(a, b) == ordered_pair(b, a),
        ordered_pair(a, b).0.0 <= ordered_pair(a, b).1.0,
{
}

/// The id counters of a physics world: the next body id and the next collider
/// id, both starting at one and saturating at the maximum.
#[derive(Clone, Copy, Debug, PartialEq, Eq, Structural)]
pub struct IdCounters {
    pub next_body_id: u64,
    pub next_collider_id: u64,
}

impl Default for IdCounters {
    /// Both counters at one.
    fn default() -> (r: Self)
        ensures
            r.next_body_id == 1,
            r.next_collider_id == 1,
    {
        IdCounters { next_body_id: 1, next_collider_id: 1 }
    }
}

/// The counter after handing out `n`: one more, or the maximum once reached.
pub open spec fn next_counter(n: u64) -> u64 {
    if n == u64::MAX {
        u64::MAX
    } else {
        (n + 1) as u64
    }
}

impl IdCounters {
    /// Hands out the next body id.
    pub fn allocate_body(&mut self) -> (r: BodyId)
        ensures
            r.0 == old(self).next_body_id,
            final(self).next_body_id == next_counter(old(self).next_body_id),
            final(self).next_collider_id == old(self).next_collider_id,
    {
        let id = BodyId(self.next_body_id);
        self.next_body_id = self.next_body_id.saturating_add(1);
        id
    }

    /// Hands out the next collider id.
    pub fn allocate_collider(&mut self) -> (r: ColliderId)
        ensures
            r.0 == old(self).next_collider_id,
            final(self).next_collider_id == next_counter(old(self).next_collider_id),
            final(self).next_body_id == old(self).next_body_id,
    {
        let id = ColliderId(self.next_collider_id);
        self.next_collider_id = self.next_collider_id.saturating_add(1);
        id
    }
}

/// From counter value `n`, `k` allocations leave the counter at `n + k` when
/// that does not pass the maximum, so the ids handed out meanwhile all differ.
pub proof fn lemma_counter_advances(n: u64, k: nat)
    requires
        n + k <= u64::MAX,
    ensures
        iterate_counter(n, k) == n + k,
        forall|i: nat, j: nat| i < j <= k ==> iterate_counter(n, i) != iterate_counter(n, j),
{
    lemma_counter_value(n, k);
    assert forall|i: nat, j: nat| i < j <= k implies iterate_counter(n, i) != iterate_counter(n, j) by {
        lemma_counter_value(n, i);
        lemma_counter_value(n, j);
    }
}

proof fn lemma_counter_value(n: u64, k: nat)
    requires
        n + k <= u64::MAX,
    ensures
        iterate_counter(n, k) == n + k,
    decreases k,
{
    if k > 0 {
        lemma_counter_value(n, (k - 1) as nat);
    }
}

/// The counter after `k` allocations starting from `n`.
pub open spec fn iterate_counter(n: u64, k: nat) -> u64
    decreases k,
{
    if k == 0 {
        n
    } else {
        next_counter(iterate_counter(n, (k - 1) as nat))
    }
}

/// `m` is the position of the first contact of `previous` with id `id`, or
/// `None` when no contact there has it.
pub open spec fn is_first_match(previous: Seq<ContactId>, id: ContactId, m: Option<usize>) -> bool {
    match m {
        Some(j) => j < previous.len() && previous[j as int] == id && forall|k: int|
            0 <= k < j ==> #[trigger] previous[k] != id,
        None => forall|k: int| 0 <= k < previous.len() ==> #[trigger] previous[k] != id,
    }
}

/// Warm-start matching of a manifold's contacts against the previous frame's:
/// for each current contact id, the position of the first previous contact
/// with the same id, whose cached impulses it takes over.
pub fn warm_start_matches(current: &[ContactId], previous: &[ContactId]) -> (r: Vec<Option<usize>>)
    ensures
        r@.len() == current@.len(),
        forall|i: int| 0 <= i < current@.len() ==> is_first_match(previous@, current@[i], #[trigger] r@[i]),
{
    let mut out: Vec<Option<usize>> = Vec::new();
    let mut i: usize = 0;
    while i < current.len()
        invariant
            i <= current@.len(),
            out@.len() == i,
            forall|t: int| 0 <= t < i ==> is_first_match(previous@, current@[t], #[trigger] out@[t]),
        decreases current@.len() - i,
    {
        let id = current[i];
        let mut j: usize = 0;
        let mut found: Option<usize> = None;
        while j < previous.len()
            invariant_except_break
                j <= previous@.len(),
                found is None,
                forall|k: int| 0 <= k < j ==> #[trigger] previous@[k] != id,
            ensures
                is_first_match(previous@, id, found),
            decreases previous@.len() - j,
        {
            if previous[j].0 == id.0 {
                found = Some(j);
                break;
            }
            j = j + 1;
        }
        out.push(found);
        i = i + 1;
    }
    out
}

fn holds_body(live: &[Option<BodyId>], id: BodyId) -> (r: bool)
    ensures
        r == live@.contains(Some(id)),
{
    let mut i: usize = 0;
    while i < live.len()
        invariant
            i <= live@.len(),
            forall|k: int| 0 <= k < i ==> #[trigger] live@[k] != Some(id),
        decreases live@.len() - i,
    {
        match live[i] {
            Some(other) => {
                if other.0 == id.0 {
                    assert(live@[i as int] == Some(id));
                    return true;
                }
            },
            None => {},
        }
        i = i + 1;
    }
    false
}

fn holds_collider(live: &[Option<ColliderId>], id: ColliderId) -> (r: bool)
    ensures
        r == live@.contains(Some(id)),
{
    let mut i: usize = 0;
    while i < live.len()
        invariant
            i <= live@.len(),
            forall|k: int| 0 <= k < i ==> #[trigger] live@[k] != Some(id),
        decreases live@.len() - i,
    {
        match live[i] {
            Some(other) => {
                if other.0 == id.0 {
                    assert(live@[i as int] == Some(id));
                    return true;
                }
            },
            None => {},
        }
        i = i + 1;
    }
    false
}

/// The bodies of the world that no live rigid-body component holds (`live`
/// lists each component's handle, if any), in the world's order: the bodies
/// that pruning removes.
pub fn orphan_bodies(world: &[BodyId], live: &[Option<BodyId>]) -> (r: Vec<BodyId>)
    ensures
        r@ == world@.filter(|id: BodyId| !live@.contains(Some(id))),
{
    let ghost pred = |id: BodyId| !live@.contains(Some(id));
    let mut out: Vec<BodyId> = Vec::new();
    let mut i: usize = 0;
    proof {
        reveal(Seq::filter);
        assert(world@.take(0) =~= Seq::<BodyId>::empty());
    }
    while i < world.len()
        invariant
            i <= world@.len(),
            pred == (|id: BodyId| !live@.contains(Some(id))),
            out@ == world@.take(i as int).filter(pred),
        decreases world@.len() - i,
    {
        proof {
            reveal(Seq::filter);
            assert(world@.take(i + 1).drop_last() =~= world@.take(i as int));
            assert(world@.take(i + 1).last() == world@[i as int]);
        }
        let id = world[i];
        if !holds_body(live, id) {
            out.push(id);
        }
        i = i + 1;
    }
    assert(world@.take(world@.len() as int) =~= world@);
    out
}

/// The colliders of the world that no live collider component holds, in the
/// world's order: the colliders that pruning removes.
pub fn orphan_colliders(world: &[ColliderId], live: &[Option<ColliderId>]) -> (r: Vec<ColliderId>)
    ensures
        r@ == world@.filter(|id: ColliderId| !live@.contains(Some(id))),
{
    let ghost pred = |id: ColliderId| !live@.contains(Some(id));
    let mut out: Vec<ColliderId> = Vec::new();
    let mut i: usize = 0;
    proof {
        reveal(Seq::filter);
        assert(world@.take(0) =~= Seq::<ColliderId>::empty());
    }
    while i < world.len()
        invariant
            i <= world@.len(),
            pred == (|id: ColliderId| !live@.contains(Some(id))),
            out@ == world@.take(i as int).filter(pred),
        decreases world@.len() - i,
    {
        proof {
            reveal(Seq::filter);
            assert(world@.take(i + 1).drop_last() =~= world@.take(i as int));
            assert(world@.take(i + 1).last() == world@[i as int]);
        }
        let id = world[i];
        if !holds_collider(live, id) {
            out.push(id);
        }
        i = i + 1;
    }
    assert(world@.take(world@.len() as int) =~= world@);
    out
}

/// Pruning removes exactly the orphans: a body of the world is pruned if and
/// only if no live component holds it, and nothing outside the world is.
pub proof fn lemma_prune_removes_exactly_orphans(world: Seq<BodyId>, live: Seq<Option<BodyId>>, id: BodyId)
    ensures
        world.filter(|b: BodyId| !live.contains(Some(b))).contains(id) <==> (world.contains(id) && !live.contains(
            Some(id),
        )),
{
    let pred = |b: BodyId| !live.contains(Some(b));
    if world.contains(id) && !live.contains(Some(id)) {
        let i = choose|i: int| 0 <= i < world.len() && world[i] == id;
        world.lemma_filter_contains(pred, i);
    }
    if world.filter(pred).contains(id) {
        world.lemma_filter_contains_rev(pred, id);
        let k = choose|k: int| 0 <= k < world.filter(pred).len() && world.filter(pred)[k] == id;
        world.lemma_filter_pred(pred, k);
    }
}

} // verus!
