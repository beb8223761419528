//! The id bookkeeping of a physics world: which bodies exist, which collider
//! belongs to which body, and the counters that hand out new ids. Removing a
//! body removes the colliders attached to it.

use vstd::prelude::*;
use std::collections::{HashMap, HashSet};
use crate::physics::{BodyId, ColliderId, IdCounters, next_counter};

verus! {

broadcast use vstd::std_specs::hash::group_hash_axioms;

/// The bodies and colliders of a physics world, by id: the set of body ids,
/// and each collider id with the id of its body.
pub struct PhysicsWorldIds {
    counters: IdCounters,
    bodies: HashSet<u64>,
    colliders: HashMap<u64, u64>,
}

/// The colliders of `m` that are not attached to `body`.
pub open spec fn colliders_without_body(m: Map<ColliderId, BodyId>, body: BodyId) -> Map<ColliderId, BodyId> {
    Map::new(|c: ColliderId| m.dom().contains(c) && m[c] != body, |c: ColliderId| m[c])
}

impl PhysicsWorldIds {
    /// The bodies that exist.
    pub closed spec fn body_set(&self) -> Set<BodyId> {
        Set::new(|b: BodyId| self.bodies@.contains(b.0))
    }

    /// Each collider and the body it is attached to.
    pub closed spec fn collider_map(&self) -> Map<ColliderId, BodyId> {
        Map::new(|c: ColliderId| self.colliders@.contains_key(c.0), |c: ColliderId| BodyId(self.colliders@[c.0]))
    }

    /// The id counters.
    pub closed spec fn counters_view(&self) -> IdCounters {
        self.counters
    }

    /// No bodies or colliders; both counters at one.
    pub fn new() -> (r: Self)
        ensures
            r.body_set() == Set::<BodyId>::empty(),
            r.collider_map() == Map::<ColliderId, BodyId>::empty(),
            r.counters_view().next_body_id == 1,
            r.counters_view().next_collider_id == 1,
    {
        let r = PhysicsWorldIds {
            counters: IdCounters { next_body_id: 1, next_collider_id: 1 },
            bodies: HashSet::new(),
            colliders: HashMap::new(),
        };
        assert(r.body_set() =~= Set::<BodyId>::empty());
        assert(r.collider_map() =~= Map::<ColliderId, BodyId>::empty());
        r
    }

    /// Whether a body with this id exists.
    pub fn contains_body(&self, id: BodyId) -> (r: bool)
        ensures
            r == self.body_set().contains(id),
    {
        self.bodies.contains(&id.0)
    }

    /// Whether a collider with this id exists.
    pub fn contains_collider(&self, id: ColliderId) -> (r: bool)
        ensures
            r == self.collider_map().dom().contains(id),
    {
        self.colliders.contains_key(&id.0)
    }

    /// The body a collider is attached to, if the collider exists.
    pub fn collider_body(&self, id: ColliderId) -> (r: Option<BodyId>)
        ensures
            match r {
                Some(b) => self.collider_map().dom().contains(id) && self.collider_map()[id] == b,
                None => !self.collider_map().dom().contains(id),
            },
    {
        match self.colliders.get(&id.0) {
            Some(b) => Some(BodyId(*b)),
            None => None,
        }
    }

    /// Creates a body with the next body id and returns that id.
    pub fn create_body(&mut self) -> (r: BodyId)
        ensures
            r.0 == old(self).counters_view().next_body_id,
            final(self).counters_view().next_body_id == next_counter(old(self).counters_view().next_body_id),
            final(self).counters_view().next_collider_id == old(self).counters_view().next_collider_id,
            final(self).body_set() == old(self).body_set().insert(r),
            final(self).collider_map() == old(self).collider_map(),
    {
        let mut counters = self.counters;
        let id = counters.allocate_body();
        self.counters = counters;
        self.bodies.insert(id.0);
        assert(self.body_set() =~= old(self).body_set().insert(id));
        assert(self.collider_map() =~= old(self).collider_map());
        id
    }

    /// Creates a collider with the next collider id, attached to `body_id`, and
    /// returns that id.
    pub fn create_collider(&mut self, body_id: BodyId) -> (r: ColliderId)
        ensures
            r.0 == old(self).counters_view().next_collider_id,
            final(self).counters_view().next_collider_id == next_counter(old(self).counters_view().next_collider_id),
            final(self).counters_view().next_body_id == old(self).counters_view().next_body_id,
            final(self).collider_map() == old(self).collider_map().insert(r, body_id),
            final(self).body_set() == old(self).body_set(),
    {
        let mut counters = self.counters;
        let id = counters.allocate_collider();
        self.counters = counters;
        self.colliders.insert(id.0, body_id.0);
        assert(self.collider_map() =~= old(self).collider_map().insert(id, body_id));
        assert(self.body_set() =~= old(self).body_set());
        id
    }

    /// Removes a collider; nothing changes when it does not exist.
    pub fn remove_collider(&mut self, id: ColliderId)
        ensures
            final(self).collider_map() == old(self).collider_map().remove(id),
            final(self).body_set() == old(self).body_set(),
            final(self).counters_view() == old(self).counters_view(),
    {
        self.colliders.remove(&id.0);
        assert(self.collider_map() =~= old(self).collider_map().remove(id));
        assert(self.body_set() =~= old(self).body_set());
    }

    /// Removes a body and every collider attached to it; nothing changes for an
    /// id that has neither.
    pub fn remove_body(&mut self, id: BodyId)
        ensures
            final(self).body_set() == old(self).body_set().remove(id),
            final(self).collider_map() == colliders_without_body(old(self).collider_map(), id),
            final(self).counters_view() == old(self).counters_view(),
    {
        self.bodies.remove(&id.0);
        assert(self.body_set() =~= old(self).body_set().remove(id));
        let ghost bodies_after = self.bodies@;
        let ghost start = self.colliders@;
        let attached = keys_with_value(&self.colliders, id.0);
        let mut i: usize = 0;
        while i < attached.len()
            invariant
                i <= attached@.len(),
                self.bodies@ == bodies_after,
                self.counters == old(self).counters,
                forall|k: u64| #[trigger] attached@.contains(k) <==> (start.contains_key(k) && start[k] == id.0),
                forall|k: u64| #[trigger] self.colliders@.contains_key(k) <==> (start.contains_key(k) && forall|j: int| 0 <= j < i ==> attached@[j] != k),
                forall|k: u64| #[trigger] self.colliders@.contains_key(k) ==> self.colliders@[k] == start[k],
            decreases attached@.len() - i,
        {
            let k = attached[i];
            self.colliders.remove(&k);
            i = i + 1;
        }
        proof {
            assert forall|c: u64| #[trigger] self.colliders@.contains_key(c) <==> (start.contains_key(c) && start[c] != id.0) by {
                if start.contains_key(c) && start[c] == id.0 {
                    assert(attached@.contains(c));
                    let j = choose|j: int| 0 <= j < attached@.len() && attached@[j] == c;
                }
                if start.contains_key(c) && start[c] != id.0 {
                    assert forall|j: int| 0 <= j < attached@.len() implies attached@[j] != c by {
                        assert(attached@.contains(attached@[j]));
                    }
                }
            }
            assert(self.body_set() =~= old(self).body_set().remove(id));
            assert(self.collider_map() =~= colliders_without_body(old(self).collider_map(), id)) by {
                assert forall|c: ColliderId| #[trigger] self.collider_map().dom().contains(c)
                    == colliders_without_body(old(self).collider_map(), id).dom().contains(c) by {
                    if start.contains_key(c.0) {
                        assert(old(self).collider_map()[c] == BodyId(start[c.0]));
                        assert((BodyId(start[c.0]) != id) == (start[c.0] != id.0));
                    }
                }
            }
        }
    }
}

/// The keys of `m` that map to `v`.
fn keys_with_value(m: &HashMap<u64, u64>, v: u64) -> (r: Vec<u64>)
    ensures
        forall|k: u64| #[trigger] r@.contains(k) <==> (m@.contains_key(k) && m@[k] == v),
{
    let mut out: Vec<u64> = Vec::new();
    for k in it: m.keys()
        invariant
            forall|x: u64| #[trigger] out@.contains(x) ==> (m@.contains_key(x) && m@[x] == v),
            forall|i: int| 0 <= i < it.index() && m@[*it.seq()[i]] == v ==> out@.contains(*it.seq()[i]),
    {
        proof {
            assert(it.seq().unref().to_set() == m@.dom());
            assert(*k == *it.seq()[it.index() as int]);
        }
        let ghost before = out@;
        match m.get(k) {
            Some(w) => {
                assert(m@.contains_key(*k) && m@[*k] == *w);
                if *w == v {
                    out.push(*k);
                    proof {
                        assert forall|x: u64| #[trigger] out@.contains(x) implies (m@.contains_key(x) && m@[x] == v) by {
                            let j = choose|j: int| 0 <= j < out@.len() && out@[j] == x;
                            if j < before.len() {
                                assert(before[j] == x);
                                assert(before.contains(x));
                            }
                        }
                        assert forall|i: int| 0 <= i < it.index() + 1 && m@[*it.seq()[i]] == v implies out@.contains(*it.seq()[i]) by {
                            if i < it.index() {
                                assert(before.contains(*it.seq()[i]));
                                let j = choose|j: int| 0 <= j < before.len() && before[j] == *it.seq()[i];
                                assert(out@[j] == before[j]);
                            } else {
                                assert(out@[before.len() as int] == *k);
                            }
                        }
                    }
                }
            },
            None => {
                assert(!m@.contains_key(*k));
            },
        }
    }
    proof {
        assert forall|k: u64| m@.contains_key(k) && m@[k] == v implies #[trigger] out@.contains(k) by {
            assert(m@.dom().contains(k));
        }
    }
    out
}

} // verus!
