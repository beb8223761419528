//! Collision events for gameplay logic: collisions that start, persist and end.
//!
//! The contact payload type `C` is supplied by the caller (the simulation's
//! floating-point contact data); the bookkeeping here only moves it along.

use vstd::prelude::*;
use crate::assoc::{assoc_map, keys_unique, lemma_assoc_dom, lemma_assoc_update, lemma_push_fresh_unique};
use crate::physics::{BodyId, ColliderId, ManifoldKey, ordered_pair};

verus! {

/// A collider pair (smaller id first) with the bodies that own it.
pub type ActiveEntry = ((ColliderId, ColliderId), (BodyId, BodyId));

/// Types of collision events.
#[derive(Clone, Debug)]
pub enum CollisionEvent<C> {
    /// Collision just started this frame.
    Started {
        body_a: BodyId,
        body_b: BodyId,
        collider_a: ColliderId,
        collider_b: ColliderId,
        contacts: Vec<C>,
    },
    /// Collision persisted from previous frame.
    Persisted {
        body_a: BodyId,
        body_b: BodyId,
        collider_a: ColliderId,
        collider_b: ColliderId,
        contacts: Vec<C>,
    },
    /// Collision ended this frame.
    Ended { body_a: BodyId, body_b: BodyId, collider_a: ColliderId, collider_b: ColliderId },
}

/// The body ids of an event.
pub open spec fn event_bodies<C>(e: CollisionEvent<C>) -> (BodyId, BodyId) {
    match e {
        CollisionEvent::Started { body_a, body_b, .. } => (body_a, body_b),
        CollisionEvent::Persisted { body_a, body_b, .. } => (body_a, body_b),
        CollisionEvent::Ended { body_a, body_b, .. } => (body_a, body_b),
    }
}

/// The collider ids of an event.
pub open spec fn event_colliders<C>(e: CollisionEvent<C>) -> (ColliderId, ColliderId) {
    match e {
        CollisionEvent::Started { collider_a, collider_b, .. } => (collider_a, collider_b),
        CollisionEvent::Persisted { collider_a, collider_b, .. } => (collider_a, collider_b),
        CollisionEvent::Ended { collider_a, collider_b, .. } => (collider_a, collider_b),
    }
}

impl<C> CollisionEvent<C> {
    /// Get the body IDs involved in this event.
    pub fn bodies(&self) -> (r: (BodyId, BodyId))
        ensures
            r == event_bodies(*self),
    {
        match self {
            CollisionEvent::Started { body_a, body_b, .. } => (*body_a, *body_b),
            CollisionEvent::Persisted { body_a, body_b, .. } => (*body_a, *body_b),
            CollisionEvent::Ended { body_a, body_b, .. } => (*body_a, *body_b),
        }
    }

    /// Get the collider IDs involved in this event.
    pub fn colliders(&self) -> (r: (ColliderId, ColliderId))
        ensures
            r == event_colliders(*self),
    {
        match self {
            CollisionEvent::Started { collider_a, collider_b, .. } => (*collider_a, *collider_b),
            CollisionEvent::Persisted { collider_a, collider_b, .. } => (*collider_a, *collider_b),
            CollisionEvent::Ended { collider_a, collider_b, .. } => (*collider_a, *collider_b),
        }
    }

    /// Check if this is a start event.
    pub fn is_start(&self) -> (r: bool)
        ensures
            r == (*self is Started),
    {
        match self {
            CollisionEvent::Started { .. } => true,
            _ => false,
        }
    }

    /// Check if this is an end event.
    pub fn is_end(&self) -> (r: bool)
        ensures
            r == (*self is Ended),
    {
        match self {
            CollisionEvent::Ended { .. } => true,
            _ => false,
        }
    }
}

/// One contact manifold of the current frame, as seen by event generation.
pub struct ManifoldRecord<C> {
    pub key: ManifoldKey,
    pub body_a: BodyId,
    pub body_b: BodyId,
    pub contacts: Vec<C>,
}

/// Resource storing the current frame's collision events and the collisions
/// that were active at the end of the previous step.
pub struct CollisionEvents<C> {
    events: Vec<CollisionEvent<C>>,
    active: Vec<ActiveEntry>,
}

/// The ordered collider pair of a manifold key.
pub open spec fn key_pair(key: ManifoldKey) -> (ColliderId, ColliderId) {
    ordered_pair(key.collider_a, key.collider_b)
}

/// The active-collision entries that the manifolds with contacts produce, in order.
pub open spec fn current_entries<C>(ms: Seq<ManifoldRecord<C>>) -> Seq<ActiveEntry>
    decreases ms.len(),
{
    if ms.len() == 0 {
        Seq::empty()
    } else {
        let m = ms.last();
        let rest = current_entries(ms.drop_last());
        if m.contacts@.len() > 0 {
            rest.push((key_pair(m.key), (m.body_a, m.body_b)))
        } else {
            rest
        }
    }
}

/// The start or persist event a manifold with contacts produces, given the previously
/// active collisions.
pub open spec fn contact_event<C>(
    m: ManifoldRecord<C>,
    prev: Map<(ColliderId, ColliderId), (BodyId, BodyId)>,
) -> CollisionEvent<C> {
    if prev.dom().contains(key_pair(m.key)) {
        CollisionEvent::Persisted {
            body_a: m.body_a,
            body_b: m.body_b,
            collider_a: m.key.collider_a,
            collider_b: m.key.collider_b,
            contacts: m.contacts,
        }
    } else {
        CollisionEvent::Started {
            body_a: m.body_a,
            body_b: m.body_b,
            collider_a: m.key.collider_a,
            collider_b: m.key.collider_b,
            contacts: m.contacts,
        }
    }
}

/// The start/persist events of a frame, one per manifold with contacts, in order.
pub open spec fn contact_events<C>(
    ms: Seq<ManifoldRecord<C>>,
    prev: Map<(ColliderId, ColliderId), (BodyId, BodyId)>,
) -> Seq<CollisionEvent<C>>
    decreases ms.len(),
{
    if ms.len() == 0 {
        Seq::empty()
    } else {
        let m = ms.last();
        let rest = contact_events(ms.drop_last(), prev);
        if m.contacts@.len() > 0 {
            rest.push(contact_event(m, prev))
        } else {
            rest
        }
    }
}

/// The end events: one per previously active entry whose pair is no longer active,
/// carrying the bodies recorded for it.
pub open spec fn ended_events<C>(
    prev: Seq<ActiveEntry>,
    current: Map<(ColliderId, ColliderId), (BodyId, BodyId)>,
) -> Seq<CollisionEvent<C>>
    decreases prev.len(),
{
    if prev.len() == 0 {
        Seq::empty()
    } else {
        let e = prev.last();
        let rest = ended_events(prev.drop_last(), current);
        if current.dom().contains(e.0) {
            rest
        } else {
            rest.push(
                CollisionEvent::Ended {
                    body_a: e.1.0,
                    body_b: e.1.1,
                    collider_a: e.0.0,
                    collider_b: e.0.1,
                },
            )
        }
    }
}

impl<C> CollisionEvents<C> {
    /// The events of the current frame, in order.
    pub closed spec fn events_view(&self) -> Seq<CollisionEvent<C>> {
        self.events@
    }

    /// The collisions recorded as active, in recording order.
    pub closed spec fn active_entries(&self) -> Seq<ActiveEntry> {
        self.active@
    }

    /// The collisions recorded as active: ordered collider pair to bodies.
    pub open spec fn active_map(&self) -> Map<(ColliderId, ColliderId), (BodyId, BodyId)> {
        assoc_map(self.active_entries())
    }

    /// Each collider pair is recorded at most once.
    #[verifier::type_invariant]
    spec fn inv(self) -> bool {
        keys_unique(self.active@)
    }

    /// Create a new collision events buffer.
    pub fn new() -> (r: Self)
        ensures
            r.events_view() == Seq::<CollisionEvent<C>>::empty(),
            r.active_entries() == Seq::<ActiveEntry>::empty(),
            keys_unique(r.active_entries()),
    {
        CollisionEvents { events: Vec::new(), active: Vec::new() }
    }

    /// Add an event to the buffer.
    pub fn push(&mut self, event: CollisionEvent<C>)
        ensures
            final(self).events_view() == old(self).events_view().push(event),
            final(self).active_entries() == old(self).active_entries(),
            keys_unique(final(self).active_entries()),
    {
        proof {
            use_type_invariant(&*self);
        }
        let mut events: Vec<CollisionEvent<C>> = Vec::new();
        std::mem::swap(&mut events, &mut self.events);
        events.push(event);
        self.events = events;
    }

    /// All events from the current frame.
    pub fn events(&self) -> (r: &[CollisionEvent<C>])
        ensures
            r@ == self.events_view(),
    {
        self.events.as_slice()
    }

    /// Removes and returns all events of the buffer, in order.
    pub fn drain(&mut self) -> (r: Vec<CollisionEvent<C>>)
        ensures
            r@ == old(self).events_view(),
            final(self).events_view() == Seq::<CollisionEvent<C>>::empty(),
            final(self).active_entries() == old(self).active_entries(),
            keys_unique(final(self).active_entries()),
    {
        proof {
            use_type_invariant(&*self);
        }
        let mut out: Vec<CollisionEvent<C>> = Vec::new();
        std::mem::swap(&mut out, &mut self.events);
        out
    }

    /// Clear all events.
    pub fn clear(&mut self)
        ensures
            final(self).events_view() == Seq::<CollisionEvent<C>>::empty(),
            final(self).active_entries() == old(self).active_entries(),
            keys_unique(final(self).active_entries()),
    {
        proof {
            use_type_invariant(&*self);
        }
        self.events = Vec::new();
    }

    /// Get the number of events.
    pub fn len(&self) -> (r: usize)
        ensures
            r == self.events_view().len(),
    {
        self.events.len()
    }

    /// Check if there are no events.
    pub fn is_empty(&self) -> (r: bool)
        ensures
            r == (self.events_view().len() == 0),
    {
        self.events.len() == 0
    }

    /// Index of the entry for an ordered collider pair, if recorded.
    fn find_active(&self, key: (ColliderId, ColliderId)) -> (r: Option<usize>)
        ensures
            match r {
                Some(i) => i < self.active@.len() && self.active@[i as int].0 == key,
                None => forall|i: int| 0 <= i < self.active@.len() ==> #[trigger] self.active@[i].0 != key,
            },
    {
        let mut i: usize = 0;
        while i < self.active.len()
            invariant
                i <= self.active@.len(),
                forall|j: int| 0 <= j < i ==> #[trigger] self.active@[j].0 != key,
            decreases self.active@.len() - i,
        {
            let e = self.active[i];
            if e.0.0.0 == key.0.0 && e.0.1.0 == key.1.0 {
                return Some(i);
            }
            i = i + 1;
        }
        None
    }

    /// Record an active collision for tracking ended events.
    /// The collider pair is stored in ascending order; the bodies as given.
    pub fn record_active(
        &mut self,
        collider_a: ColliderId,
        collider_b: ColliderId,
        body_a: BodyId,
        body_b: BodyId,
    )
        ensures
            final(self).active_map() == old(self).active_map().insert(
                ordered_pair(collider_a, collider_b),
                (body_a, body_b),
            ),
            keys_unique(old(self).active_entries()),
            keys_unique(final(self).active_entries()),
            final(self).events_view() == old(self).events_view(),
    {
        proof {
            use_type_invariant(&*self);
        }
        let key = if collider_a.0 <= collider_b.0 {
            (collider_a, collider_b)
        } else {
            (collider_b, collider_a)
        };
        match self.find_active(key) {
            Some(i) => {
                proof {
                    lemma_assoc_update(self.active@, i as int, (body_a, body_b));
                }
                let mut active: Vec<ActiveEntry> = Vec::new();
                std::mem::swap(&mut active, &mut self.active);
                active.set(i, (key, (body_a, body_b)));
                self.active = active;
            },
            None => {
                proof {
                    lemma_push_fresh_unique(self.active@, (key, (body_a, body_b)));
                }
                let mut active: Vec<ActiveEntry> = Vec::new();
                std::mem::swap(&mut active, &mut self.active);
                active.push((key, (body_a, body_b)));
                self.active = active;
            },
        }
    }

    /// Check if a collision was active in the previous frame.
    pub fn was_active(&self, collider_a: ColliderId, collider_b: ColliderId) -> (r: bool)
        ensures
            r == self.active_map().dom().contains(ordered_pair(collider_a, collider_b)),
            keys_unique(self.active_entries()),
    {
        proof {
            use_type_invariant(self);
        }
        let key = if collider_a.0 <= collider_b.0 {
            (collider_a, collider_b)
        } else {
            (collider_b, collider_a)
        };
        proof {
            lemma_assoc_dom(self.active@, key);
        }
        match self.find_active(key) {
            Some(i) => true,
            None => false,
        }
    }

    /// Clear active collisions at the start of a frame.
    pub fn clear_active(&mut self)
        ensures
            final(self).active_entries() == Seq::<ActiveEntry>::empty(),
            final(self).events_view() == old(self).events_view(),
    {
        self.active = Vec::new();
        assert(keys_unique(self.active@));
    }

    /// Removes and returns the active collisions, leaving none recorded.
    pub fn take_active(&mut self) -> (r: Vec<ActiveEntry>)
        ensures
            r@ == old(self).active_entries(),
            keys_unique(r@),
            final(self).active_entries() == Seq::<ActiveEntry>::empty(),
            final(self).events_view() == old(self).events_view(),
    {
        proof {
            use_type_invariant(&*self);
        }
        let mut out: Vec<ActiveEntry> = Vec::new();
        std::mem::swap(&mut out, &mut self.active);
        out
    }
}

fn find_entry(v: &Vec<ActiveEntry>, key: (ColliderId, ColliderId)) -> (r: Option<usize>)
    ensures
        match r {
            Some(i) => i < v@.len() && v@[i as int].0 == key,
            None => forall|i: int| 0 <= i < v@.len() ==> #[trigger] v@[i].0 != key,
        },
{
    let mut i: usize = 0;
    while i < v.len()
        invariant
            i <= v@.len(),
            forall|j: int| 0 <= j < i ==> #[trigger] v@[j].0 != key,
        decreases v@.len() - i,
    {
        let e = v[i];
        if e.0.0.0 == key.0.0 && e.0.1.0 == key.1.0 {
            return Some(i);
        }
        i = i + 1;
    }
    None
}

/// Generate collision events from this step's contact manifolds.
///
/// Each manifold with at least one contact yields a `Persisted` event if its
/// collider pair was active before the call and a `Started` event otherwise.
/// Then every previously active pair that has no manifold with contacts now
/// yields an `Ended` event with the bodies recorded for it. Finally the active
/// collisions become exactly those of this step.
pub fn generate_collision_events<C>(manifolds: Vec<ManifoldRecord<C>>, events: &mut CollisionEvents<C>)
    ensures
        final(events).events_view() == old(events).events_view() + contact_events(
            manifolds@,
            old(events).active_map(),
        ) + ended_events(old(events).active_entries(), assoc_map(current_entries(manifolds@))),
        final(events).active_map() == assoc_map(current_entries(manifolds@)),
        keys_unique(old(events).active_entries()),
        keys_unique(final(events).active_entries()),
{
    proof {
        use_type_invariant(&*events);
    }
    let ghost ms = manifolds@;
    let ghost prev = events.active_map();
    let ghost old_events = events.events_view();
    let ghost old_entries = events.active_entries();
    let mut rest = manifolds;
    let mut current: Vec<ActiveEntry> = Vec::new();
    let mut i: usize = 0;
    let n = rest.len();
    while i < n
        invariant
            n == ms.len(),
            i <= n,
            rest@ == ms.skip(i as int),
            keys_unique(current@),
            assoc_map(current@) == assoc_map(current_entries(ms.take(i as int))),
            events.active_map() == prev,
            events.active_entries() == old_entries,
            prev == assoc_map(old_entries),
            events.events_view() == old_events + contact_events(ms.take(i as int), prev),
        decreases n - i,
    {
        assert(ms.take(i as int + 1).drop_last() =~= ms.take(i as int));
        assert(rest@[0] == ms[i as int]);
        let m = rest.remove(0);
        assert(rest@ =~= ms.skip(i as int + 1));
        if m.contacts.len() > 0 {
            let key = if m.key.collider_a.0 <= m.key.collider_b.0 {
                (m.key.collider_a, m.key.collider_b)
            } else {
                (m.key.collider_b, m.key.collider_a)
            };
            let active_before = events.was_active(m.key.collider_a, m.key.collider_b);
            let ghost cur_entries = current_entries(ms.take(i as int));
            match find_entry(&current, key) {
                Some(j) => {
                    proof {
                        lemma_assoc_update(current@, j as int, (m.body_a, m.body_b));
                    }
                    current.set(j, (key, (m.body_a, m.body_b)));
                },
                None => {
                    proof {
                        lemma_push_fresh_unique(current@, (key, (m.body_a, m.body_b)));
                    }
                    current.push((key, (m.body_a, m.body_b)));
                },
            }
            assert(current_entries(ms.take(i as int + 1)) == cur_entries.push(
                (key, (m.body_a, m.body_b)),
            ));
            assert(cur_entries.push((key, (m.body_a, m.body_b))).drop_last() =~= cur_entries);
            let ManifoldRecord { key: mkey, body_a, body_b, contacts } = m;
            let event = if active_before {
                CollisionEvent::Persisted {
                    body_a,
                    body_b,
                    collider_a: mkey.collider_a,
                    collider_b: mkey.collider_b,
                    contacts,
                }
            } else {
                CollisionEvent::Started {
                    body_a,
                    body_b,
                    collider_a: mkey.collider_a,
                    collider_b: mkey.collider_b,
                    contacts,
                }
            };
            events.push(event);
        } else {
            assert(current_entries(ms.take(i as int + 1)) == current_entries(ms.take(i as int)));
            assert(contact_events(ms.take(i as int + 1), prev) == contact_events(ms.take(i as int), prev));
        }
        i = i + 1;
    }
    assert(ms.take(n as int) =~= ms);
    let ghost cur_map = assoc_map(current_entries(ms));
    let ghost after_contacts = events.events_view();
    let previous = events.take_active();
    let ghost pv = previous@;
    let mut j: usize = 0;
    while j < previous.len()
        invariant
            j <= pv.len(),
            previous@ == pv,
            keys_unique(current@),
            assoc_map(current@) == cur_map,
            events.active_entries() == Seq::<ActiveEntry>::empty(),
            events.events_view() == after_contacts + ended_events(pv.take(j as int), cur_map),
        decreases pv.len() - j,
    {
        assert(pv.take(j as int + 1).drop_last() =~= pv.take(j as int));
        let e = previous[j];
        proof {
            lemma_assoc_dom(current@, e.0);
        }
        match find_entry(&current, e.0) {
            Some(_) => {},
            None => {
                events.push(
                    CollisionEvent::Ended {
                        body_a: e.1.0,
                        body_b: e.1.1,
                        collider_a: e.0.0,
                        collider_b: e.0.1,
                    },
                );
            },
        }
        j = j + 1;
    }
    assert(pv.take(pv.len() as int) =~= pv);
    events.active = current;
    assert(old_events + contact_events(ms, prev) + ended_events(pv, cur_map) == after_contacts
        + ended_events(pv, cur_map));
}

/// Some manifold of the frame has contacts for the collider pair.
pub open spec fn has_contacts_for<C>(ms: Seq<ManifoldRecord<C>>, pair: (ColliderId, ColliderId)) -> bool {
    exists|i: int| 0 <= i < ms.len() && ms[i].contacts@.len() > 0 && #[trigger] key_pair(ms[i].key) == pair
}

/// After a frame, a collider pair is active exactly when some manifold of the
/// frame has contacts for it.
pub proof fn lemma_active_pairs_after_frame<C>(ms: Seq<ManifoldRecord<C>>, pair: (ColliderId, ColliderId))
    ensures
        assoc_map(current_entries(ms)).dom().contains(pair) <==> has_contacts_for(ms, pair),
    decreases ms.len(),
{
    if ms.len() > 0 {
        let rest = ms.drop_last();
        lemma_active_pairs_after_frame(rest, pair);
        let ce = current_entries(rest);
        let last = ms.last();
        assert(ms[ms.len() - 1] == last);
        if last.contacts@.len() > 0 {
            let e = (key_pair(last.key), (last.body_a, last.body_b));
            assert(current_entries(ms) == ce.push(e));
            assert(ce.push(e).drop_last() =~= ce);
            assert(assoc_map(ce.push(e)) == assoc_map(ce).insert(e.0, e.1));
        } else {
            assert(current_entries(ms) == ce);
        }
        if has_contacts_for(rest, pair) {
            let i = choose|i: int| 0 <= i < rest.len() && rest[i].contacts@.len() > 0 && #[trigger] key_pair(rest[i].key) == pair;
            assert(ms[i] == rest[i]);
        }
        if has_contacts_for(ms, pair) {
            let i = choose|i: int| 0 <= i < ms.len() && ms[i].contacts@.len() > 0 && #[trigger] key_pair(ms[i].key) == pair;
            if i < ms.len() - 1 {
                assert(rest[i] == ms[i]);
            }
        }
    }
}

/// A manifold with contacts yields a `Started` event when its pair was not
/// active before the frame, and a `Persisted` one, with the same bodies,
/// colliders and contacts, when it was.
pub proof fn lemma_contact_event_kind<C>(m: ManifoldRecord<C>, prev: Map<(ColliderId, ColliderId), (BodyId, BodyId)>)
    ensures
        contact_event(m, prev) is Started <==> !prev.dom().contains(key_pair(m.key)),
        contact_event(m, prev) is Persisted <==> prev.dom().contains(key_pair(m.key)),
        event_bodies(contact_event(m, prev)) == (m.body_a, m.body_b),
        event_colliders(contact_event(m, prev)) == (m.key.collider_a, m.key.collider_b),
{
}

/// A pair with contacts in two consecutive frames starts in the first (if it
/// was not active before) and persists in the second.
pub proof fn lemma_contacts_persist_across_frames<C>(
    first: Seq<ManifoldRecord<C>>,
    m: ManifoldRecord<C>,
)
    requires
        has_contacts_for(first, key_pair(m.key)),
    ensures
        contact_event(m, assoc_map(current_entries(first))) is Persisted,
{
    lemma_active_pairs_after_frame(first, key_pair(m.key));
}

/// Every end event is for a pair that was active before the frame and is not
/// active after it, and carries the bodies recorded for that pair.
pub proof fn lemma_ended_events_sound<C>(
    prev: Seq<ActiveEntry>,
    current: Map<(ColliderId, ColliderId), (BodyId, BodyId)>,
    k: int,
)
    requires
        0 <= k < ended_events::<C>(prev, current).len(),
    ensures
        exists|i: int|
            0 <= i < prev.len() && !current.dom().contains(#[trigger] prev[i].0) && ended_events::<C>(prev, current)[k]
                == (CollisionEvent::<C>::Ended {
                body_a: prev[i].1.0,
                body_b: prev[i].1.1,
                collider_a: prev[i].0.0,
                collider_b: prev[i].0.1,
            }),
    decreases prev.len(),
{
    let rest = prev.drop_last();
    let r = ended_events::<C>(rest, current);
    if k < r.len() {
        lemma_ended_events_sound::<C>(rest, current, k);
        let i = choose|i: int|
            0 <= i < rest.len() && !current.dom().contains(#[trigger] rest[i].0) && r[k] == (CollisionEvent::<C>::Ended {
                body_a: rest[i].1.0,
                body_b: rest[i].1.1,
                collider_a: rest[i].0.0,
                collider_b: rest[i].0.1,
            });
        assert(prev[i] == rest[i]);
        assert(ended_events::<C>(prev, current)[k] == r[k]);
    } else {
        let i = prev.len() - 1;
        assert(prev[i] == prev.last());
    }
}

/// Every pair that was active before the frame and is not active after it gets
/// an end event carrying the bodies recorded for it.
pub proof fn lemma_ended_events_complete<C>(
    prev: Seq<ActiveEntry>,
    current: Map<(ColliderId, ColliderId), (BodyId, BodyId)>,
    i: int,
)
    requires
        0 <= i < prev.len(),
        !current.dom().contains(prev[i].0),
    ensures
        ended_events::<C>(prev, current).contains(
            CollisionEvent::<C>::Ended {
                body_a: prev[i].1.0,
                body_b: prev[i].1.1,
                collider_a: prev[i].0.0,
                collider_b: prev[i].0.1,
            },
        ),
    decreases prev.len(),
{
    let e = CollisionEvent::<C>::Ended {
        body_a: prev[i].1.0,
        body_b: prev[i].1.1,
        collider_a: prev[i].0.0,
        collider_b: prev[i].0.1,
    };
    let rest = prev.drop_last();
    let r = ended_events::<C>(rest, current);
    if i == prev.len() - 1 {
        assert(ended_events::<C>(prev, current) == r.push(e));
        assert(r.push(e)[r.len() as int] == e);
    } else {
        assert(rest[i] == prev[i]);
        lemma_ended_events_complete::<C>(rest, current, i);
        let k = choose|k: int| 0 <= k < r.len() && r[k] == e;
        let full = ended_events::<C>(prev, current);
        if current.dom().contains(prev.last().0) {
            assert(full == r);
        } else {
            assert(full[k] == r[k]);
        }
        assert(full[k] == e);
    }
}

/// With each pair recorded once, the end events name each collider pair at
/// most once; with the completeness law, every pair that ended gets exactly one.
pub proof fn lemma_ended_events_once_per_pair<C>(
    prev: Seq<ActiveEntry>,
    current: Map<(ColliderId, ColliderId), (BodyId, BodyId)>,
)
    requires
        keys_unique(prev),
    ensures
        forall|k1: int, k2: int|
            0 <= k1 < k2 < ended_events::<C>(prev, current).len() ==> event_colliders(
                #[trigger] ended_events::<C>(prev, current)[k1],
            ) != event_colliders(#[trigger] ended_events::<C>(prev, current)[k2]),
    decreases prev.len(),
{
    if prev.len() > 0 {
        let rest = prev.drop_last();
        assert(keys_unique(rest)) by {
            assert forall|a: int, b: int| 0 <= a < b < rest.len() implies #[trigger] rest[a].0 != #[trigger] rest[b].0 by {
                assert(prev[a].0 != prev[b].0);
            }
        }
        lemma_ended_events_once_per_pair::<C>(rest, current);
        let r = ended_events::<C>(rest, current);
        let full = ended_events::<C>(prev, current);
        if !current.dom().contains(prev.last().0) {
            assert forall|k1: int, k2: int| 0 <= k1 < k2 < full.len() implies event_colliders(
                #[trigger] full[k1],
            ) != event_colliders(#[trigger] full[k2]) by {
                assert(full[k1] == r[k1]);
                if k2 < r.len() {
                    assert(full[k2] == r[k2]);
                } else {
                    lemma_ended_events_sound::<C>(rest, current, k1);
                    let i = choose|i: int|
                        0 <= i < rest.len() && !current.dom().contains(#[trigger] rest[i].0) && r[k1]
                            == (CollisionEvent::<C>::Ended {
                            body_a: rest[i].1.0,
                            body_b: rest[i].1.1,
                            collider_a: rest[i].0.0,
                            collider_b: rest[i].0.1,
                        });
                    assert(prev[i] == rest[i]);
                    assert(prev[i].0 != prev[prev.len() - 1].0);
                }
            }
        }
    }
}

} // verus!
