//! The narrow phase: which of the pairs that the broad phase found do touch,
//! and how.

use crate::dynamics::rigid_body_set::{RigidBodyHandle, RigidBodySet};
use crate::geometry::broad_phase::{BroadPhasePairEvent, ColliderPair};
use crate::geometry::collider::ColliderSet;
use crate::math::Axis;
use crate::pipeline::event_handler::{ContactEvent, IntersectionEvent, PhysicsEvent};
use crate::pipeline::physics_hooks::PhysicsHooks;
use crate::sequences::{lemma_take_all, lemma_take_step};
use vstd::prelude::*;

verus! {

/// How two colliders touch.
#[derive(Copy, Clone, Debug, PartialEq, Eq, Structural)]
pub struct ContactManifold {
    /// The bodies that carry the two colliders.
    pub body1: RigidBodyHandle,
    pub body2: RigidBodyHandle,
    /// The axis of the contact normal.
    pub axis: Axis,
    /// Whether the second collider lies on the positive side of the first.
    pub positive: bool,
    /// Distance between the two colliders along the normal; negative when
    /// they overlap.
    pub distance: i64,
    /// Change of velocity along the normal that the last solve applied to
    /// keep the two apart.
    pub impulse: i64,
}

/// A pair of colliders that the broad phase found near each other, with what
/// the narrow phase knows of it.
#[derive(Copy, Clone, Debug, PartialEq, Eq, Structural)]
pub struct ContactPair {
    pub pair: ColliderPair,
    /// Whether one of the two is a sensor: such a pair is watched for
    /// overlap and never pushes.
    pub sensor: bool,
    /// How the two touch, if they do.
    pub manifold: Option<ContactManifold>,
    /// Whether the two overlap; only a pair with a sensor ever does.
    pub intersecting: bool,
}

/// Which pairs a clean-up takes away.
#[derive(Copy, Clone, Debug, PartialEq, Eq, Structural)]
pub enum Removal {
    /// Those of which a collider is gone.
    Orphans,
    /// The given pair.
    Pair(ColliderPair),
}

/// Whether both colliders of `pair` exist.
pub open spec fn alive(colliders: ColliderSet, pair: ColliderPair) -> bool {
    colliders.contains(pair.collider1) && colliders.contains(pair.collider2)
}

/// Whether one of the colliders of `pair` is a sensor.
pub open spec fn has_sensor(colliders: ColliderSet, pair: ColliderPair) -> bool {
    ||| colliders.contains(pair.collider1) && colliders.collider(pair.collider1).sensor
    ||| colliders.contains(pair.collider2) && colliders.collider(pair.collider2).sensor
}

/// Whether `removal` takes `entry` away.
pub open spec fn doomed(removal: Removal, colliders: ColliderSet, entry: ContactPair) -> bool {
    match removal {
        Removal::Orphans => !alive(colliders, entry.pair),
        Removal::Pair(p) => entry.pair == p,
    }
}

/// What is reported when `entry` is taken away: that its colliders touch, or
/// overlap, no longer.
pub open spec fn farewell(entry: ContactPair) -> Seq<PhysicsEvent> {
    if entry.manifold is Some {
        seq![
            PhysicsEvent::Contact(
                ContactEvent::Stopped(entry.pair.collider1, entry.pair.collider2),
            ),
        ]
    } else if entry.intersecting {
        seq![
            PhysicsEvent::Intersection(
                IntersectionEvent {
                    collider1: entry.pair.collider1,
                    collider2: entry.pair.collider2,
                    intersecting: false,
                },
            ),
        ]
    } else {
        Seq::empty()
    }
}

/// The entries that `removal` leaves, in their order.
pub open spec fn kept(entries: Seq<ContactPair>, removal: Removal, colliders: ColliderSet) -> Seq<
    ContactPair,
>
    decreases entries.len(),
{
    if entries.len() == 0 {
        Seq::empty()
    } else if doomed(removal, colliders, entries.last()) {
        kept(entries.drop_last(), removal, colliders)
    } else {
        kept(entries.drop_last(), removal, colliders).push(entries.last())
    }
}

/// What is reported for the entries that `removal` takes away, in their order.
pub open spec fn farewells(entries: Seq<ContactPair>, removal: Removal, colliders: ColliderSet) -> Seq<
    PhysicsEvent,
>
    decreases entries.len(),
{
    if entries.len() == 0 {
        Seq::empty()
    } else if doomed(removal, colliders, entries.last()) {
        farewells(entries.drop_last(), removal, colliders) + farewell(entries.last())
    } else {
        farewells(entries.drop_last(), removal, colliders)
    }
}

/// Whether an entry for `pair` is among `entries`.
pub open spec fn listed(entries: Seq<ContactPair>, pair: ColliderPair) -> bool {
    exists|k: int| 0 <= k < entries.len() && (#[trigger] entries[k]).pair == pair
}

/// The entry that a pair gets when it is first heard of.
pub open spec fn fresh_entry(colliders: ColliderSet, pair: ColliderPair) -> ContactPair {
    ContactPair { pair, sensor: has_sensor(colliders, pair), manifold: None, intersecting: false }
}

/// The entries once one event of the broad phase has been taken in: a pair
/// that was added gets an entry unless it has one, a pair that was deleted
/// loses its own.
pub open spec fn after_event(entries: Seq<ContactPair>, colliders: ColliderSet, event: BroadPhasePairEvent) -> Seq<
    ContactPair,
> {
    match event {
        BroadPhasePairEvent::AddPair(p) => if listed(entries, p) {
            entries
        } else {
            entries.push(fresh_entry(colliders, p))
        },
        BroadPhasePairEvent::DeletePair(p) => kept(entries, Removal::Pair(p), colliders),
    }
}

/// What is reported when one event of the broad phase is taken in.
pub open spec fn news_of_event(entries: Seq<ContactPair>, colliders: ColliderSet, event: BroadPhasePairEvent) -> Seq<
    PhysicsEvent,
> {
    match event {
        BroadPhasePairEvent::AddPair(p) => Seq::empty(),
        BroadPhasePairEvent::DeletePair(p) => farewells(entries, Removal::Pair(p), colliders),
    }
}

/// The entries once the events of the broad phase have been taken in, one
/// after the other.
pub open spec fn registered(
    entries: Seq<ContactPair>,
    colliders: ColliderSet,
    changes: Seq<BroadPhasePairEvent>,
) -> Seq<ContactPair>
    decreases changes.len(),
{
    if changes.len() == 0 {
        entries
    } else {
        after_event(registered(entries, colliders, changes.drop_last()), colliders, changes.last())
    }
}

/// What is reported while the events of the broad phase are taken in.
pub open spec fn registration_news(
    entries: Seq<ContactPair>,
    colliders: ColliderSet,
    changes: Seq<BroadPhasePairEvent>,
) -> Seq<PhysicsEvent>
    decreases changes.len(),
{
    if changes.len() == 0 {
        Seq::empty()
    } else {
        registration_news(entries, colliders, changes.drop_last()) + news_of_event(
            registered(entries, colliders, changes.drop_last()),
            colliders,
            changes.last(),
        )
    }
}

/// Whether one of the two bodies exists and is dynamic: only then can a
/// contact between them move anything.
pub open spec fn pushes(bodies: RigidBodySet, body1: RigidBodyHandle, body2: RigidBodyHandle) -> bool {
    ||| bodies.contains(body1) && bodies.body(body1).dynamic()
    ||| bodies.contains(body2) && bodies.body(body2).dynamic()
}

/// How the colliders of `entry` touch: there is a contact when both exist,
/// neither is a sensor, the hooks let the pair through, one of the bodies is
/// dynamic, and the bounds of the colliders are no farther apart than
/// `margin`. The contact holds the distance that the hooks make of the
/// distance of the bounds, and keeps the impulse of the one before it.
#[verifier::opaque]
pub open spec fn touching<H: PhysicsHooks>(
    entry: ContactPair,
    colliders: ColliderSet,
    bodies: RigidBodySet,
    margin: u64,
    hooks: H,
) -> Option<ContactManifold> {
    let c1 = colliders.collider(entry.pair.collider1);
    let c2 = colliders.collider(entry.pair.collider2);
    if alive(colliders, entry.pair) && !entry.sensor && hooks.allows_contact(
        entry.pair.collider1,
        entry.pair.collider2,
    ) && pushes(bodies, c1.parent, c2.parent) && c1.aabb().within(c2.aabb(), margin) {
        let s = c1.aabb().separation(c2.aabb());
        Some(
            ContactManifold {
                body1: c1.parent,
                body2: c2.parent,
                axis: s.axis,
                positive: s.positive,
                distance: hooks.solver_distance(entry.pair.collider1, entry.pair.collider2, s.distance),
                impulse: if entry.manifold is Some {
                    entry.manifold->Some_0.impulse
                } else {
                    0
                },
            },
        )
    } else {
        None
    }
}

/// The entry once its contact has been computed anew.
pub open spec fn with_contact<H: PhysicsHooks>(
    entry: ContactPair,
    colliders: ColliderSet,
    bodies: RigidBodySet,
    margin: u64,
    hooks: H,
) -> ContactPair {
    ContactPair { manifold: touching(entry, colliders, bodies, margin, hooks), ..entry }
}

/// What is reported when the contact of `entry` is computed anew: that the
/// colliders have started to touch, or stopped.
pub open spec fn contact_news<H: PhysicsHooks>(
    entry: ContactPair,
    colliders: ColliderSet,
    bodies: RigidBodySet,
    margin: u64,
    hooks: H,
) -> Seq<PhysicsEvent> {
    let now = touching(entry, colliders, bodies, margin, hooks);
    if entry.manifold is None && now is Some {
        seq![
            PhysicsEvent::Contact(
                ContactEvent::Started(entry.pair.collider1, entry.pair.collider2),
            ),
        ]
    } else if entry.manifold is Some && now is None {
        seq![
            PhysicsEvent::Contact(
                ContactEvent::Stopped(entry.pair.collider1, entry.pair.collider2),
            ),
        ]
    } else {
        Seq::empty()
    }
}

/// What is reported when the contacts of `entries` are computed anew, in
/// their order.
pub open spec fn all_contact_news<H: PhysicsHooks>(
    entries: Seq<ContactPair>,
    colliders: ColliderSet,
    bodies: RigidBodySet,
    margin: u64,
    hooks: H,
) -> Seq<PhysicsEvent>
    decreases entries.len(),
{
    if entries.len() == 0 {
        Seq::empty()
    } else {
        all_contact_news(entries.drop_last(), colliders, bodies, margin, hooks) + contact_news(
            entries.last(),
            colliders,
            bodies,
            margin,
            hooks,
        )
    }
}

/// Whether the colliders of `entry` overlap: they do when both exist, one is
/// a sensor, the hooks let the pair through, and their bounds meet.
#[verifier::opaque]
pub open spec fn overlapping<H: PhysicsHooks>(entry: ContactPair, colliders: ColliderSet, hooks: H) -> bool {
    let c1 = colliders.collider(entry.pair.collider1);
    let c2 = colliders.collider(entry.pair.collider2);
    alive(colliders, entry.pair) && entry.sensor && hooks.allows_intersection(
        entry.pair.collider1,
        entry.pair.collider2,
    ) && c1.aabb().within(c2.aabb(), 0)
}

/// The entry once its overlap has been computed anew.
pub open spec fn with_overlap<H: PhysicsHooks>(entry: ContactPair, colliders: ColliderSet, hooks: H) -> ContactPair {
    ContactPair { intersecting: overlapping(entry, colliders, hooks), ..entry }
}

/// What is reported when the overlap of `entry` is computed anew: the new
/// state, where it differs from the old.
pub open spec fn overlap_news<H: PhysicsHooks>(entry: ContactPair, colliders: ColliderSet, hooks: H) -> Seq<
    PhysicsEvent,
> {
    if entry.intersecting != overlapping(entry, colliders, hooks) {
        seq![
            PhysicsEvent::Intersection(
                IntersectionEvent {
                    collider1: entry.pair.collider1,
                    collider2: entry.pair.collider2,
                    intersecting: overlapping(entry, colliders, hooks),
                },
            ),
        ]
    } else {
        Seq::empty()
    }
}

/// What is reported when the overlaps of `entries` are computed anew, in
/// their order.
pub open spec fn all_overlap_news<H: PhysicsHooks>(
    entries: Seq<ContactPair>,
    colliders: ColliderSet,
    hooks: H,
) -> Seq<PhysicsEvent>
    decreases entries.len(),
{
    if entries.len() == 0 {
        Seq::empty()
    } else {
        all_overlap_news(entries.drop_last(), colliders, hooks) + overlap_news(
            entries.last(),
            colliders,
            hooks,
        )
    }
}

/// The narrow phase. It remembers, for every pair that the broad phase has
/// reported and not taken back, whether and how the two colliders touch.
pub struct NarrowPhase {
    pub pairs: Vec<ContactPair>,
}

impl NarrowPhase {
    /// A narrow phase that knows of no pair.
    pub fn new() -> (narrow_phase: NarrowPhase)
        ensures
            narrow_phase.pairs@.len() == 0,
    {
        NarrowPhase { pairs: Vec::new() }
    }

    /// The entry at `index`, if there is one.
    pub fn contact_pair_at_index(&self, index: usize) -> (entry: Option<ContactPair>)
        ensures
            entry == if index < self.pairs@.len() {
                Some(self.pairs@[index as int])
            } else {
                None
            },
    {
        if index < self.pairs.len() {
            Some(self.pairs[index])
        } else {
            None
        }
    }

    /// Whether an entry for `pair` exists.
    pub fn is_listed(&self, pair: ColliderPair) -> (found: bool)
        ensures
            found == listed(self.pairs@, pair),
    {
        let mut i: usize = 0;
        while i < self.pairs.len()
            invariant
                i <= self.pairs@.len(),
                forall|k: int| 0 <= k < i ==> (#[trigger] self.pairs@[k]).pair != pair,
            decreases self.pairs@.len() - i,
        {
            if self.pairs[i].pair.collider1.0 == pair.collider1.0 && self.pairs[i].pair.collider2.0
                == pair.collider2.0 {
                return true;
            }
            i = i + 1;
        }
        false
    }

    /// Takes away the entries that `removal` names and reports, for each,
    /// that its colliders touch or overlap no longer.
    pub fn remove_where(&mut self, removal: Removal, colliders: &ColliderSet, events: &mut Vec<PhysicsEvent>)
        ensures
            final(self).pairs@ == kept(old(self).pairs@, removal, *colliders),
            final(events)@ == old(events)@ + farewells(old(self).pairs@, removal, *colliders),
    {
        let n: usize = self.pairs.len();
        let mut left: Vec<ContactPair> = Vec::new();
        let mut i: usize = 0;
        assert(events@ =~= old(events)@ + Seq::<PhysicsEvent>::empty());
        while i < n
            invariant
                i <= n,
                n == self.pairs@.len(),
                self.pairs@ == old(self).pairs@,
                left@ == kept(old(self).pairs@.take(i as int), removal, *colliders),
                events@ == old(events)@ + farewells(
                    old(self).pairs@.take(i as int),
                    removal,
                    *colliders,
                ),
            decreases n - i,
        {
            let entry = self.pairs[i];
            let gone: bool = match removal {
                Removal::Orphans => colliders.get(entry.pair.collider1).is_none() || colliders.get(
                    entry.pair.collider2,
                ).is_none(),
                Removal::Pair(p) => entry.pair.collider1.0 == p.collider1.0 && entry.pair.collider2.0
                    == p.collider2.0,
            };
            proof {
                lemma_take_step(old(self).pairs@, i as int);
            }
            let ghost before = events@;
            if gone {
                say_farewell(&entry, events);
                assert(events@ =~= old(events)@ + farewells(
                    old(self).pairs@.take(i + 1),
                    removal,
                    *colliders,
                ));
            } else {
                left.push(entry);
            }
            i = i + 1;
        }
        proof {
            lemma_take_all(old(self).pairs@);
        }
        self.pairs = left;
    }

    /// Takes away the entries of which a collider has been removed.
    pub fn handle_user_changes(&mut self, colliders: &ColliderSet, events: &mut Vec<PhysicsEvent>)
        ensures
            final(self).pairs@ == kept(old(self).pairs@, Removal::Orphans, *colliders),
            final(events)@ == old(events)@ + farewells(old(self).pairs@, Removal::Orphans, *colliders),
    {
        self.remove_where(Removal::Orphans, colliders, events);
    }

    /// Takes in what the broad phase found changed: a pair that has come near
    /// gets an entry, a pair that is near no longer loses its own.
    pub fn register_pairs(
        &mut self,
        colliders: &ColliderSet,
        broad_phase_events: &Vec<BroadPhasePairEvent>,
        events: &mut Vec<PhysicsEvent>,
    )
        ensures
            final(self).pairs@ == registered(old(self).pairs@, *colliders, broad_phase_events@),
            final(events)@ == old(events)@ + registration_news(
                old(self).pairs@,
                *colliders,
                broad_phase_events@,
            ),
    {
        let n: usize = broad_phase_events.len();
        let mut i: usize = 0;
        assert(events@ =~= old(events)@ + Seq::<PhysicsEvent>::empty());
        while i < n
            invariant
                i <= n,
                n == broad_phase_events@.len(),
                self.pairs@ == registered(old(self).pairs@, *colliders, broad_phase_events@.take(i as int)),
                events@ == old(events)@ + registration_news(
                    old(self).pairs@,
                    *colliders,
                    broad_phase_events@.take(i as int),
                ),
            decreases n - i,
        {
            proof {
                lemma_take_step(broad_phase_events@, i as int);
            }
            let ghost before = events@;
            let ghost entries = self.pairs@;
            match broad_phase_events[i] {
                BroadPhasePairEvent::AddPair(p) => {
                    if !self.is_listed(p) {
                        let sensor: bool = is_sensor(colliders, p);
                        self.pairs.push(
                            ContactPair { pair: p, sensor, manifold: None, intersecting: false },
                        );
                    }
                    assert(events@ =~= before + news_of_event(entries, *colliders, broad_phase_events@[i as int]));
                },
                BroadPhasePairEvent::DeletePair(p) => {
                    self.remove_where(Removal::Pair(p), colliders, events);
                },
            }
            assert(events@ =~= old(events)@ + registration_news(
                old(self).pairs@,
                *colliders,
                broad_phase_events@.take(i + 1),
            ));
            i = i + 1;
        }
        proof {
            lemma_take_all(broad_phase_events@);
        }
    }

    /// Computes anew how the colliders of each pair touch, and reports the
    /// pairs that have started or stopped touching.
    pub fn compute_contacts<H: PhysicsHooks>(
        &mut self,
        prediction_distance: u64,
        bodies: &RigidBodySet,
        colliders: &ColliderSet,
        hooks: &H,
        events: &mut Vec<PhysicsEvent>,
    )
        ensures
            final(self).pairs@.len() == old(self).pairs@.len(),
            forall|k: int|
                0 <= k < old(self).pairs@.len() ==> #[trigger] final(self).pairs@[k] == with_contact(
                    old(self).pairs@[k],
                    *colliders,
                    *bodies,
                    prediction_distance,
                    *hooks,
                ),
            final(events)@ == old(events)@ + all_contact_news(
                old(self).pairs@,
                *colliders,
                *bodies,
                prediction_distance,
                *hooks,
            ),
    {
        let n: usize = self.pairs.len();
        let mut i: usize = 0;
        assert(events@ =~= old(events)@ + Seq::<PhysicsEvent>::empty());
        while i < n
            invariant
                i <= n,
                n == self.pairs@.len(),
                n == old(self).pairs@.len(),
                forall|k: int|
                    0 <= k < i ==> #[trigger] self.pairs@[k] == with_contact(
                        old(self).pairs@[k],
                        *colliders,
                        *bodies,
                        prediction_distance,
                        *hooks,
                    ),
                forall|k: int| i <= k < n ==> self.pairs@[k] == old(self).pairs@[k],
                events@ == old(events)@ + all_contact_news(
                    old(self).pairs@.take(i as int),
                    *colliders,
                    *bodies,
                    prediction_distance,
                    *hooks,
                ),
            decreases n - i,
        {
            let entry = self.pairs[i];
            let now = contact_between(&entry, colliders, bodies, prediction_distance, hooks);
            proof {
                lemma_take_step(old(self).pairs@, i as int);
            }
            let ghost before = events@;
            if entry.manifold.is_none() && now.is_some() {
                events.push(
                    PhysicsEvent::Contact(
                        ContactEvent::Started(entry.pair.collider1, entry.pair.collider2),
                    ),
                );
            } else if entry.manifold.is_some() && now.is_none() {
                events.push(
                    PhysicsEvent::Contact(
                        ContactEvent::Stopped(entry.pair.collider1, entry.pair.collider2),
                    ),
                );
            }
            assert(events@ =~= before + contact_news(
                entry,
                *colliders,
                *bodies,
                prediction_distance,
                *hooks,
            ));
            assert(events@ =~= old(events)@ + all_contact_news(
                old(self).pairs@.take(i + 1),
                *colliders,
                *bodies,
                prediction_distance,
                *hooks,
            ));
            let mut updated = entry;
            updated.manifold = now;
            self.pairs.set(i, updated);
            i = i + 1;
        }
        proof {
            lemma_take_all(old(self).pairs@);
        }
    }

    /// Computes anew whether the colliders of each pair with a sensor
    /// overlap, and reports the pairs for which that has changed.
    pub fn compute_intersections<H: PhysicsHooks>(&mut self, colliders: &ColliderSet, hooks: &H, events: &mut Vec<PhysicsEvent>)
        ensures
            final(self).pairs@.len() == old(self).pairs@.len(),
            forall|k: int|
                0 <= k < old(self).pairs@.len() ==> #[trigger] final(self).pairs@[k] == with_overlap(
                    old(self).pairs@[k],
                    *colliders,
                    *hooks,
                ),
            final(events)@ == old(events)@ + all_overlap_news(old(self).pairs@, *colliders, *hooks),
    {
        let n: usize = self.pairs.len();
        let mut i: usize = 0;
        assert(events@ =~= old(events)@ + Seq::<PhysicsEvent>::empty());
        while i < n
            invariant
                i <= n,
                n == self.pairs@.len(),
                n == old(self).pairs@.len(),
                forall|k: int|
                    0 <= k < i ==> #[trigger] self.pairs@[k] == with_overlap(
                        old(self).pairs@[k],
                        *colliders,
                        *hooks,
                    ),
                forall|k: int| i <= k < n ==> self.pairs@[k] == old(self).pairs@[k],
                events@ == old(events)@ + all_overlap_news(
                    old(self).pairs@.take(i as int),
                    *colliders,
                    *hooks,
                ),
            decreases n - i,
        {
            let entry = self.pairs[i];
            let now: bool = overlap_between(&entry, colliders, hooks);
            proof {
                lemma_take_step(old(self).pairs@, i as int);
            }
            let ghost before = events@;
            if entry.intersecting != now {
                events.push(
                    PhysicsEvent::Intersection(
                        IntersectionEvent {
                            collider1: entry.pair.collider1,
                            collider2: entry.pair.collider2,
                            intersecting: now,
                        },
                    ),
                );
            }
            assert(events@ =~= before + overlap_news(entry, *colliders, *hooks));
            assert(events@ =~= old(events)@ + all_overlap_news(
                old(self).pairs@.take(i + 1),
                *colliders,
                *hooks,
            ));
            let mut updated = entry;
            updated.intersecting = now;
            self.pairs.set(i, updated);
            i = i + 1;
        }
        proof {
            lemma_take_all(old(self).pairs@);
        }
    }
}

/// Whether one of the colliders of `pair` is a sensor.
pub fn is_sensor(colliders: &ColliderSet, pair: ColliderPair) -> (sensor: bool)
    ensures
        sensor == has_sensor(*colliders, pair),
{
    let first: bool = match colliders.get(pair.collider1) {
        Some(c) => c.sensor,
        None => false,
    };
    let second: bool = match colliders.get(pair.collider2) {
        Some(c) => c.sensor,
        None => false,
    };
    first || second
}

/// Reports that the colliders of `entry` touch, or overlap, no longer.
pub fn say_farewell(entry: &ContactPair, events: &mut Vec<PhysicsEvent>)
    ensures
        final(events)@ == old(events)@ + farewell(*entry),
{
    if entry.manifold.is_some() {
        events.push(
            PhysicsEvent::Contact(ContactEvent::Stopped(entry.pair.collider1, entry.pair.collider2)),
        );
    } else if entry.intersecting {
        events.push(
            PhysicsEvent::Intersection(
                IntersectionEvent {
                    collider1: entry.pair.collider1,
                    collider2: entry.pair.collider2,
                    intersecting: false,
                },
            ),
        );
    }
    assert(events@ =~= old(events)@ + farewell(*entry));
}

/// How the colliders of `entry` touch, if they do.
pub fn contact_between<H: PhysicsHooks>(
    entry: &ContactPair,
    colliders: &ColliderSet,
    bodies: &RigidBodySet,
    margin: u64,
    hooks: &H,
) -> (contact: Option<ContactManifold>)
    ensures
        contact == touching(*entry, *colliders, *bodies, margin, *hooks),
{
    reveal(touching);
    if entry.sensor {
        return None;
    }
    match (colliders.get(entry.pair.collider1), colliders.get(entry.pair.collider2)) {
        (Some(c1), Some(c2)) => {
            if !hooks.filter_contact_pair(entry.pair.collider1, entry.pair.collider2) {
                return None;
            }
            let first: bool = match bodies.get(c1.parent) {
                Some(b) => b.is_dynamic(),
                None => false,
            };
            let second: bool = match bodies.get(c2.parent) {
                Some(b) => b.is_dynamic(),
                None => false,
            };
            if !first && !second {
                return None;
            }
            let aabb1 = c1.compute_aabb();
            let aabb2 = c2.compute_aabb();
            if !aabb1.is_within(&aabb2, margin) {
                return None;
            }
            let s = aabb1.separation_from(&aabb2);
            let impulse: i64 = match entry.manifold {
                Some(m) => m.impulse,
                None => 0,
            };
            Some(
                ContactManifold {
                    body1: c1.parent,
                    body2: c2.parent,
                    axis: s.axis,
                    positive: s.positive,
                    distance: hooks.modify_solver_contacts(
                        entry.pair.collider1,
                        entry.pair.collider2,
                        s.distance,
                    ),
                    impulse,
                },
            )
        },
        _ => None,
    }
}

/// Whether the colliders of `entry` overlap.
pub fn overlap_between<H: PhysicsHooks>(entry: &ContactPair, colliders: &ColliderSet, hooks: &H) -> (overlap:
    bool)
    ensures
        overlap == overlapping(*entry, *colliders, *hooks),
{
    reveal(overlapping);
    if !entry.sensor {
        return false;
    }
    match (colliders.get(entry.pair.collider1), colliders.get(entry.pair.collider2)) {
        (Some(c1), Some(c2)) => {
            if !hooks.filter_intersection_pair(entry.pair.collider1, entry.pair.collider2) {
                return false;
            }
            c1.compute_aabb().is_within(&c2.compute_aabb(), 0)
        },
        _ => false,
    }
}

} // verus!
