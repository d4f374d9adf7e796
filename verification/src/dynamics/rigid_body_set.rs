//! The rigid bodies of a world and the set of those that are being simulated.
//!
//! The active dynamic set lists the dynamic bodies that are awake. It is cut
//! into islands: island `i` is the stretch of the set from
//! `active_islands[i]` up to `active_islands[i + 1]`, so every active body
//! belongs to exactly one island.

use crate::dynamics::joint::joint_set::JointSet;
use crate::dynamics::rigid_body::{Placement, RigidBody};
use crate::geometry::collider::ColliderSet;
use crate::math::{Isometry, Vector};
use vstd::prelude::*;

verus! {

/// Names a body of a `RigidBodySet`. A handle is never given out twice.
#[derive(Copy, Clone, Debug, PartialEq, Eq, Structural)]
pub struct RigidBodyHandle(pub usize);

/// The rigid bodies of a world.
#[derive(Clone, Debug)]
pub struct RigidBodySet {
    /// One slot per handle ever given out; empty once the body is removed.
    pub slots: Vec<Option<RigidBody>>,
    /// Slots of the dynamic bodies that are being simulated.
    pub active_dynamic_set: Vec<usize>,
    /// Where each island starts in the active dynamic set, and, last, where
    /// the last one ends.
    pub active_islands: Vec<usize>,
    /// Bodies that the user moved while they were not being simulated.
    pub modified_inactive_set: Vec<RigidBodyHandle>,
}

/// The body without its place in the active set.
pub open spec fn unplaced(body: RigidBody) -> RigidBody {
    RigidBody { placement: None, ..body }
}

/// Whether two slots hold the same body, its place in the active set aside.
pub open spec fn same_body(a: Option<RigidBody>, b: Option<RigidBody>) -> bool {
    match (a, b) {
        (Some(x), Some(y)) => unplaced(x) == unplaced(y),
        (None, None) => true,
        _ => false,
    }
}

impl RigidBodySet {
    /// Whether slot `i` holds a body.
    pub open spec fn live(self, i: int) -> bool {
        0 <= i < self.slots@.len() && self.slots@[i] is Some
    }

    /// The body in slot `i`.
    pub open spec fn at(self, i: int) -> RigidBody {
        self.slots@[i]->Some_0
    }

    /// Whether `handle` names a body of the set.
    pub open spec fn contains(self, handle: RigidBodyHandle) -> bool {
        self.live(handle.0 as int)
    }

    /// The body that `handle` names.
    pub open spec fn body(self, handle: RigidBodyHandle) -> RigidBody {
        self.at(handle.0 as int)
    }

    /// Whether slot `i` holds a dynamic body that is awake.
    pub open spec fn awake_dynamic(self, i: int) -> bool {
        self.live(i) && self.at(i).dynamic() && !self.at(i).sleeping
    }

    /// Whether slot `i` holds a kinematic body.
    pub open spec fn kinematic_at(self, i: int) -> bool {
        self.live(i) && self.at(i).kinematic()
    }

    /// Whether slot `i` holds a body of the active dynamic set.
    pub open spec fn active(self, i: int) -> bool {
        self.live(i) && self.at(i).placement is Some
    }

    /// The island of the active body in slot `i`.
    pub open spec fn island_of(self, i: int) -> int {
        self.at(i).placement->Some_0.island as int
    }

    /// Number of islands.
    pub open spec fn island_count(self) -> int {
        if self.active_islands@.len() == 0 {
            0
        } else {
            self.active_islands@.len() - 1
        }
    }

    /// Whether the stretch of island `island` covers index `k` of the active set.
    pub open spec fn island_covers(self, island: int, k: int) -> bool {
        0 <= island < self.island_count() && self.active_islands@[island] <= k
            < self.active_islands@[island + 1]
    }

    /// Whether the active set, the islands and the places recorded in the
    /// bodies agree: every entry of the set is a dynamic body that knows its
    /// index and its island, no body is listed twice, and the islands cut the
    /// set into consecutive stretches.
    pub open spec fn islands_wf(self) -> bool {
        let set = self.active_dynamic_set@;
        let starts = self.active_islands@;
        &&& starts.len() >= 1
        &&& starts[0] == 0
        &&& starts.last() == set.len()
        &&& forall|i: int, j: int| 0 <= i <= j < starts.len() ==> starts[i] <= starts[j]
        &&& forall|k: int|
            0 <= k < set.len() ==> {
                &&& self.active(#[trigger] set[k] as int)
                &&& self.at(set[k] as int).dynamic()
                &&& self.at(set[k] as int).placement->Some_0.offset == k
                &&& self.island_covers(self.island_of(set[k] as int), k)
            }
        &&& forall|i: int| #[trigger]
            self.active(i) ==> {
                &&& self.at(i).placement->Some_0.offset < set.len()
                &&& set[self.at(i).placement->Some_0.offset as int] == i
            }
    }

    /// Whether the two sets hold the same bodies, their places in the active
    /// set aside.
    pub open spec fn same_bodies(self, other: RigidBodySet) -> bool {
        &&& self.slots@.len() == other.slots@.len()
        &&& forall|i: int|
            0 <= i < self.slots@.len() ==> same_body(#[trigger] self.slots@[i], other.slots@[i])
    }

    /// Whether the two sets agree on the active set, on the islands and on
    /// the bodies moved while inactive.
    pub open spec fn same_sets(self, other: RigidBodySet) -> bool {
        &&& self.active_dynamic_set@ == other.active_dynamic_set@
        &&& self.active_islands@ == other.active_islands@
        &&& self.modified_inactive_set@ == other.modified_inactive_set@
    }

    /// The slots with the body `handle`, if it exists, replaced by `body`.
    pub open spec fn slots_with(self, handle: RigidBodyHandle, body: RigidBody) -> Seq<
        Option<RigidBody>,
    > {
        if self.contains(handle) {
            self.slots@.update(handle.0 as int, Some(body))
        } else {
            self.slots@
        }
    }

    /// The body `handle` once it has learnt of a collider of the given thickness.
    pub open spec fn thinned_body(self, handle: RigidBodyHandle, thickness: i64) -> RigidBody {
        RigidBody {
            ccd_thickness: if thickness < self.body(handle).ccd_thickness {
                thickness
            } else {
                self.body(handle).ccd_thickness
            },
            ..self.body(handle)
        }
    }

    /// An empty set.
    pub fn new() -> (set: RigidBodySet)
        ensures
            set.slots@.len() == 0,
            set.active_dynamic_set@.len() == 0,
            set.active_islands@ == seq![0usize],
            set.modified_inactive_set@.len() == 0,
            set.islands_wf(),
    {
        let mut active_islands: Vec<usize> = Vec::new();
        active_islands.push(0);
        RigidBodySet {
            slots: Vec::new(),
            active_dynamic_set: Vec::new(),
            active_islands,
            modified_inactive_set: Vec::new(),
        }
    }

    /// Number of handles given out so far.
    pub fn len(&self) -> (n: usize)
        ensures
            n == self.slots@.len(),
    {
        self.slots.len()
    }

    /// Number of islands that the active set is cut into.
    pub fn num_islands(&self) -> (n: usize)
        ensures
            n == self.island_count(),
    {
        if self.active_islands.len() == 0 {
            0
        } else {
            self.active_islands.len() - 1
        }
    }

    /// Adds a body and returns its handle. The body joins the simulation at
    /// the next step.
    pub fn insert(&mut self, body: RigidBody) -> (handle: RigidBodyHandle)
        ensures
            handle.0 == old(self).slots@.len(),
            final(self).slots@ == old(self).slots@.push(Some(unplaced(body))),
            final(self).same_sets(*old(self)),
    {
        let mut stored = body;
        stored.placement = None;
        let handle = RigidBodyHandle(self.slots.len());
        self.slots.push(Some(stored));
        handle
    }

    /// The body that `handle` names, if there is one.
    pub fn get(&self, handle: RigidBodyHandle) -> (found: Option<RigidBody>)
        ensures
            found == if self.contains(handle) {
                Some(self.body(handle))
            } else {
                None
            },
    {
        if handle.0 < self.slots.len() {
            self.slots[handle.0]
        } else {
            None
        }
    }

    /// Removes a body, with the colliders attached to it and the joints that
    /// hold it, and returns it.
    pub fn remove(&mut self, handle: RigidBodyHandle, colliders: &mut ColliderSet, joints: &mut JointSet) -> (removed:
        Option<RigidBody>)
        ensures
            removed == if old(self).contains(handle) {
                Some(old(self).body(handle))
            } else {
                None
            },
            final(self).slots@ == if old(self).contains(handle) {
                old(self).slots@.update(handle.0 as int, None)
            } else {
                old(self).slots@
            },
            final(self).same_sets(*old(self)),
            final(colliders).slots@ == if old(self).contains(handle) {
                old(colliders).without_children_of(handle)
            } else {
                old(colliders).slots@
            },
            final(colliders).modified_colliders@ == old(colliders).modified_colliders@,
            final(joints).slots@ == if old(self).contains(handle) {
                old(joints).without_joints_of(handle)
            } else {
                old(joints).slots@
            },
    {
        if handle.0 < self.slots.len() {
            let removed = self.slots[handle.0];
            if removed.is_some() {
                self.slots.set(handle.0, None);
                colliders.remove_children_of(handle);
                joints.remove_joints_attached_to(handle);
            }
            removed
        } else {
            None
        }
    }

    /// Replaces the data of a body that exists.
    fn store(&mut self, handle: RigidBodyHandle, body: RigidBody)
        requires
            old(self).contains(handle),
        ensures
            final(self).slots@ == old(self).slots@.update(handle.0 as int, Some(body)),
            final(self).same_sets(*old(self)),
    {
        self.slots.set(handle.0, Some(body));
    }

    /// Tells the body `handle` of a collider of the given thickness.
    pub fn note_thickness(&mut self, handle: RigidBodyHandle, thickness: i64)
        ensures
            final(self).is_thinned(*old(self), handle, thickness),
    {
        match self.get(handle) {
            Some(body) => {
                if thickness < body.ccd_thickness {
                    let mut thinner = body;
                    thinner.ccd_thickness = thickness;
                    self.store(handle, thinner);
                }
            },
            None => {},
        }
        assert(self.slots@ =~= old(self).slots_with(handle, old(self).thinned_body(handle, thickness)));
    }

    /// Whether `self` is `before` after the body `handle` has learnt of a
    /// collider of the given thickness.
    pub open spec fn is_thinned(self, before: RigidBodySet, handle: RigidBodyHandle, thickness: i64) -> bool {
        &&& self.slots@ == before.slots_with(handle, before.thinned_body(handle, thickness))
        &&& self.same_sets(before)
    }

    /// Prescribes where a body is at the end of the next step. This is how a
    /// kinematic body is moved.
    pub fn set_next_kinematic_position(&mut self, handle: RigidBodyHandle, pose: Isometry)
        ensures
            final(self).slots@ == old(self).slots_with(
                handle,
                RigidBody { next_position: pose, ..old(self).body(handle) },
            ),
            final(self).same_sets(*old(self)),
    {
        match self.get(handle) {
            Some(body) => {
                let mut moved = body;
                moved.next_position = pose;
                self.store(handle, moved);
            },
            None => {},
        }
    }

    /// Puts a body somewhere else at once. A body that is not being
    /// simulated is noted as moved while inactive.
    pub fn set_position(&mut self, handle: RigidBodyHandle, pose: Isometry)
        ensures
            final(self).slots@ == old(self).slots_with(
                handle,
                RigidBody { position: pose, next_position: pose, ..old(self).body(handle) },
            ),
            final(self).active_dynamic_set@ == old(self).active_dynamic_set@,
            final(self).active_islands@ == old(self).active_islands@,
            final(self).modified_inactive_set@ == if old(self).contains(handle) && old(self).body(
                handle,
            ).placement is None {
                old(self).modified_inactive_set@.push(handle)
            } else {
                old(self).modified_inactive_set@
            },
    {
        match self.get(handle) {
            Some(body) => {
                let mut moved = body;
                moved.position = pose;
                moved.next_position = pose;
                self.store(handle, moved);
                if body.placement.is_none() {
                    self.modified_inactive_set.push(handle);
                }
            },
            None => {},
        }
    }

    /// Sets the linear velocity of a body.
    pub fn set_linvel(&mut self, handle: RigidBodyHandle, linvel: Vector)
        ensures
            final(self).slots@ == old(self).slots_with(
                handle,
                RigidBody { linvel, ..old(self).body(handle) },
            ),
            final(self).same_sets(*old(self)),
    {
        match self.get(handle) {
            Some(body) => {
                let mut changed = body;
                changed.linvel = linvel;
                self.store(handle, changed);
            },
            None => {},
        }
    }

    /// Puts a body to sleep or wakes it. The change takes effect at the next step.
    pub fn set_sleeping(&mut self, handle: RigidBodyHandle, sleeping: bool)
        ensures
            final(self).slots@ == old(self).slots_with(
                handle,
                RigidBody { sleeping, ..old(self).body(handle) },
            ),
            final(self).same_sets(*old(self)),
    {
        match self.get(handle) {
            Some(body) => {
                let mut changed = body;
                changed.sleeping = sleeping;
                self.store(handle, changed);
            },
            None => {},
        }
    }

    /// Whether `self` lists, in one island and in the order of their slots,
    /// exactly the dynamic bodies of `before` that are awake.
    pub open spec fn settles(self, before: RigidBodySet) -> bool {
        &&& self.same_bodies(before)
        &&& self.islands_wf()
        &&& self.active_islands@ == seq![0usize, self.active_dynamic_set@.len() as usize]
        &&& forall|i: int|
            0 <= i < self.slots@.len() ==> (#[trigger] self.active(i) <==> before.awake_dynamic(i))
        &&& forall|j: int, k: int|
            0 <= j < k < self.active_dynamic_set@.len() ==> self.active_dynamic_set@[j]
                < self.active_dynamic_set@[k]
        &&& self.modified_inactive_set@ == before.modified_inactive_set@
    }

    /// Takes in what the user changed since the last step: the active set is
    /// rebuilt from the dynamic bodies that are awake, as one island, and
    /// every collider is carried to where its body is.
    pub fn handle_user_changes(&mut self, colliders: &mut ColliderSet)
        ensures
            final(self).settles(*old(self)),
            final(colliders).slots@ == old(colliders).carried(*old(self)),
            final(colliders).modified_colliders@ == old(colliders).modified_colliders@,
    {
        colliders.update_positions(self);
        self.active_dynamic_set.clear();
        let n: usize = self.slots.len();
        let mut i: usize = 0;
        while i < n
            invariant
                i <= n,
                n == self.slots@.len(),
                n == old(self).slots@.len(),
                self.modified_inactive_set@ == old(self).modified_inactive_set@,
                self.active_dynamic_set@.len() <= i,
                forall|k: int| 0 <= k < n ==> same_body(#[trigger] self.slots@[k], old(self).slots@[k]),
                forall|k: int| i <= k < n ==> self.slots@[k] == old(self).slots@[k],
                forall|k: int|
                    0 <= k < i ==> (self.active(k) <==> #[trigger] old(self).awake_dynamic(k)),
                forall|k: int|
                    0 <= k < self.active_dynamic_set@.len() ==> {
                        &&& (#[trigger] self.active_dynamic_set@[k]) < i
                        &&& self.active(self.active_dynamic_set@[k] as int)
                        &&& self.at(self.active_dynamic_set@[k] as int).dynamic()
                        &&& self.at(self.active_dynamic_set@[k] as int).placement == Some(
                            Placement { island: 0, offset: k as usize },
                        )
                    },
                forall|k: int|
                    0 <= k < i && #[trigger] old(self).awake_dynamic(k) ==> {
                        &&& self.at(k).placement->Some_0.offset < self.active_dynamic_set@.len()
                        &&& self.active_dynamic_set@[self.at(k).placement->Some_0.offset as int] == k
                    },
                forall|j: int, k: int|
                    0 <= j < k < self.active_dynamic_set@.len() ==> self.active_dynamic_set@[j]
                        < self.active_dynamic_set@[k],
            decreases n - i,
        {
            match self.slots[i] {
                Some(body) => {
                    let mut placed = body;
                    if body.is_dynamic() && !body.sleeping {
                        placed.placement = Some(
                            Placement { island: 0, offset: self.active_dynamic_set.len() },
                        );
                        self.active_dynamic_set.push(i);
                    } else {
                        placed.placement = None;
                    }
                    self.slots.set(i, Some(placed));
                },
                None => {},
            }
            i = i + 1;
        }
        self.active_islands.clear();
        self.active_islands.push(0);
        self.active_islands.push(self.active_dynamic_set.len());
        proof {
            assert forall|k: int| 0 <= k < n implies (#[trigger] self.active(k)
                <==> old(self).awake_dynamic(k)) by {}
            assert forall|k: int| #[trigger] self.active(k) implies {
                &&& self.at(k).placement->Some_0.offset < self.active_dynamic_set@.len()
                &&& self.active_dynamic_set@[self.at(k).placement->Some_0.offset as int] == k
            } by {
                assert(old(self).awake_dynamic(k));
            }
            assert(self.active_islands@ =~= seq![0usize, self.active_dynamic_set@.len() as usize]);
            assert(self.island_count() == 1);
            assert(self.same_bodies(*old(self)));
            assert(self.islands_wf());
        }
    }

    /// Forgets which bodies were moved while inactive.
    pub fn clear_modified_inactive_set(&mut self)
        ensures
            final(self).slots@ == old(self).slots@,
            final(self).active_dynamic_set@ == old(self).active_dynamic_set@,
            final(self).active_islands@ == old(self).active_islands@,
            final(self).modified_inactive_set@.len() == 0,
    {
        self.modified_inactive_set.clear();
    }
}

/// The islands partition the active set: no body stands at two places of the
/// set, and every active body belongs to exactly one island.
pub proof fn lemma_islands_partition(bodies: RigidBodySet)
    requires
        bodies.islands_wf(),
    ensures
        forall|j: int, k: int|
            0 <= j < k < bodies.active_dynamic_set@.len() ==> bodies.active_dynamic_set@[j]
                != bodies.active_dynamic_set@[k],
        forall|k: int, island: int|
            0 <= k < bodies.active_dynamic_set@.len() ==> (#[trigger] bodies.island_covers(island, k)
                <==> island == bodies.island_of(bodies.active_dynamic_set@[k] as int)),
{
    let set = bodies.active_dynamic_set@;
    let starts = bodies.active_islands@;
    assert forall|j: int, k: int| 0 <= j < k < set.len() implies set[j] != set[k] by {
        assert(bodies.active(set[j] as int));
        assert(bodies.active(set[k] as int));
    }
    assert forall|k: int, island: int| 0 <= k < set.len() implies (#[trigger] bodies.island_covers(island, k)
        <==> island == bodies.island_of(set[k] as int)) by {
        let own = bodies.island_of(set[k] as int);
        assert(bodies.active(set[k] as int));
        assert(bodies.island_covers(own, k));
        if bodies.island_covers(island, k) && island != own {
            if island < own {
                assert(starts[island + 1] <= starts[own]);
            } else {
                assert(starts[own + 1] <= starts[island]);
            }
        }
    }
}

} // verus!
