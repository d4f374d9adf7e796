//! Colliders, their builder and the set that holds them.

use crate::dynamics::rigid_body::RigidBody;
use crate::dynamics::rigid_body_set::{RigidBodyHandle, RigidBodySet};
use crate::geometry::shape::{Aabb, Shape};
use crate::math::Vector;
use crate::pipeline::physics_pipeline::moves;
use vstd::prelude::*;

verus! {

/// Names a collider of a `ColliderSet`. A handle is never given out twice.
#[derive(Copy, Clone, Debug, PartialEq, Eq, Structural)]
pub struct ColliderHandle(pub usize);

/// A shape attached to a rigid body.
#[derive(Copy, Clone, Debug, PartialEq, Eq, Structural)]
pub struct Collider {
    pub shape: Shape,
    /// The body that carries the collider.
    pub parent: RigidBodyHandle,
    /// Where the collider sits relative to its body.
    pub delta: Vector,
    /// Where the collider sits in the world.
    pub position: Vector,
    /// A sensor reports what it overlaps and pushes nothing.
    pub sensor: bool,
}

impl Collider {
    /// Bounds of the collider in the world.
    pub open spec fn aabb(self) -> Aabb {
        self.shape.bounds().moved(self.position)
    }

    /// The collider carried to where a body at `body_translation` holds it.
    pub open spec fn carried_to(self, body_translation: Vector) -> Collider {
        Collider { position: body_translation.sum(self.delta), ..self }
    }

    /// The collider as the body `parent`, `carrier` if it exists, holds it.
    pub open spec fn attached(self, parent: RigidBodyHandle, carrier: Option<RigidBody>) -> Collider {
        let owned = Collider { parent, ..self };
        match carrier {
            Some(body) => owned.carried_to(body.position.translation),
            None => Collider { position: self.delta, ..owned },
        }
    }

    /// Bounds of the collider in the world.
    pub fn compute_aabb(&self) -> (aabb: Aabb)
        ensures
            aabb == self.aabb(),
    {
        self.shape.local_aabb().translated(&self.position)
    }

    /// Carries the collider to where a body at `body_translation` holds it.
    pub fn set_parent_translation(&mut self, body_translation: &Vector)
        ensures
            *final(self) == old(self).carried_to(*body_translation),
    {
        self.position = body_translation.plus(&self.delta);
    }
}

/// Builds a collider step by step.
#[derive(Copy, Clone, Debug, PartialEq, Eq, Structural)]
pub struct ColliderBuilder {
    pub collider: Collider,
}

impl ColliderBuilder {
    /// A solid collider of the given shape, centred on its body, not yet
    /// attached to one.
    pub open spec fn initial(shape: Shape) -> Collider {
        Collider {
            shape,
            parent: RigidBodyHandle(usize::MAX),
            delta: Vector { x: 0, y: 0, z: 0 },
            position: Vector { x: 0, y: 0, z: 0 },
            sensor: false,
        }
    }

    /// Starts from a solid collider of the given shape.
    pub fn new(shape: Shape) -> (builder: ColliderBuilder)
        ensures
            builder.collider == ColliderBuilder::initial(shape),
    {
        ColliderBuilder {
            collider: Collider {
                shape,
                parent: RigidBodyHandle(usize::MAX),
                delta: Vector::zeros(),
                position: Vector::zeros(),
                sensor: false,
            },
        }
    }

    /// Starts from a ball of the given radius.
    pub fn ball(radius: i64) -> (builder: ColliderBuilder)
        ensures
            builder.collider == ColliderBuilder::initial(Shape::Ball { radius }),
    {
        ColliderBuilder::new(Shape::Ball { radius })
    }

    /// Starts from a box of the given half-extents.
    pub fn cuboid(hx: i64, hy: i64, hz: i64) -> (builder: ColliderBuilder)
        ensures
            builder.collider == ColliderBuilder::initial(
                Shape::Cuboid { half_extents: Vector { x: hx, y: hy, z: hz } },
            ),
    {
        ColliderBuilder::new(Shape::Cuboid { half_extents: Vector { x: hx, y: hy, z: hz } })
    }

    /// Starts from a block of voxels of the given half-extents.
    pub fn voxels(hx: i64, hy: i64, hz: i64) -> (builder: ColliderBuilder)
        ensures
            builder.collider == ColliderBuilder::initial(
                Shape::Voxels { half_extents: Vector { x: hx, y: hy, z: hz } },
            ),
    {
        ColliderBuilder::new(Shape::Voxels { half_extents: Vector { x: hx, y: hy, z: hz } })
    }

    /// Starts from a half-space: everything at or below the collider.
    pub fn halfspace() -> (builder: ColliderBuilder)
        ensures
            builder.collider == ColliderBuilder::initial(Shape::HalfSpace),
    {
        ColliderBuilder::new(Shape::HalfSpace)
    }

    /// Sets where the collider sits relative to its body.
    pub fn translation(self, x: i64, y: i64, z: i64) -> (builder: ColliderBuilder)
        ensures
            builder.collider == (Collider { delta: Vector { x, y, z }, ..self.collider }),
    {
        let mut builder = self;
        builder.collider.delta = Vector { x, y, z };
        builder
    }

    /// Sets whether the collider is a sensor.
    pub fn sensor(self, sensor: bool) -> (builder: ColliderBuilder)
        ensures
            builder.collider == (Collider { sensor, ..self.collider }),
    {
        let mut builder = self;
        builder.collider.sensor = sensor;
        builder
    }

    /// The collider that was described.
    pub fn build(&self) -> (collider: Collider)
        ensures
            collider == self.collider,
    {
        self.collider
    }
}

/// The colliders of a world.
pub struct ColliderSet {
    /// One slot per handle ever given out; empty once the collider is removed.
    pub slots: Vec<Option<Collider>>,
    /// Colliders inserted since collision detection last ran.
    pub modified_colliders: Vec<ColliderHandle>,
}

impl ColliderSet {
    /// Whether `handle` names a collider of the set.
    pub open spec fn contains(self, handle: ColliderHandle) -> bool {
        handle.0 < self.slots@.len() && self.slots@[handle.0 as int] is Some
    }

    /// The collider that `handle` names.
    pub open spec fn collider(self, handle: ColliderHandle) -> Collider {
        self.slots@[handle.0 as int]->Some_0
    }

    /// The slots once every collider whose body is gone has been dropped.
    pub open spec fn without_orphans(self, bodies: RigidBodySet) -> Seq<Option<Collider>> {
        Seq::new(
            self.slots@.len(),
            |i: int|
                if self.slots@[i] is Some && bodies.contains(self.slots@[i]->Some_0.parent) {
                    self.slots@[i]
                } else {
                    None
                },
        )
    }

    /// The slots once every collider attached to `body` has been dropped.
    pub open spec fn without_children_of(self, body: RigidBodyHandle) -> Seq<Option<Collider>> {
        Seq::new(
            self.slots@.len(),
            |i: int|
                if self.slots@[i] is Some && self.slots@[i]->Some_0.parent == body {
                    None
                } else {
                    self.slots@[i]
                },
        )
    }

    /// The slots once every collider has been carried to where its body is.
    pub open spec fn carried(self, bodies: RigidBodySet) -> Seq<Option<Collider>> {
        Seq::new(
            self.slots@.len(),
            |i: int|
                if self.slots@[i] is Some && bodies.contains(self.slots@[i]->Some_0.parent) {
                    Some(
                        self.slots@[i]->Some_0.carried_to(
                            bodies.body(self.slots@[i]->Some_0.parent).position.translation,
                        ),
                    )
                } else {
                    self.slots@[i]
                },
        )
    }

    /// The slots once every collider of a body that moves has been carried
    /// to where its body is; the colliders of the other bodies stay where
    /// they are.
    pub open spec fn carried_by_moving(self, bodies: RigidBodySet) -> Seq<Option<Collider>> {
        Seq::new(
            self.slots@.len(),
            |i: int|
                if self.slots@[i] is Some && bodies.contains(self.slots@[i]->Some_0.parent) && moves(
                    bodies,
                    self.slots@[i]->Some_0.parent.0 as int,
                ) {
                    Some(
                        self.slots@[i]->Some_0.carried_to(
                            bodies.body(self.slots@[i]->Some_0.parent).position.translation,
                        ),
                    )
                } else {
                    self.slots@[i]
                },
        )
    }

    /// An empty set.
    pub fn new() -> (set: ColliderSet)
        ensures
            set.slots@.len() == 0,
            set.modified_colliders@.len() == 0,
    {
        ColliderSet { slots: Vec::new(), modified_colliders: Vec::new() }
    }

    /// Number of handles given out so far.
    pub fn len(&self) -> (n: usize)
        ensures
            n == self.slots@.len(),
    {
        self.slots.len()
    }

    /// The collider that `handle` names, if there is one.
    pub fn get(&self, handle: ColliderHandle) -> (found: Option<Collider>)
        ensures
            found == if self.contains(handle) {
                Some(self.collider(handle))
            } else {
                None
            },
    {
        if handle.0 < self.slots.len() {
            self.slots[handle.0]
        } else {
            None
        }
    }

    /// Attaches `collider` to the body `parent` and adds it to the set. The
    /// collider is placed where the body holds it, and the body learns how
    /// thin its thinnest collider is. With no such body the collider is kept
    /// where it is until the next step drops it.
    pub fn insert(&mut self, collider: Collider, parent: RigidBodyHandle, bodies: &mut RigidBodySet) -> (handle:
        ColliderHandle)
        ensures
            handle.0 == old(self).slots@.len(),
            final(self).slots@ == old(self).slots@.push(
                Some(
                    collider.attached(
                        parent,
                        if old(bodies).contains(parent) {
                            Some(old(bodies).body(parent))
                        } else {
                            None
                        },
                    ),
                ),
            ),
            final(self).modified_colliders@ == old(self).modified_colliders@.push(handle),
            final(bodies).is_thinned(*old(bodies), parent, collider.shape.thickness()),
    {
        let mut attached = collider;
        attached.parent = parent;
        match bodies.get(parent) {
            Some(body) => {
                attached.set_parent_translation(&body.position.translation);
            },
            None => {
                attached.position = attached.delta;
            },
        }
        bodies.note_thickness(parent, collider.shape.ccd_thickness());
        let handle = ColliderHandle(self.slots.len());
        self.slots.push(Some(attached));
        self.modified_colliders.push(handle);
        handle
    }

    /// Removes the collider that `handle` names and returns it.
    pub fn remove(&mut self, handle: ColliderHandle) -> (removed: Option<Collider>)
        ensures
            removed == if old(self).contains(handle) {
                Some(old(self).collider(handle))
            } else {
                None
            },
            final(self).slots@ == if old(self).contains(handle) {
                old(self).slots@.update(handle.0 as int, None)
            } else {
                old(self).slots@
            },
            final(self).modified_colliders@ == old(self).modified_colliders@,
    {
        if handle.0 < self.slots.len() {
            let removed = self.slots[handle.0];
            if removed.is_some() {
                self.slots.set(handle.0, None);
            }
            removed
        } else {
            None
        }
    }

    /// Gives the collider that `handle` names another shape, and tells
    /// whether there is such a collider.
    pub fn set_shape(&mut self, handle: ColliderHandle, shape: Shape) -> (changed: bool)
        ensures
            changed == old(self).contains(handle),
            final(self).slots@ == if old(self).contains(handle) {
                old(self).slots@.update(
                    handle.0 as int,
                    Some(Collider { shape, ..old(self).collider(handle) }),
                )
            } else {
                old(self).slots@
            },
            final(self).modified_colliders@ == old(self).modified_colliders@,
    {
        match self.get(handle) {
            Some(collider) => {
                let mut reshaped = collider;
                reshaped.shape = shape;
                self.slots.set(handle.0, Some(reshaped));
                true
            },
            None => false,
        }
    }

    /// Removes every collider attached to `body`.
    pub fn remove_children_of(&mut self, body: RigidBodyHandle)
        ensures
            final(self).slots@ == old(self).without_children_of(body),
            final(self).modified_colliders@ == old(self).modified_colliders@,
    {
        let n: usize = self.slots.len();
        let mut i: usize = 0;
        while i < n
            invariant
                i <= n,
                n == self.slots@.len(),
                n == old(self).slots@.len(),
                self.modified_colliders@ == old(self).modified_colliders@,
                forall|k: int| 0 <= k < i ==> self.slots@[k] == old(self).without_children_of(body)[k],
                forall|k: int| i <= k < n ==> self.slots@[k] == old(self).slots@[k],
            decreases n - i,
        {
            match self.slots[i] {
                Some(c) => {
                    if c.parent.0 == body.0 {
                        self.slots.set(i, None);
                    }
                },
                None => {},
            }
            i = i + 1;
        }
        assert(self.slots@ =~= old(self).without_children_of(body));
    }

    /// Drops every collider whose body is gone, so that nothing refers to a
    /// removed body any more.
    pub fn handle_user_changes(&mut self, bodies: &RigidBodySet)
        ensures
            final(self).slots@ == old(self).without_orphans(*bodies),
            final(self).modified_colliders@ == old(self).modified_colliders@,
    {
        let n: usize = self.slots.len();
        let mut i: usize = 0;
        while i < n
            invariant
                i <= n,
                n == self.slots@.len(),
                n == old(self).slots@.len(),
                self.modified_colliders@ == old(self).modified_colliders@,
                forall|k: int| 0 <= k < i ==> self.slots@[k] == old(self).without_orphans(*bodies)[k],
                forall|k: int| i <= k < n ==> self.slots@[k] == old(self).slots@[k],
            decreases n - i,
        {
            match self.slots[i] {
                Some(c) => {
                    if bodies.get(c.parent).is_none() {
                        self.slots.set(i, None);
                    }
                },
                None => {},
            }
            i = i + 1;
        }
        assert(self.slots@ =~= old(self).without_orphans(*bodies));
    }

    /// Carries every collider to where its body is.
    pub fn update_positions(&mut self, bodies: &RigidBodySet)
        ensures
            final(self).slots@ == old(self).carried(*bodies),
            final(self).modified_colliders@ == old(self).modified_colliders@,
    {
        let n: usize = self.slots.len();
        let mut i: usize = 0;
        while i < n
            invariant
                i <= n,
                n == self.slots@.len(),
                n == old(self).slots@.len(),
                self.modified_colliders@ == old(self).modified_colliders@,
                forall|k: int| 0 <= k < i ==> self.slots@[k] == old(self).carried(*bodies)[k],
                forall|k: int| i <= k < n ==> self.slots@[k] == old(self).slots@[k],
            decreases n - i,
        {
            match self.slots[i] {
                Some(c) => {
                    match bodies.get(c.parent) {
                        Some(body) => {
                            let mut moved = c;
                            moved.set_parent_translation(&body.position.translation);
                            self.slots.set(i, Some(moved));
                        },
                        None => {},
                    }
                },
                None => {},
            }
            i = i + 1;
        }
        assert(self.slots@ =~= old(self).carried(*bodies));
    }

    /// Carries every collider of a body that moves, a dynamic body of the
    /// active set or a kinematic body, to where its body is. The colliders
    /// of the other bodies are left where they are.
    pub fn update_positions_of_moving(&mut self, bodies: &RigidBodySet)
        ensures
            final(self).slots@ == old(self).carried_by_moving(*bodies),
            final(self).modified_colliders@ == old(self).modified_colliders@,
    {
        let n: usize = self.slots.len();
        let mut i: usize = 0;
        while i < n
            invariant
                i <= n,
                n == self.slots@.len(),
                n == old(self).slots@.len(),
                self.modified_colliders@ == old(self).modified_colliders@,
                forall|k: int| 0 <= k < i ==> self.slots@[k] == old(self).carried_by_moving(*bodies)[k],
                forall|k: int| i <= k < n ==> self.slots@[k] == old(self).slots@[k],
            decreases n - i,
        {
            match self.slots[i] {
                Some(c) => {
                    match bodies.get(c.parent) {
                        Some(body) => {
                            if body.placement.is_some() || body.is_kinematic() {
                                let mut moved = c;
                                moved.set_parent_translation(&body.position.translation);
                                self.slots.set(i, Some(moved));
                            }
                        },
                        None => {},
                    }
                },
                None => {},
            }
            i = i + 1;
        }
        assert(self.slots@ =~= old(self).carried_by_moving(*bodies));
    }

    /// Forgets which colliders were inserted since collision detection last ran.
    pub fn clear_modified_colliders(&mut self)
        ensures
            final(self).slots@ == old(self).slots@,
            final(self).modified_colliders@.len() == 0,
    {
        self.modified_colliders.clear();
    }
}

} // verus!
