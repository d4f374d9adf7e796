//! A rigid body and its builder.

use crate::math::{Isometry, Vector};
use vstd::prelude::*;

verus! {

/// How a body takes part in the simulation.
#[derive(Copy, Clone, Debug, PartialEq, Eq, Structural)]
pub enum BodyStatus {
    /// Moved by forces and contacts.
    Dynamic,
    /// Never moves.
    Static,
    /// Moved by the user, who prescribes its next position; it pushes dynamic
    /// bodies and is pushed by nothing.
    Kinematic,
}

/// Where an active dynamic body stands in the active set.
#[derive(Copy, Clone, Debug, PartialEq, Eq, Structural)]
pub struct Placement {
    /// The island that the body belongs to.
    pub island: usize,
    /// Index of the body in the active dynamic set.
    pub offset: usize,
}

/// A rigid body.
#[derive(Copy, Clone, Debug, PartialEq, Eq, Structural)]
pub struct RigidBody {
    /// Pose at the start of the current substep.
    pub position: Isometry,
    /// Pose that the body will take when the substep is committed.
    pub next_position: Isometry,
    /// Linear velocity, in units per second.
    pub linvel: Vector,
    /// Angular velocity, in rotation units per second.
    pub angvel: Vector,
    /// Force accumulated for the next solve.
    pub force: Vector,
    /// Mass; a massless body is not accelerated by forces.
    pub mass: u64,
    /// Centre of mass, relative to the body.
    pub local_com: Vector,
    /// Centre of mass, in the world.
    pub world_com: Vector,
    pub status: BodyStatus,
    /// A sleeping dynamic body is left out of the solve until something wakes it.
    pub sleeping: bool,
    /// Whether continuous collision detection watches this body.
    pub ccd_enabled: bool,
    /// Whether the body was found fast enough, at the start of the step, to
    /// pass through something.
    pub ccd_active: bool,
    /// Half of the smallest extent of the colliders attached to the body.
    pub ccd_thickness: i64,
    /// Set while the body is in the active dynamic set.
    pub placement: Option<Placement>,
}

impl RigidBody {
    /// Whether the body is dynamic.
    pub open spec fn dynamic(self) -> bool {
        self.status == BodyStatus::Dynamic
    }

    /// Whether the body is kinematic.
    pub open spec fn kinematic(self) -> bool {
        self.status == BodyStatus::Kinematic
    }

    /// Whether the body has a velocity.
    pub open spec fn moving(self) -> bool {
        self.linvel != (Vector { x: 0, y: 0, z: 0 }) || self.angvel != (Vector { x: 0, y: 0, z: 0 })
    }

    /// The body with the velocity that takes it from its position to its
    /// next position in `dt` ticks.
    pub open spec fn interpolated(self, dt: u64) -> RigidBody {
        RigidBody {
            linvel: self.next_position.translation.difference(self.position.translation).per(dt),
            angvel: self.next_position.rotation.difference(self.position.rotation).per(dt),
            ..self
        }
    }

    /// The body with its centre of mass placed in the world.
    pub open spec fn with_world_mass_properties(self) -> RigidBody {
        RigidBody { world_com: self.position.translation.sum(self.local_com), ..self }
    }

    /// The body with its weight under `gravity` added to its force.
    pub open spec fn with_gravity(self, gravity: Vector) -> RigidBody {
        RigidBody { force: self.force.sum(gravity.times(self.mass)), ..self }
    }

    /// The body at the end of a substep: at its next position, and at rest if
    /// it is kinematic.
    pub open spec fn committed(self) -> RigidBody {
        if self.kinematic() {
            RigidBody {
                position: self.next_position,
                linvel: Vector { x: 0, y: 0, z: 0 },
                angvel: Vector { x: 0, y: 0, z: 0 },
                ..self
            }
        } else {
            RigidBody { position: self.next_position, ..self }
        }
    }

    /// Whether the body is dynamic.
    pub fn is_dynamic(&self) -> (r: bool)
        ensures
            r == self.dynamic(),
    {
        match self.status {
            BodyStatus::Dynamic => true,
            _ => false,
        }
    }

    /// Whether the body is kinematic.
    pub fn is_kinematic(&self) -> (r: bool)
        ensures
            r == self.kinematic(),
    {
        match self.status {
            BodyStatus::Kinematic => true,
            _ => false,
        }
    }

    /// Whether the body is static.
    pub fn is_static(&self) -> (r: bool)
        ensures
            r == (self.status == BodyStatus::Static),
    {
        match self.status {
            BodyStatus::Static => true,
            _ => false,
        }
    }

    /// Whether the body has a velocity.
    pub fn is_moving(&self) -> (r: bool)
        ensures
            r == self.moving(),
    {
        self.linvel.x != 0 || self.linvel.y != 0 || self.linvel.z != 0 || self.angvel.x != 0
            || self.angvel.y != 0 || self.angvel.z != 0
    }

    /// Gives the body the velocity that takes it from its position to its
    /// next position in `dt` ticks; no velocity when `dt` is zero.
    pub fn compute_velocity_from_next_position(&mut self, dt: u64)
        ensures
            *final(self) == old(self).interpolated(dt),
    {
        self.linvel = self.next_position.translation.minus(&self.position.translation).differentiate(
            dt,
        );
        self.angvel = self.next_position.rotation.minus(&self.position.rotation).differentiate(dt);
    }

    /// Places the centre of mass in the world.
    pub fn update_world_mass_properties(&mut self)
        ensures
            *final(self) == old(self).with_world_mass_properties(),
    {
        self.world_com = self.position.translation.plus(&self.local_com);
    }

    /// Adds the body's weight under `gravity` to its force.
    pub fn add_gravity(&mut self, gravity: Vector)
        ensures
            *final(self) == old(self).with_gravity(gravity),
    {
        self.force = self.force.plus(&gravity.scaled(self.mass));
    }

    /// Ends the substep for this body.
    pub fn commit(&mut self)
        ensures
            *final(self) == old(self).committed(),
    {
        if self.is_kinematic() {
            self.linvel = Vector::zeros();
            self.angvel = Vector::zeros();
        }
        self.position = self.next_position;
    }
}

/// A kinematic body that is told to go from its position to its next
/// position in `dt` ticks is given the velocity that covers the way in that
/// time; once the substep is committed it is where it was told to go, at rest.
pub proof fn lemma_kinematic_body_follows(body: RigidBody, dt: u64)
    requires
        body.kinematic(),
    ensures
        body.interpolated(dt).linvel == body.next_position.translation.difference(
            body.position.translation,
        ).per(dt),
        body.interpolated(dt).angvel == body.next_position.rotation.difference(body.position.rotation).per(
            dt,
        ),
        body.interpolated(dt).committed().position == body.next_position,
        body.interpolated(dt).committed().linvel == (Vector { x: 0, y: 0, z: 0 }),
        body.interpolated(dt).committed().angvel == (Vector { x: 0, y: 0, z: 0 }),
{
}

/// Builds a rigid body step by step.
#[derive(Copy, Clone, Debug, PartialEq, Eq, Structural)]
pub struct RigidBodyBuilder {
    pub body: RigidBody,
}

impl RigidBodyBuilder {
    /// A body of the given status at the origin, at rest, of mass one, awake,
    /// not watched by continuous collision detection.
    pub open spec fn initial(status: BodyStatus) -> RigidBody {
        RigidBody {
            position: Isometry::identity_pose(),
            next_position: Isometry::identity_pose(),
            linvel: Vector { x: 0, y: 0, z: 0 },
            angvel: Vector { x: 0, y: 0, z: 0 },
            force: Vector { x: 0, y: 0, z: 0 },
            mass: 1,
            local_com: Vector { x: 0, y: 0, z: 0 },
            world_com: Vector { x: 0, y: 0, z: 0 },
            status,
            sleeping: false,
            ccd_enabled: false,
            ccd_active: false,
            ccd_thickness: i64::MAX,
            placement: None,
        }
    }

    /// Starts from a body of the given status at the origin.
    pub fn new(status: BodyStatus) -> (builder: RigidBodyBuilder)
        ensures
            builder.body == RigidBodyBuilder::initial(status),
    {
        RigidBodyBuilder {
            body: RigidBody {
                position: Isometry::identity(),
                next_position: Isometry::identity(),
                linvel: Vector::zeros(),
                angvel: Vector::zeros(),
                force: Vector::zeros(),
                mass: 1,
                local_com: Vector::zeros(),
                world_com: Vector::zeros(),
                status,
                sleeping: false,
                ccd_enabled: false,
                ccd_active: false,
                ccd_thickness: i64::MAX,
                placement: None,
            },
        }
    }

    /// Starts from a static body at the origin.
    pub fn new_static() -> (builder: RigidBodyBuilder)
        ensures
            builder.body == RigidBodyBuilder::initial(BodyStatus::Static),
    {
        RigidBodyBuilder::new(BodyStatus::Static)
    }

    /// Starts from a kinematic body at the origin.
    pub fn new_kinematic() -> (builder: RigidBodyBuilder)
        ensures
            builder.body == RigidBodyBuilder::initial(BodyStatus::Kinematic),
    {
        RigidBodyBuilder::new(BodyStatus::Kinematic)
    }

    /// Starts from a dynamic body at the origin.
    pub fn new_dynamic() -> (builder: RigidBodyBuilder)
        ensures
            builder.body == RigidBodyBuilder::initial(BodyStatus::Dynamic),
    {
        RigidBodyBuilder::new(BodyStatus::Dynamic)
    }

    /// Sets the pose of the body; its next position is the same.
    pub fn position(self, pose: Isometry) -> (builder: RigidBodyBuilder)
        ensures
            builder.body == (RigidBody { position: pose, next_position: pose, ..self.body }),
    {
        let mut builder = self;
        builder.body.position = pose;
        builder.body.next_position = pose;
        builder
    }

    /// Places the body, unturned, at the given point.
    pub fn translation(self, x: i64, y: i64, z: i64) -> (builder: RigidBodyBuilder)
        ensures
            builder.body == (RigidBody {
                position: Isometry {
                    rotation: self.body.position.rotation,
                    translation: Vector { x, y, z },
                },
                next_position: Isometry {
                    rotation: self.body.position.rotation,
                    translation: Vector { x, y, z },
                },
                ..self.body
            }),
    {
        let pose = Isometry { rotation: self.body.position.rotation, translation: Vector { x, y, z } };
        self.position(pose)
    }

    /// Sets the linear velocity of the body.
    pub fn linvel(self, linvel: Vector) -> (builder: RigidBodyBuilder)
        ensures
            builder.body == (RigidBody { linvel, ..self.body }),
    {
        let mut builder = self;
        builder.body.linvel = linvel;
        builder
    }

    /// Sets the angular velocity of the body.
    pub fn angvel(self, angvel: Vector) -> (builder: RigidBodyBuilder)
        ensures
            builder.body == (RigidBody { angvel, ..self.body }),
    {
        let mut builder = self;
        builder.body.angvel = angvel;
        builder
    }

    /// Sets the mass of the body.
    pub fn mass(self, mass: u64) -> (builder: RigidBodyBuilder)
        ensures
            builder.body == (RigidBody { mass, ..self.body }),
    {
        let mut builder = self;
        builder.body.mass = mass;
        builder
    }

    /// Sets whether continuous collision detection watches the body.
    pub fn ccd_enabled(self, enabled: bool) -> (builder: RigidBodyBuilder)
        ensures
            builder.body == (RigidBody { ccd_enabled: enabled, ..self.body }),
    {
        let mut builder = self;
        builder.body.ccd_enabled = enabled;
        builder
    }

    /// Sets whether the body starts asleep.
    pub fn sleeping(self, sleeping: bool) -> (builder: RigidBodyBuilder)
        ensures
            builder.body == (RigidBody { sleeping, ..self.body }),
    {
        let mut builder = self;
        builder.body.sleeping = sleeping;
        builder
    }

    /// The body that was described.
    pub fn build(&self) -> (body: RigidBody)
        ensures
            body == self.body,
    {
        self.body
    }
}

} // verus!
