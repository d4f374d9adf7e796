//! The joint that every other joint is a special case of.

use crate::math::{Isometry, Vector};
use vstd::prelude::*;

verus! {

/// The degrees of freedom of a joint, one bit each: the three translations,
/// then the three rotations.
#[derive(Copy, Clone, Debug, PartialEq, Eq, Structural)]
pub struct JointAxesMask {
    pub bits: u8,
}

/// Every degree of freedom: what a fixed joint locks.
pub const LOCKED_FIXED_AXES: u8 = 0x3f;

/// A joint between two bodies, described by a frame on each body and by the
/// degrees of freedom that it locks between the two frames.
#[derive(Copy, Clone, Debug, PartialEq, Eq, Structural)]
pub struct GenericJoint {
    /// The joint's frame, relative to the first body.
    pub local_frame1: Isometry,
    /// The joint's frame, relative to the second body.
    pub local_frame2: Isometry,
    pub locked_axes: JointAxesMask,
}

impl GenericJoint {
    /// The joint that locks `locked_axes` between two frames that coincide
    /// with the bodies' own.
    pub open spec fn locking(locked_axes: JointAxesMask) -> GenericJoint {
        GenericJoint {
            local_frame1: Isometry::identity_pose(),
            local_frame2: Isometry::identity_pose(),
            locked_axes,
        }
    }

    /// `self` with the origin of its first frame at `anchor`.
    pub open spec fn with_anchor1(self, anchor: Vector) -> GenericJoint {
        GenericJoint {
            local_frame1: Isometry { translation: anchor, ..self.local_frame1 },
            ..self
        }
    }

    /// `self` with the origin of its second frame at `anchor`.
    pub open spec fn with_anchor2(self, anchor: Vector) -> GenericJoint {
        GenericJoint {
            local_frame2: Isometry { translation: anchor, ..self.local_frame2 },
            ..self
        }
    }

    /// The joint that locks `locked_axes` between two identity frames.
    pub fn new(locked_axes: JointAxesMask) -> (joint: GenericJoint)
        ensures
            joint == GenericJoint::locking(locked_axes),
    {
        GenericJoint {
            local_frame1: Isometry::identity(),
            local_frame2: Isometry::identity(),
            locked_axes,
        }
    }

    /// Sets the joint's frame, relative to the first body.
    pub fn set_local_frame1(&mut self, local_frame: Isometry)
        ensures
            *final(self) == (GenericJoint { local_frame1: local_frame, ..*old(self) }),
    {
        self.local_frame1 = local_frame;
    }

    /// Sets the joint's frame, relative to the second body.
    pub fn set_local_frame2(&mut self, local_frame: Isometry)
        ensures
            *final(self) == (GenericJoint { local_frame2: local_frame, ..*old(self) }),
    {
        self.local_frame2 = local_frame;
    }

    /// Origin of the first frame.
    pub fn local_anchor1(&self) -> (anchor: Vector)
        ensures
            anchor == self.local_frame1.translation,
    {
        self.local_frame1.translation
    }

    /// Origin of the second frame.
    pub fn local_anchor2(&self) -> (anchor: Vector)
        ensures
            anchor == self.local_frame2.translation,
    {
        self.local_frame2.translation
    }

    /// Moves the origin of the first frame and keeps its turn.
    pub fn set_local_anchor1(&mut self, anchor1: Vector)
        ensures
            *final(self) == old(self).with_anchor1(anchor1),
    {
        self.local_frame1.translation = anchor1;
    }

    /// Moves the origin of the second frame and keeps its turn.
    pub fn set_local_anchor2(&mut self, anchor2: Vector)
        ensures
            *final(self) == old(self).with_anchor2(anchor2),
    {
        self.local_frame2.translation = anchor2;
    }
}

/// Builds a generic joint.
#[derive(Copy, Clone, Debug, PartialEq, Eq, Structural)]
pub struct GenericJointBuilder {
    pub joint: GenericJoint,
}

impl GenericJointBuilder {
    /// Starts from the joint that locks `locked_axes` between two identity frames.
    pub fn new(locked_axes: JointAxesMask) -> (builder: GenericJointBuilder)
        ensures
            builder.joint == GenericJoint::locking(locked_axes),
    {
        GenericJointBuilder { joint: GenericJoint::new(locked_axes) }
    }

    /// The joint that was described.
    pub fn build(self) -> (joint: GenericJoint)
        ensures
            joint == self.joint,
    {
        self.joint
    }
}

} // verus!
