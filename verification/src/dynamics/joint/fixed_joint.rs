//! The joint that locks all relative motion between two bodies.

use crate::dynamics::joint::generic_joint::{
    GenericJoint, GenericJointBuilder, JointAxesMask, LOCKED_FIXED_AXES,
};
use crate::math::{Isometry, Vector};
use vstd::prelude::*;

verus! {

/// A fixed joint, locks all relative motion between two bodies.
#[derive(Copy, Clone, Debug, PartialEq, Eq, Structural)]
pub struct FixedJoint {
    pub data: GenericJoint,
}

impl FixedJoint {
    /// The fixed joint whose frames coincide with the bodies' own.
    pub open spec fn fresh() -> FixedJoint {
        FixedJoint { data: GenericJoint::locking(JointAxesMask { bits: LOCKED_FIXED_AXES }) }
    }

    /// Creates a new fixed joint.
    #[must_use]
    pub fn new() -> (joint: FixedJoint)
        ensures
            joint == FixedJoint::fresh(),
    {
        let data = GenericJointBuilder::new(JointAxesMask { bits: LOCKED_FIXED_AXES }).build();
        FixedJoint { data }
    }

    /// The joint's frame, expressed in the first rigid-body's local-space.
    #[must_use]
    pub fn local_frame1(&self) -> (frame: &Isometry)
        ensures
            *frame == self.data.local_frame1,
    {
        &self.data.local_frame1
    }

    /// Sets the joint's frame, expressed in the first rigid-body's local-space.
    pub fn set_local_frame1(&mut self, local_frame: Isometry) -> (this: &mut FixedJoint)
        ensures
            *this == (FixedJoint {
                data: GenericJoint { local_frame1: local_frame, ..old(self).data },
            }),
            *final(self) == *final(this),
    {
        self.data.set_local_frame1(local_frame);
        self
    }

    /// The joint's frame, expressed in the second rigid-body's local-space.
    #[must_use]
    pub fn local_frame2(&self) -> (frame: &Isometry)
        ensures
            *frame == self.data.local_frame2,
    {
        &self.data.local_frame2
    }

    /// Sets joint's frame, expressed in the second rigid-body's local-space.
    pub fn set_local_frame2(&mut self, local_frame: Isometry) -> (this: &mut FixedJoint)
        ensures
            *this == (FixedJoint {
                data: GenericJoint { local_frame2: local_frame, ..old(self).data },
            }),
            *final(self) == *final(this),
    {
        self.data.set_local_frame2(local_frame);
        self
    }

    /// The joint's anchor, expressed in the local-space of the first rigid-body.
    #[must_use]
    pub fn local_anchor1(&self) -> (anchor: Vector)
        ensures
            anchor == self.data.local_frame1.translation,
    {
        self.data.local_anchor1()
    }

    /// Sets the joint's anchor, expressed in the local-space of the first rigid-body.
    pub fn set_local_anchor1(&mut self, anchor1: Vector) -> (this: &mut FixedJoint)
        ensures
            *this == (FixedJoint { data: old(self).data.with_anchor1(anchor1) }),
            *final(self) == *final(this),
    {
        self.data.set_local_anchor1(anchor1);
        self
    }

    /// The joint's anchor, expressed in the local-space of the second rigid-body.
    #[must_use]
    pub fn local_anchor2(&self) -> (anchor: Vector)
        ensures
            anchor == self.data.local_frame2.translation,
    {
        self.data.local_anchor2()
    }

    /// Sets the joint's anchor, expressed in the local-space of the second rigid-body.
    pub fn set_local_anchor2(&mut self, anchor2: Vector) -> (this: &mut FixedJoint)
        ensures
            *this == (FixedJoint { data: old(self).data.with_anchor2(anchor2) }),
            *final(self) == *final(this),
    {
        self.data.set_local_anchor2(anchor2);
        self
    }

    /// The generic joint that this fixed joint is.
    pub fn into_generic(self) -> (joint: GenericJoint)
        ensures
            joint == self.data,
    {
        self.data
    }
}

impl Default for FixedJoint {
    fn default() -> (joint: FixedJoint)
        ensures
            joint == FixedJoint::fresh(),
    {
        FixedJoint::new()
    }
}

/// A fixed joint is the generic joint that it holds.
impl From<FixedJoint> for GenericJoint {
    fn from(joint: FixedJoint) -> (generic: GenericJoint) {
        joint.data
    }
}

impl vstd::std_specs::convert::FromSpecImpl<FixedJoint> for GenericJoint {
    open spec fn obeys_from_spec() -> bool {
        true
    }

    open spec fn from_spec(joint: FixedJoint) -> GenericJoint {
        joint.data
    }
}

/// Create fixed joints using the builder pattern.
#[derive(Copy, Clone, Debug, PartialEq, Eq, Structural)]
pub struct FixedJointBuilder(pub FixedJoint);

impl FixedJointBuilder {
    /// Creates a new builder for fixed joints.
    pub fn new() -> (builder: FixedJointBuilder)
        ensures
            builder.0 == FixedJoint::fresh(),
    {
        FixedJointBuilder(FixedJoint::new())
    }

    /// Sets the joint's frame, expressed in the first rigid-body's local-space.
    #[must_use]
    pub fn local_frame1(self, local_frame: Isometry) -> (builder: FixedJointBuilder)
        ensures
            builder.0 == (FixedJoint {
                data: GenericJoint { local_frame1: local_frame, ..self.0.data },
            }),
    {
        let mut builder = self;
        builder.0.data.set_local_frame1(local_frame);
        builder
    }

    /// Sets joint's frame, expressed in the second rigid-body's local-space.
    #[must_use]
    pub fn local_frame2(self, local_frame: Isometry) -> (builder: FixedJointBuilder)
        ensures
            builder.0 == (FixedJoint {
                data: GenericJoint { local_frame2: local_frame, ..self.0.data },
            }),
    {
        let mut builder = self;
        builder.0.data.set_local_frame2(local_frame);
        builder
    }

    /// Sets the joint's anchor, expressed in the local-space of the first rigid-body.
    #[must_use]
    pub fn local_anchor1(self, anchor1: Vector) -> (builder: FixedJointBuilder)
        ensures
            builder.0 == (FixedJoint { data: self.0.data.with_anchor1(anchor1) }),
    {
        let mut builder = self;
        builder.0.data.set_local_anchor1(anchor1);
        builder
    }

    /// Sets the joint's anchor, expressed in the local-space of the second rigid-body.
    #[must_use]
    pub fn local_anchor2(self, anchor2: Vector) -> (builder: FixedJointBuilder)
        ensures
            builder.0 == (FixedJoint { data: self.0.data.with_anchor2(anchor2) }),
    {
        let mut builder = self;
        builder.0.data.set_local_anchor2(anchor2);
        builder
    }

    /// Build the fixed joint.
    #[must_use]
    pub fn build(self) -> (joint: FixedJoint)
        ensures
            joint == self.0,
    {
        self.0
    }

    /// The generic joint that the builder describes.
    pub fn into_generic(self) -> (joint: GenericJoint)
        ensures
            joint == self.0.data,
    {
        self.0.into_generic()
    }
}

impl Default for FixedJointBuilder {
    fn default() -> (builder: FixedJointBuilder)
        ensures
            builder.0 == FixedJoint::fresh(),
    {
        FixedJointBuilder::new()
    }
}

/// A builder of fixed joints is the generic joint that it describes.
impl From<FixedJointBuilder> for GenericJoint {
    fn from(builder: FixedJointBuilder) -> (generic: GenericJoint) {
        builder.0.data
    }
}

impl vstd::std_specs::convert::FromSpecImpl<FixedJointBuilder> for GenericJoint {
    open spec fn obeys_from_spec() -> bool {
        true
    }

    open spec fn from_spec(builder: FixedJointBuilder) -> GenericJoint {
        builder.0.data
    }
}

} // verus!
