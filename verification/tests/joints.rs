use physics_step::dynamics::joint::fixed_joint::{FixedJoint, FixedJointBuilder};
use physics_step::dynamics::joint::generic_joint::{
    GenericJoint, GenericJointBuilder, JointAxesMask, LOCKED_FIXED_AXES,
};
use physics_step::dynamics::joint::joint_set::{Joint, JointHandle, JointSet};
use physics_step::dynamics::rigid_body::RigidBodyBuilder;
use physics_step::dynamics::rigid_body_set::{RigidBodyHandle, RigidBodySet};
use physics_step::math::{Isometry, Vector};

#[test]
fn new_fixed_joint_locks_every_axis_between_identity_frames() {
    let joint = FixedJoint::new();
    assert_eq!(*joint.local_frame1(), Isometry::identity());
    assert_eq!(*joint.local_frame2(), Isometry::identity());
    assert_eq!(joint.local_anchor1(), Vector::zeros());
    assert_eq!(joint.local_anchor2(), Vector::zeros());
    assert_eq!(joint.data.locked_axes, JointAxesMask { bits: 0x3f });
    assert_eq!(LOCKED_FIXED_AXES, 63);
    assert_eq!(FixedJoint::default(), joint);
    assert_eq!(joint.into_generic(), GenericJoint::new(JointAxesMask { bits: 63 }));
    let generic: GenericJoint = joint.into();
    assert_eq!(generic, joint.data);
    let from_builder: GenericJoint = FixedJointBuilder::new().local_anchor1(Vector::new(1, 2, 3)).into();
    assert_eq!(from_builder.local_frame1, Isometry::translation(1, 2, 3));
}

#[test]
fn fixed_joint_frames_are_set_one_by_one() {
    let frame1 = Isometry::new(Vector::new(1, 2, 3), Vector::new(0, 0, 1571));
    let frame2 = Isometry::new(Vector::new(-4, 5, -6), Vector::new(3142, 0, 0));
    let mut joint = FixedJoint::new();
    joint.set_local_frame1(frame1);
    assert_eq!(*joint.local_frame1(), frame1);
    assert_eq!(*joint.local_frame2(), Isometry::identity());
    joint.set_local_frame2(frame2);
    assert_eq!(*joint.local_frame1(), frame1);
    assert_eq!(*joint.local_frame2(), frame2);
    assert_eq!(joint.local_anchor1(), Vector::new(1, 2, 3));
    assert_eq!(joint.local_anchor2(), Vector::new(-4, 5, -6));
}

#[test]
fn fixed_joint_anchor_moves_the_frame_and_keeps_its_turn() {
    let frame = Isometry::new(Vector::new(1, 2, 3), Vector::new(0, 0, 1571));
    let mut joint = FixedJoint::new();
    joint.set_local_frame1(frame).set_local_frame2(frame);
    joint.set_local_anchor1(Vector::new(7, 8, 9));
    assert_eq!(*joint.local_frame1(), Isometry::new(Vector::new(7, 8, 9), Vector::new(0, 0, 1571)));
    assert_eq!(*joint.local_frame2(), frame);
    joint.set_local_anchor2(Vector::new(-1, -1, -1));
    assert_eq!(*joint.local_frame2(), Isometry::new(Vector::new(-1, -1, -1), Vector::new(0, 0, 1571)));
    assert_eq!(joint.local_anchor1(), Vector::new(7, 8, 9));
}

#[test]
fn fixed_joint_setters_chain() {
    let mut joint = FixedJoint::new();
    joint
        .set_local_anchor1(Vector::new(1, 0, 0))
        .set_local_anchor2(Vector::new(0, 1, 0))
        .set_local_frame1(Isometry::translation(5, 5, 5));
    assert_eq!(joint.local_anchor1(), Vector::new(5, 5, 5));
    assert_eq!(joint.local_anchor2(), Vector::new(0, 1, 0));
}

#[test]
fn fixed_joint_builder_builds_what_the_setters_set() {
    let frame1 = Isometry::new(Vector::new(1, 2, 3), Vector::new(10, 20, 30));
    let frame2 = Isometry::translation(4, 5, 6);
    let built = FixedJointBuilder::new().local_frame1(frame1).local_frame2(frame2).build();
    let mut set = FixedJoint::new();
    set.set_local_frame1(frame1);
    set.set_local_frame2(frame2);
    assert_eq!(built, set);

    let anchored = FixedJointBuilder::new()
        .local_frame1(frame1)
        .local_anchor1(Vector::new(9, 9, 9))
        .local_anchor2(Vector::new(-9, 0, 9))
        .build();
    assert_eq!(*anchored.local_frame1(), Isometry::new(Vector::new(9, 9, 9), Vector::new(10, 20, 30)));
    assert_eq!(anchored.local_anchor2(), Vector::new(-9, 0, 9));
    assert_eq!(FixedJointBuilder::new().build(), FixedJoint::new());
    assert_eq!(FixedJointBuilder::default(), FixedJointBuilder::new());
    assert_eq!(FixedJointBuilder::new().local_frame2(frame2).into_generic().local_frame2, frame2);
}

#[test]
fn generic_joint_builder_builds_the_joint_it_was_given() {
    let mask = JointAxesMask { bits: 0b101 };
    let joint = GenericJointBuilder::new(mask).build();
    assert_eq!(joint, GenericJoint::new(mask));
    assert_eq!(joint.local_anchor1(), Vector::zeros());
    let mut moved = joint;
    moved.set_local_anchor2(Vector::new(1, 2, 3));
    moved.set_local_frame1(Isometry::translation(3, 2, 1));
    assert_eq!(moved.local_anchor2(), Vector::new(1, 2, 3));
    assert_eq!(moved.local_frame1, Isometry::translation(3, 2, 1));
    moved.set_local_anchor1(Vector::new(0, 0, 7));
    moved.set_local_frame2(Isometry::identity());
    assert_eq!(moved.local_anchor1(), Vector::new(0, 0, 7));
    assert_eq!(moved.local_frame2, Isometry::identity());
    assert_eq!(moved.locked_axes, mask);
}

#[test]
fn joint_set_hands_out_slots_in_order() {
    let mut joints = JointSet::new();
    let a = RigidBodyHandle(0);
    let b = RigidBodyHandle(1);
    let c = RigidBodyHandle(2);
    let params = FixedJoint::new().into_generic();
    let ab = joints.insert(a, b, params);
    let bc = joints.insert(b, c, params);
    assert_eq!(ab, JointHandle(0));
    assert_eq!(bc, JointHandle(1));
    assert_eq!(joints.len(), 2);
    assert_eq!(joints.get(bc), Some(Joint { body1: b, body2: c, params }));
    assert_eq!(joints.get(JointHandle(9)), None);
    assert_eq!(joints.remove(ab), Some(Joint { body1: a, body2: b, params }));
    assert_eq!(joints.remove(ab), None);
    assert_eq!(joints.get(ab), None);
    assert_eq!(joints.len(), 2);
    assert_eq!(joints.insert(a, c, params), JointHandle(2));
}

#[test]
fn removing_a_body_removes_its_joints() {
    let mut joints = JointSet::new();
    let a = RigidBodyHandle(0);
    let b = RigidBodyHandle(1);
    let c = RigidBodyHandle(2);
    let params = FixedJoint::new().into_generic();
    joints.insert(a, b, params);
    joints.insert(b, c, params);
    joints.insert(c, a, params);
    joints.remove_joints_attached_to(a);
    assert_eq!(joints.slots, vec![None, Some(Joint { body1: b, body2: c, params }), None]);
}

#[test]
fn joints_are_listed_by_the_island_of_their_bodies() {
    let mut bodies = RigidBodySet::new();
    let mut joints = JointSet::new();
    let ground = bodies.insert(RigidBodyBuilder::new_static().build());
    let a = bodies.insert(RigidBodyBuilder::new_dynamic().build());
    let b = bodies.insert(RigidBodyBuilder::new_dynamic().build());
    let c = bodies.insert(RigidBodyBuilder::new_dynamic().build());
    let asleep = bodies.insert(RigidBodyBuilder::new_dynamic().sleeping(true).build());
    let params = FixedJoint::new().into_generic();
    joints.insert(ground, c, params);
    joints.insert(a, b, params);
    joints.insert(asleep, ground, params);
    joints.insert(b, a, params);
    bodies.update_active_set_with_contacts(
        &physics_step::geometry::narrow_phase::NarrowPhase::new(),
        joints.joint_graph(),
        1,
    );
    assert_eq!(bodies.active_islands, vec![0, 2, 3]);
    let mut lists = vec![vec![7usize], vec![], vec![8, 9]];
    joints.select_active_interactions(&bodies, &mut lists);
    assert_eq!(lists, vec![vec![1, 3], vec![0], vec![]]);
    let mut short = vec![vec![5usize]];
    joints.select_active_interactions(&bodies, &mut short);
    assert_eq!(short, vec![vec![1, 3]]);
}
