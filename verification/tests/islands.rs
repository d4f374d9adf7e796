use physics_step::dynamics::islands::{collect_interactions, Edge};
use physics_step::dynamics::joint::fixed_joint::FixedJoint;
use physics_step::dynamics::joint::joint_set::JointSet;
use physics_step::dynamics::rigid_body::{Placement, RigidBodyBuilder};
use physics_step::dynamics::rigid_body_set::RigidBodySet;
use physics_step::geometry::narrow_phase::NarrowPhase;
use physics_step::math::Vector;

#[test]
fn tied_bodies_share_an_island_and_a_lone_body_has_its_own() {
    let mut bodies = RigidBodySet::new();
    let mut joints = JointSet::new();
    let a = bodies.insert(RigidBodyBuilder::new_dynamic().build());
    let b = bodies.insert(RigidBodyBuilder::new_dynamic().build());
    let c = bodies.insert(RigidBodyBuilder::new_dynamic().build());
    joints.insert(a, b, FixedJoint::new().into_generic());

    bodies.update_active_set_with_contacts(&NarrowPhase::new(), joints.joint_graph(), 1);

    assert_eq!(bodies.num_islands(), 2);
    assert_eq!(bodies.active_islands, vec![0, 2, 3]);
    assert_eq!(bodies.active_dynamic_set, vec![a.0, b.0, c.0]);
    assert_eq!(bodies.get(a).unwrap().placement, Some(Placement { island: 0, offset: 0 }));
    assert_eq!(bodies.get(b).unwrap().placement, Some(Placement { island: 0, offset: 1 }));
    assert_eq!(bodies.get(c).unwrap().placement, Some(Placement { island: 1, offset: 2 }));
}

#[test]
fn lone_body_between_tied_bodies_keeps_its_island() {
    let mut bodies = RigidBodySet::new();
    let a = bodies.insert(RigidBodyBuilder::new_dynamic().build());
    let c = bodies.insert(RigidBodyBuilder::new_dynamic().build());
    let b = bodies.insert(RigidBodyBuilder::new_dynamic().build());
    let edges = vec![Some(Edge { body1: b.0, body2: a.0 })];
    bodies.update_active_set(&edges, 1);
    assert_eq!(bodies.active_islands, vec![0, 2, 3]);
    assert_eq!(bodies.active_dynamic_set, vec![a.0, b.0, c.0]);
    assert_eq!(bodies.get(c).unwrap().placement.unwrap().island, 1);
}

#[test]
fn small_islands_are_filled_up() {
    let mut bodies = RigidBodySet::new();
    for _ in 0..5 {
        bodies.insert(RigidBodyBuilder::new_dynamic().build());
    }
    bodies.update_active_set(&Vec::new(), 2);
    assert_eq!(bodies.active_islands, vec![0, 2, 4, 5]);
    bodies.update_active_set(&Vec::new(), 128);
    assert_eq!(bodies.active_islands, vec![0, 5]);
    bodies.update_active_set(&Vec::new(), 0);
    assert_eq!(bodies.active_islands, vec![0, 1, 2, 3, 4, 5]);
}

#[test]
fn no_active_body_leaves_one_empty_island() {
    let mut bodies = RigidBodySet::new();
    bodies.insert(RigidBodyBuilder::new_static().build());
    bodies.insert(RigidBodyBuilder::new_kinematic().build());
    bodies.insert(RigidBodyBuilder::new_dynamic().sleeping(true).build());
    bodies.update_active_set(&Vec::new(), 1);
    assert_eq!(bodies.num_islands(), 1);
    assert!(bodies.active_dynamic_set.is_empty());
}

#[test]
fn sleeping_body_is_woken_by_a_tie_to_an_active_body() {
    let mut bodies = RigidBodySet::new();
    let awake = bodies.insert(RigidBodyBuilder::new_dynamic().build());
    let asleep = bodies.insert(RigidBodyBuilder::new_dynamic().sleeping(true).build());
    let apart = bodies.insert(RigidBodyBuilder::new_dynamic().sleeping(true).build());
    let edges = vec![Some(Edge { body1: awake.0, body2: asleep.0 }), None];
    bodies.update_active_set(&edges, 1);
    assert_eq!(bodies.active_dynamic_set, vec![awake.0, asleep.0]);
    assert!(!bodies.get(asleep).unwrap().sleeping);
    assert!(bodies.get(apart).unwrap().sleeping);
    assert_eq!(bodies.get(apart).unwrap().placement, None);
}

#[test]
fn moving_kinematic_body_wakes_what_it_is_tied_to() {
    let mut bodies = RigidBodySet::new();
    let pusher = bodies.insert(RigidBodyBuilder::new_kinematic().linvel(Vector::new(1, 0, 0)).build());
    let resting = bodies.insert(RigidBodyBuilder::new_kinematic().build());
    let pushed = bodies.insert(RigidBodyBuilder::new_dynamic().sleeping(true).build());
    let left = bodies.insert(RigidBodyBuilder::new_dynamic().sleeping(true).build());
    let edges = vec![
        Some(Edge { body1: pushed.0, body2: pusher.0 }),
        Some(Edge { body1: resting.0, body2: left.0 }),
    ];
    assert!(bodies.is_pusher(pusher.0));
    assert!(!bodies.is_pusher(resting.0));
    assert!(bodies.is_roused(&edges, pushed.0));
    assert!(!bodies.is_roused(&edges, left.0));
    assert!(bodies.is_seed(&edges, pushed.0));
    bodies.update_active_set(&edges, 1);
    assert_eq!(bodies.active_dynamic_set, vec![pushed.0]);
    assert!(!bodies.get(pushed).unwrap().sleeping);
    assert!(bodies.get(left).unwrap().sleeping);
}

#[test]
fn static_body_does_not_tie_islands_together() {
    let mut bodies = RigidBodySet::new();
    let ground = bodies.insert(RigidBodyBuilder::new_static().build());
    let a = bodies.insert(RigidBodyBuilder::new_dynamic().build());
    let b = bodies.insert(RigidBodyBuilder::new_dynamic().build());
    let edges = vec![
        Some(Edge { body1: ground.0, body2: a.0 }),
        Some(Edge { body1: ground.0, body2: b.0 }),
    ];
    bodies.update_active_set(&edges, 1);
    assert_eq!(bodies.active_islands, vec![0, 1, 2]);
    assert_eq!(bodies.get(ground).unwrap().placement, None);
    assert_eq!(bodies.island_of_interaction(ground, b), Some(1));
    assert_eq!(bodies.island_of_interaction(a, ground), Some(0));
    assert_eq!(bodies.island_of_interaction(ground, ground), None);
}

#[test]
fn graph_lists_contacts_then_joints() {
    let mut bodies = RigidBodySet::new();
    let mut joints = JointSet::new();
    let a = bodies.insert(RigidBodyBuilder::new_dynamic().build());
    let b = bodies.insert(RigidBodyBuilder::new_dynamic().build());
    let j = joints.insert(a, b, FixedJoint::new().into_generic());
    joints.insert(b, a, FixedJoint::new().into_generic());
    joints.remove(j);
    let edges = collect_interactions(&NarrowPhase::new(), joints.joint_graph());
    assert_eq!(edges, vec![None, Some(Edge { body1: b.0, body2: a.0 })]);
}
