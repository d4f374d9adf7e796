use physics_step::dynamics::rigid_body::RigidBodyBuilder;
use physics_step::dynamics::rigid_body_set::{RigidBodyHandle, RigidBodySet};
use physics_step::geometry::broad_phase::{
    are_near, pair_listed, BroadPhase, BroadPhasePairEvent, ColliderPair,
};
use physics_step::geometry::collider::{Collider, ColliderBuilder, ColliderHandle, ColliderSet};
use physics_step::geometry::narrow_phase::{
    contact_between, is_sensor, overlap_between, ContactManifold, ContactPair, NarrowPhase, Removal,
};
use physics_step::geometry::shape::{Aabb, Separation, Shape};
use physics_step::math::{Axis, Vector};
use physics_step::pipeline::event_handler::{ContactEvent, IntersectionEvent, PhysicsEvent};
use physics_step::pipeline::physics_hooks::PhysicsHooks;

fn pair(a: usize, b: usize) -> ColliderPair {
    ColliderPair { collider1: ColliderHandle(a), collider2: ColliderHandle(b) }
}

fn boxes_in_a_row(xs: &[i64]) -> (RigidBodySet, ColliderSet, Vec<RigidBodyHandle>) {
    let mut bodies = RigidBodySet::new();
    let mut colliders = ColliderSet::new();
    let mut handles = Vec::new();
    for x in xs {
        let h = bodies.insert(RigidBodyBuilder::new_dynamic().translation(*x, 0, 0).build());
        colliders.insert(ColliderBuilder::cuboid(10, 10, 10).build(), h, &mut bodies);
        handles.push(h);
    }
    (bodies, colliders, handles)
}

#[test]
fn collider_is_placed_where_its_body_holds_it() {
    let mut bodies = RigidBodySet::new();
    let mut colliders = ColliderSet::new();
    let h = bodies.insert(RigidBodyBuilder::new_dynamic().translation(100, 200, 300).build());
    let c = colliders.insert(ColliderBuilder::ball(7).translation(1, 2, 3).sensor(true).build(), h, &mut bodies);
    assert_eq!(c, ColliderHandle(0));
    assert_eq!(
        colliders.get(c),
        Some(Collider {
            shape: Shape::Ball { radius: 7 },
            parent: h,
            delta: Vector::new(1, 2, 3),
            position: Vector::new(101, 202, 303),
            sensor: true,
        })
    );
    assert_eq!(colliders.modified_colliders, vec![c]);
    assert_eq!(bodies.get(h).unwrap().ccd_thickness, 7);
    colliders.insert(ColliderBuilder::cuboid(9, 3, 5).build(), h, &mut bodies);
    assert_eq!(bodies.get(h).unwrap().ccd_thickness, 3);
    colliders.insert(ColliderBuilder::halfspace().build(), h, &mut bodies);
    assert_eq!(bodies.get(h).unwrap().ccd_thickness, 3);
    assert_eq!(colliders.len(), 3);
    assert_eq!(colliders.get(ColliderHandle(3)), None);
}

#[test]
fn collider_without_a_body_is_dropped_when_changes_are_taken_in() {
    let mut bodies = RigidBodySet::new();
    let mut colliders = ColliderSet::new();
    let h = bodies.insert(RigidBodyBuilder::new_dynamic().build());
    let kept = colliders.insert(ColliderBuilder::ball(1).build(), h, &mut bodies);
    let lost = colliders.insert(ColliderBuilder::ball(1).translation(4, 4, 4).build(), RigidBodyHandle(9), &mut bodies);
    assert_eq!(colliders.get(lost).unwrap().position, Vector::new(4, 4, 4));
    colliders.handle_user_changes(&bodies);
    assert!(colliders.get(kept).is_some());
    assert!(colliders.get(lost).is_none());
    assert_eq!(colliders.remove(kept).unwrap().parent, h);
    assert_eq!(colliders.remove(kept), None);
    colliders.clear_modified_colliders();
    assert!(colliders.modified_colliders.is_empty());
}

#[test]
fn colliders_follow_their_bodies() {
    let (mut bodies, mut colliders, handles) = boxes_in_a_row(&[0, 100]);
    bodies.set_position(handles[1], physics_step::math::Isometry::translation(5, 6, 7));
    assert_eq!(bodies.modified_inactive_set, vec![handles[1]]);
    colliders.update_positions(&bodies);
    assert_eq!(colliders.get(ColliderHandle(1)).unwrap().position, Vector::new(5, 6, 7));
    assert_eq!(colliders.get(ColliderHandle(0)).unwrap().position, Vector::new(0, 0, 0));
    colliders.remove_children_of(handles[0]);
    assert_eq!(colliders.get(ColliderHandle(0)), None);
    assert!(colliders.get(ColliderHandle(1)).is_some());
}

#[test]
fn bounds_of_shapes() {
    assert_eq!(
        Shape::Ball { radius: 5 }.local_aabb(),
        Aabb { mins: Vector::new(-5, -5, -5), maxs: Vector::new(5, 5, 5) }
    );
    assert_eq!(
        Shape::Cuboid { half_extents: Vector::new(1, 2, 3) }.local_aabb(),
        Aabb { mins: Vector::new(-1, -2, -3), maxs: Vector::new(1, 2, 3) }
    );
    assert_eq!(
        Shape::Voxels { half_extents: Vector::new(3, 2, 1) }.local_aabb(),
        Aabb { mins: Vector::new(-3, -2, -1), maxs: Vector::new(3, 2, 1) }
    );
    assert_eq!(
        Shape::HalfSpace.local_aabb(),
        Aabb { mins: Vector::new(i64::MIN, i64::MIN, i64::MIN), maxs: Vector::new(i64::MAX, 0, i64::MAX) }
    );
    assert_eq!(Shape::Cuboid { half_extents: Vector::new(4, 2, 3) }.ccd_thickness(), 2);
    assert_eq!(Shape::Voxels { half_extents: Vector::new(4, 5, 3) }.ccd_thickness(), 3);
    assert_eq!(Shape::HalfSpace.ccd_thickness(), i64::MAX);
    assert!(Shape::Voxels { half_extents: Vector::zeros() }.is_voxels());
    assert!(!Shape::Ball { radius: 1 }.is_voxels());
    let moved = Shape::HalfSpace.local_aabb().translated(&Vector::new(1, -5, 1));
    // A bound that leaves the range of a coordinate is held at its end.
    assert_eq!(moved.mins, Vector::new(i64::MIN + 1, i64::MIN, i64::MIN + 1));
    assert_eq!(moved.maxs, Vector::new(i64::MAX, -5, i64::MAX));
}

#[test]
fn separation_of_boxes() {
    let a = Aabb { mins: Vector::new(0, 0, 0), maxs: Vector::new(10, 10, 10) };
    let above = Aabb { mins: Vector::new(2, 13, 2), maxs: Vector::new(8, 20, 8) };
    assert_eq!(a.separation_from(&above), Separation { axis: Axis::Y, positive: true, distance: 3 });
    assert_eq!(above.separation_from(&a), Separation { axis: Axis::Y, positive: false, distance: 3 });
    assert!(a.is_within(&above, 3));
    assert!(!a.is_within(&above, 2));
    let inside = Aabb { mins: Vector::new(4, 1, 2), maxs: Vector::new(15, 9, 8) };
    // They overlap by 6 along X, by 8 along Y and by 6 along Z; X comes first.
    assert_eq!(a.separation_from(&inside), Separation { axis: Axis::X, positive: true, distance: -6 });
    assert!(a.is_within(&inside, 0));
    let corner = Aabb { mins: Vector::new(-9, -9, 14), maxs: Vector::new(-4, -2, 20) };
    assert_eq!(a.separation_from(&corner), Separation { axis: Axis::X, positive: false, distance: 4 });
}

#[test]
fn broad_phase_reports_what_changes() {
    let (mut bodies, mut colliders, handles) = boxes_in_a_row(&[0, 25, 100]);
    let mut broad_phase = BroadPhase::new();
    let mut events = Vec::new();
    // The boxes are 5, 55 and 80 apart.
    broad_phase.update(5, &colliders, &mut events);
    assert_eq!(broad_phase.pairs, vec![pair(0, 1)]);
    assert_eq!(events, vec![BroadPhasePairEvent::AddPair(pair(0, 1))]);
    assert!(are_near(&colliders, 5, 0, 1));
    assert!(!are_near(&colliders, 4, 0, 1));
    assert!(!are_near(&colliders, 5, 1, 0));
    assert!(pair_listed(&broad_phase.pairs, pair(0, 1)));
    assert!(!pair_listed(&broad_phase.pairs, pair(1, 2)));

    events.clear();
    broad_phase.update(5, &colliders, &mut events);
    assert!(events.is_empty());

    bodies.set_position(handles[1], physics_step::math::Isometry::translation(75, 0, 0));
    colliders.update_positions(&bodies);
    broad_phase.update(5, &colliders, &mut events);
    assert_eq!(broad_phase.pairs, vec![pair(1, 2)]);
    assert_eq!(
        events,
        vec![BroadPhasePairEvent::DeletePair(pair(0, 1)), BroadPhasePairEvent::AddPair(pair(1, 2))]
    );

    events.clear();
    broad_phase.update(80, &colliders, &mut events);
    assert_eq!(broad_phase.pairs, vec![pair(0, 1), pair(0, 2), pair(1, 2)]);
    assert_eq!(
        events,
        vec![BroadPhasePairEvent::AddPair(pair(0, 1)), BroadPhasePairEvent::AddPair(pair(0, 2))]
    );
}

#[test]
fn colliders_of_one_body_are_never_a_pair() {
    let mut bodies = RigidBodySet::new();
    let mut colliders = ColliderSet::new();
    let h = bodies.insert(RigidBodyBuilder::new_dynamic().build());
    colliders.insert(ColliderBuilder::ball(5).build(), h, &mut bodies);
    colliders.insert(ColliderBuilder::ball(5).build(), h, &mut bodies);
    let mut broad_phase = BroadPhase::new();
    let mut events = Vec::new();
    broad_phase.update(10, &colliders, &mut events);
    assert!(broad_phase.pairs.is_empty());
    assert!(events.is_empty());
}

#[test]
fn narrow_phase_follows_the_broad_phase() {
    let (bodies, colliders, _) = boxes_in_a_row(&[0, 25, 100]);
    let mut narrow_phase = NarrowPhase::new();
    let mut events = Vec::new();
    let changes = vec![
        BroadPhasePairEvent::AddPair(pair(0, 1)),
        BroadPhasePairEvent::AddPair(pair(1, 2)),
        BroadPhasePairEvent::AddPair(pair(0, 1)),
    ];
    narrow_phase.register_pairs(&colliders, &changes, &mut events);
    assert_eq!(narrow_phase.pairs.len(), 2);
    assert!(narrow_phase.is_listed(pair(1, 2)));
    assert!(!narrow_phase.is_listed(pair(0, 2)));
    assert!(events.is_empty());
    assert_eq!(
        narrow_phase.contact_pair_at_index(0),
        Some(ContactPair { pair: pair(0, 1), sensor: false, manifold: None, intersecting: false })
    );
    assert_eq!(narrow_phase.contact_pair_at_index(2), None);

    narrow_phase.compute_contacts(5, &bodies, &colliders, &(), &mut events);
    let manifold = ContactManifold {
        body1: RigidBodyHandle(0),
        body2: RigidBodyHandle(1),
        axis: Axis::X,
        positive: true,
        distance: 5,
        impulse: 0,
    };
    assert_eq!(narrow_phase.pairs[0].manifold, Some(manifold));
    assert_eq!(narrow_phase.pairs[1].manifold, None);
    assert_eq!(events.len(), 1);
    assert!(matches!(
        events[0],
        PhysicsEvent::Contact(ContactEvent::Started(ColliderHandle(0), ColliderHandle(1)))
    ));

    // Nothing has moved: nothing is reported.
    narrow_phase.compute_contacts(5, &bodies, &colliders, &(), &mut events);
    narrow_phase.compute_intersections(&colliders, &(), &mut events);
    assert_eq!(events.len(), 1);

    // With a shorter reach the contact stops.
    narrow_phase.compute_contacts(4, &bodies, &colliders, &(), &mut events);
    assert_eq!(narrow_phase.pairs[0].manifold, None);
    assert!(matches!(
        events[1],
        PhysicsEvent::Contact(ContactEvent::Stopped(ColliderHandle(0), ColliderHandle(1)))
    ));

    // A pair that the broad phase takes back while it touches is said to stop.
    narrow_phase.compute_contacts(5, &bodies, &colliders, &(), &mut events);
    events.clear();
    narrow_phase.register_pairs(&colliders, &vec![BroadPhasePairEvent::DeletePair(pair(0, 1))], &mut events);
    assert_eq!(narrow_phase.pairs.len(), 1);
    assert_eq!(narrow_phase.pairs[0].pair, pair(1, 2));
    assert_eq!(events.len(), 1);
    assert!(matches!(events[0], PhysicsEvent::Contact(ContactEvent::Stopped(_, _))));
}

#[test]
fn contact_keeps_the_impulse_of_the_one_before_it() {
    let (bodies, colliders, _) = boxes_in_a_row(&[0, 25]);
    let mut entry = ContactPair { pair: pair(0, 1), sensor: false, manifold: None, intersecting: false };
    let first = contact_between(&entry, &colliders, &bodies, 5, &()).unwrap();
    assert_eq!(first.impulse, 0);
    entry.manifold = Some(ContactManifold { impulse: 42, distance: 0, ..first });
    let second = contact_between(&entry, &colliders, &bodies, 5, &()).unwrap();
    assert_eq!(second, ContactManifold { impulse: 42, ..first });
    assert_eq!(contact_between(&entry, &colliders, &bodies, 4, &()), None);
}

#[test]
fn sensors_overlap_and_do_not_touch() {
    let mut bodies = RigidBodySet::new();
    let mut colliders = ColliderSet::new();
    let a = bodies.insert(RigidBodyBuilder::new_dynamic().build());
    let b = bodies.insert(RigidBodyBuilder::new_static().translation(15, 0, 0).build());
    colliders.insert(ColliderBuilder::ball(10).build(), a, &mut bodies);
    colliders.insert(ColliderBuilder::ball(10).sensor(true).build(), b, &mut bodies);
    assert!(is_sensor(&colliders, pair(0, 1)));
    let mut narrow_phase = NarrowPhase::new();
    let mut events = Vec::new();
    narrow_phase.register_pairs(&colliders, &vec![BroadPhasePairEvent::AddPair(pair(0, 1))], &mut events);
    assert!(narrow_phase.pairs[0].sensor);
    narrow_phase.compute_contacts(100, &bodies, &colliders, &(), &mut events);
    assert_eq!(narrow_phase.pairs[0].manifold, None);
    assert!(events.is_empty());
    narrow_phase.compute_intersections(&colliders, &(), &mut events);
    assert!(narrow_phase.pairs[0].intersecting);
    assert!(overlap_between(&narrow_phase.pairs[0], &colliders, &()));
    assert!(matches!(
        events[0],
        PhysicsEvent::Intersection(IntersectionEvent {
            collider1: ColliderHandle(0),
            collider2: ColliderHandle(1),
            intersecting: true
        })
    ));

    // The sensor is removed: the pair goes, and is said to overlap no longer.
    colliders.remove(ColliderHandle(1));
    events.clear();
    narrow_phase.handle_user_changes(&colliders, &mut events);
    assert!(narrow_phase.pairs.is_empty());
    assert!(matches!(
        events[0],
        PhysicsEvent::Intersection(IntersectionEvent { intersecting: false, .. })
    ));
}

#[test]
fn removal_takes_the_named_pair_only() {
    let (_, colliders, _) = boxes_in_a_row(&[0, 25, 50]);
    let mut narrow_phase = NarrowPhase::new();
    let mut events = Vec::new();
    let changes = vec![
        BroadPhasePairEvent::AddPair(pair(0, 1)),
        BroadPhasePairEvent::AddPair(pair(0, 2)),
        BroadPhasePairEvent::AddPair(pair(1, 2)),
    ];
    narrow_phase.register_pairs(&colliders, &changes, &mut events);
    narrow_phase.remove_where(Removal::Pair(pair(0, 2)), &colliders, &mut events);
    assert_eq!(narrow_phase.pairs.iter().map(|e| e.pair).collect::<Vec<_>>(), vec![pair(0, 1), pair(1, 2)]);
    assert!(events.is_empty());
}

struct NoContactWith(usize);

impl PhysicsHooks for NoContactWith {
    fn allows_contact(&self, collider1: ColliderHandle, collider2: ColliderHandle) -> bool {
        collider1.0 != self.0 && collider2.0 != self.0
    }

    fn allows_intersection(&self, _collider1: ColliderHandle, _collider2: ColliderHandle) -> bool {
        false
    }

    fn solver_distance(&self, _collider1: ColliderHandle, _collider2: ColliderHandle, distance: i64) -> i64 {
        distance + 100
    }

    fn filter_contact_pair(&self, collider1: ColliderHandle, collider2: ColliderHandle) -> bool {
        collider1.0 != self.0 && collider2.0 != self.0
    }

    fn modify_solver_contacts(&self, _collider1: ColliderHandle, _collider2: ColliderHandle, distance: i64) -> i64 {
        distance + 100
    }

    fn filter_intersection_pair(&self, _collider1: ColliderHandle, _collider2: ColliderHandle) -> bool {
        false
    }
}

#[test]
fn hooks_decide_which_pairs_touch() {
    let (bodies, colliders, _) = boxes_in_a_row(&[0, 25, 50]);
    let mut narrow_phase = NarrowPhase::new();
    let mut events = Vec::new();
    let changes = vec![BroadPhasePairEvent::AddPair(pair(0, 1)), BroadPhasePairEvent::AddPair(pair(1, 2))];
    narrow_phase.register_pairs(&colliders, &changes, &mut events);
    narrow_phase.compute_contacts(5, &bodies, &colliders, &NoContactWith(2), &mut events);
    assert_eq!(narrow_phase.pairs[0].manifold.unwrap().distance, 105);
    assert!(narrow_phase.pairs[1].manifold.is_none());
    assert_eq!(().modify_solver_contacts(ColliderHandle(1), ColliderHandle(2), -7), -7);
    assert!(().filter_contact_pair(ColliderHandle(1), ColliderHandle(2)));
    assert!(().filter_intersection_pair(ColliderHandle(1), ColliderHandle(2)));
}
