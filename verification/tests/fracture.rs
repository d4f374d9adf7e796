use physics_step::counters::{Counters, Timer};
use physics_step::dynamics::integration_parameters::IntegrationParameters;
use physics_step::dynamics::rigid_body::RigidBodyBuilder;
use physics_step::dynamics::rigid_body_set::{RigidBodyHandle, RigidBodySet};
use physics_step::geometry::broad_phase::ColliderPair;
use physics_step::geometry::collider::{ColliderBuilder, ColliderHandle, ColliderSet};
use physics_step::geometry::narrow_phase::{ContactManifold, ContactPair, NarrowPhase};
use physics_step::geometry::shape::{Aabb, Shape};
use physics_step::math::{
    add_saturating, distance_travelled, divide, rate_over, saturate, scale, sub_saturating, Axis, Isometry,
    Vector, TICKS_PER_SECOND,
};
use physics_step::pipeline::event_handler::{ContactEvent, FractureEvent, PhysicsEvent};
use physics_step::pipeline::voxel_fracture_hooks::{
    detach_fragment, handles_of, radius_of_fracture, ratio, region_of_fracture, report_fractures, FractureRequest, Fragment,
    VoxelFractureHooks, VoxelFractureMaterial,
};

#[test]
fn default_hooks_use_the_default_material() {
    assert_eq!(VoxelFractureHooks::default().default_material, VoxelFractureMaterial::default());
}

#[test]
fn default_material() {
    assert_eq!(
        VoxelFractureMaterial::default(),
        VoxelFractureMaterial { max_momentum: 10, min_force: 1, normal_dissipation: 1, max_fracture_radius: 1 }
    );
}

#[test]
fn voxels_break_where_the_contact_pushed_hard() {
    let material = VoxelFractureMaterial { max_momentum: 1000, min_force: 50, normal_dissipation: 1, max_fracture_radius: 11 };
    // An impulse of 10 over a tenth of a second is a force of 100:
    // 1000 / 100 = 10, which is less than 11.
    assert_eq!(radius_of_fracture(&material, 10, 100_000), Some(10));
    // A force of 90 gives a radius of 11: too far.
    assert_eq!(radius_of_fracture(&material, 9, 100_000), None);
    // A force of 40 is less than the least force.
    assert_eq!(radius_of_fracture(&material, 4, 100_000), None);
    assert_eq!(radius_of_fracture(&material, 1000, 100_000), Some(0));
    // Over no time at all there is no force.
    assert_eq!(radius_of_fracture(&material, 1000, 0), None);
    let soft = VoxelFractureMaterial { min_force: 0, ..material };
    assert_eq!(radius_of_fracture(&soft, 0, 100_000), Some(0));
    let any = VoxelFractureMaterial { min_force: -1000, ..material };
    assert_eq!(radius_of_fracture(&any, -10, 100_000), Some(-10));
}

#[test]
fn ratio_is_safe_at_zero() {
    assert_eq!(ratio(7, 0), 0);
    assert_eq!(ratio(7, 2), 3);
    assert_eq!(ratio(-7, 2), -3);
    assert_eq!(ratio(7, -2), -3);
    assert_eq!(ratio(-7, -2), 3);
    assert_eq!(ratio(i64::MIN, -1), i64::MAX);
    assert_eq!(ratio(5, i64::MIN), 0);
}

#[test]
fn region_reaches_into_the_shape_from_the_face_that_was_hit() {
    let bounds = Aabb { mins: Vector::new(-100, -50, -20), maxs: Vector::new(100, 50, 20) };
    assert_eq!(
        region_of_fracture(&bounds, Axis::Y, true, 7),
        Aabb { mins: Vector::new(-7, 43, -7), maxs: Vector::new(7, 50, 7) }
    );
    assert_eq!(
        region_of_fracture(&bounds, Axis::X, false, 7),
        Aabb { mins: Vector::new(-100, -7, -7), maxs: Vector::new(-93, 7, 7) }
    );
    assert_eq!(
        region_of_fracture(&bounds, Axis::Z, true, 0),
        Aabb { mins: Vector::new(0, 0, 20), maxs: Vector::new(0, 0, 20) }
    );
}

fn touching(c1: usize, c2: usize, impulse: i64, positive: bool) -> ContactPair {
    ContactPair {
        pair: ColliderPair { collider1: ColliderHandle(c1), collider2: ColliderHandle(c2) },
        sensor: false,
        manifold: Some(ContactManifold {
            body1: RigidBodyHandle(c1),
            body2: RigidBodyHandle(c2),
            axis: Axis::Y,
            positive,
            distance: 0,
            impulse,
        }),
        intersecting: false,
    }
}

#[test]
fn post_solve_asks_for_the_regions_of_voxel_colliders_only() {
    let mut bodies = RigidBodySet::new();
    let mut colliders = ColliderSet::new();
    for builder in [
        ColliderBuilder::voxels(100, 50, 20),
        ColliderBuilder::cuboid(10, 10, 10),
        ColliderBuilder::voxels(30, 30, 30),
        ColliderBuilder::voxels(1, 1, 1),
    ] {
        let h = bodies.insert(RigidBodyBuilder::new_dynamic().build());
        colliders.insert(builder.build(), h, &mut bodies);
    }
    colliders.remove(ColliderHandle(3));
    let mut narrow_phase = NarrowPhase::new();
    narrow_phase.pairs = vec![
        touching(0, 1, 10, true),
        ContactPair { manifold: None, ..touching(0, 2, 10, true) },
        touching(0, 2, 10, false),
        touching(1, 2, 4, true),
        touching(2, 3, 10, true),
    ];
    let hooks = VoxelFractureHooks::new(VoxelFractureMaterial {
        max_momentum: 1000,
        min_force: 50,
        normal_dissipation: 1,
        max_fracture_radius: 11,
    });
    let mut params = IntegrationParameters::default();
    params.dt = 100_000;
    let found = hooks.post_solve(&narrow_phase, &colliders, &params);
    assert_eq!(
        found,
        vec![
            FractureRequest {
                collider: ColliderHandle(0),
                region: Aabb { mins: Vector::new(-10, 40, -10), maxs: Vector::new(10, 50, 10) },
            },
            FractureRequest {
                collider: ColliderHandle(0),
                region: Aabb { mins: Vector::new(-10, -50, -10), maxs: Vector::new(10, -40, 10) },
            },
            FractureRequest {
                collider: ColliderHandle(2),
                region: Aabb { mins: Vector::new(-10, 20, -10), maxs: Vector::new(10, 30, 10) },
            },
            FractureRequest {
                collider: ColliderHandle(2),
                region: Aabb { mins: Vector::new(-10, 20, -10), maxs: Vector::new(10, 30, 10) },
            },
        ]
    );
    params.dt = 1_000_000;
    assert!(hooks.post_solve(&narrow_phase, &colliders, &params).is_empty());
}

fn piece(fractured: usize, fragment: usize) -> Fragment {
    Fragment { fractured_collider: ColliderHandle(fractured), fragment: ColliderHandle(fragment) }
}

#[test]
fn pieces_are_reported_by_the_collider_that_broke() {
    let pieces = vec![piece(4, 10), piece(2, 11), piece(4, 12), piece(9, 13), piece(4, 14), piece(2, 15)];
    let mut events = vec![PhysicsEvent::Contact(ContactEvent::Started(ColliderHandle(0), ColliderHandle(1)))];
    report_fractures(&pieces, &mut events);
    assert!(matches!(events[0], PhysicsEvent::Contact(_)));
    let mut reported: Vec<(usize, Vec<usize>)> = events[1..]
        .iter()
        .map(|event| match event {
            PhysicsEvent::Fracture(FractureEvent { fractured_collider, fragments }) => {
                (fractured_collider.0, fragments.iter().map(|h| h.0).collect())
            },
            _ => panic!("not a fracture"),
        })
        .collect();
    reported.sort();
    assert_eq!(reported, vec![(2, vec![11, 15]), (4, vec![10, 12, 14]), (9, vec![13])]);

    let before = events.len();
    report_fractures(&Vec::new(), &mut events);
    assert_eq!(events.len(), before);
    assert_eq!(handles_of(&vec![3, 1]), vec![ColliderHandle(3), ColliderHandle(1)]);
}

#[test]
fn timer_measures_only_while_it_runs() {
    let mut timer = Timer::new();
    assert_eq!(timer.time(), 0);
    assert!(timer.start.is_none());
    timer.pause();
    assert_eq!(timer.time(), 0);
    timer.resume();
    assert!(timer.start.is_some());
    timer.pause();
    assert!(timer.start.is_none());
    let measured = timer.time();
    timer.pause();
    assert_eq!(timer.time(), measured);
    timer.time = u64::MAX - 1;
    timer.resume();
    let mut spin = 0u64;
    for i in 0..200_000u64 {
        spin = spin.wrapping_add(i);
    }
    assert!(spin > 0);
    timer.pause();
    assert!(timer.time() >= u64::MAX - 1);
    timer.start();
    assert_eq!(timer.time(), 0);
    assert!(timer.start.is_some());
    timer.reset();
    assert!(timer.start.is_none());
}

#[test]
fn counters_follow_the_step() {
    let mut counters = Counters::new(true);
    assert!(counters.enabled);
    assert!(!counters.completed);
    counters.step_started();
    assert!(counters.step_time.start.is_some());
    counters.substep_taken(700);
    counters.substep_taken(300);
    assert_eq!(counters.num_substeps(), 2);
    assert_eq!(counters.simulated_time(), 1000);
    counters.step_completed();
    assert!(counters.completed);
    assert!(counters.step_time.start.is_none());
    counters.substep_taken(u64::MAX);
    assert_eq!(counters.simulated_time(), u64::MAX);
    counters.reset();
    assert!(!counters.completed);
    assert_eq!(counters.num_substeps(), 0);
    assert_eq!(counters.simulated_time(), 0);

    let mut disabled = Counters::new(false);
    disabled.step_started();
    assert!(disabled.step_time.start.is_none());
    disabled.step_completed();
    assert!(disabled.completed);
}

#[test]
fn arithmetic_holds_results_at_the_ends_of_the_range() {
    assert_eq!(TICKS_PER_SECOND, 1_000_000);
    assert_eq!(saturate(i64::MAX as i128 + 1), i64::MAX);
    assert_eq!(saturate(i64::MIN as i128 - 1), i64::MIN);
    assert_eq!(saturate(-17), -17);
    assert_eq!(add_saturating(i64::MAX, 1), i64::MAX);
    assert_eq!(add_saturating(-3, 5), 2);
    assert_eq!(sub_saturating(i64::MIN, 1), i64::MIN);
    assert_eq!(sub_saturating(3, 5), -2);
    assert_eq!(divide(7, 2), 3);
    assert_eq!(divide(-7, 2), -3);
    assert_eq!(divide(0, 9), 0);
    assert_eq!(scale(-3, 4), -12);
    assert_eq!(scale(i64::MIN, u64::MAX), i64::MIN as i128 * u64::MAX as i128);
    // 1500 units a second for 16 667 ticks: 25.0005 units.
    assert_eq!(distance_travelled(1500, 16_667), 25);
    assert_eq!(distance_travelled(-1500, 16_667), -25);
    assert_eq!(distance_travelled(i64::MAX, 2_000_000), i64::MAX);
    // 25 units in 16 667 ticks: 1499.97 units a second.
    assert_eq!(rate_over(25, 16_667), 1499);
    assert_eq!(rate_over(-25, 16_667), -1499);
    assert_eq!(rate_over(25, 0), 0);
    assert_eq!(rate_over(i64::MAX, 1), i64::MAX);
}

#[test]
fn vectors_work_coordinate_by_coordinate() {
    let v = Vector::new(1, -2, 3);
    assert_eq!(Vector::zeros(), Vector::new(0, 0, 0));
    assert_eq!((v.get(Axis::X), v.get(Axis::Y), v.get(Axis::Z)), (1, -2, 3));
    let mut w = v;
    w.set(Axis::Y, 20);
    assert_eq!(w, Vector::new(1, 20, 3));
    assert_eq!(v.plus(&w), Vector::new(2, 18, 6));
    assert_eq!(v.minus(&w), Vector::new(0, -22, 0));
    assert_eq!(Vector::new(i64::MAX, 0, i64::MIN).plus(&Vector::new(1, 0, -1)), Vector::new(i64::MAX, 0, i64::MIN));
    assert_eq!(Vector::new(1_000_000, -500_000, 1).integrate(500_000), Vector::new(500_000, -250_000, 0));
    assert_eq!(Vector::new(50, -30, 0).differentiate(16_667), Vector::new(2999, -1799, 0));
    assert_eq!(v.differentiate(0), Vector::zeros());
    assert_eq!(v.scaled(3), Vector::new(3, -6, 9));
    assert_eq!(Vector::new(i64::MAX, -1, 0).scaled(2), Vector::new(i64::MAX, -2, 0));
    assert_eq!(Vector::new(7, -7, 1).shrunk(2), Vector::new(3, -3, 0));
    assert_eq!(v.shrunk(0), Vector::zeros());
    assert_eq!(Isometry::identity(), Isometry::new(Vector::zeros(), Vector::zeros()));
    assert_eq!(Isometry::translation(1, 2, 3).translation, Vector::new(1, 2, 3));
    assert_eq!(Isometry::translation(1, 2, 3).rotation, Vector::zeros());
}

#[test]
fn body_builder_sets_what_it_is_told() {
    let body = RigidBodyBuilder::new_dynamic()
        .position(Isometry::new(Vector::new(1, 2, 3), Vector::new(4, 5, 6)))
        .translation(7, 8, 9)
        .linvel(Vector::new(1, 1, 1))
        .angvel(Vector::new(2, 2, 2))
        .mass(5)
        .ccd_enabled(true)
        .sleeping(true)
        .build();
    assert!(body.is_dynamic() && !body.is_kinematic() && !body.is_static());
    assert_eq!(body.position, Isometry::new(Vector::new(7, 8, 9), Vector::new(4, 5, 6)));
    assert_eq!(body.next_position, body.position);
    assert_eq!((body.mass, body.ccd_enabled, body.sleeping), (5, true, true));
    assert!(body.is_moving());
    assert!(!RigidBodyBuilder::new_static().build().is_moving());
    assert!(RigidBodyBuilder::new_static().build().is_static());
    assert_eq!(body.ccd_thickness, i64::MAX);
    assert_eq!(body.placement, None);

    let mut weighed = body;
    weighed.local_com = Vector::new(0, 1, 0);
    weighed.update_world_mass_properties();
    assert_eq!(weighed.world_com, Vector::new(7, 9, 9));
    weighed.add_gravity(Vector::new(0, -10, 0));
    weighed.add_gravity(Vector::new(1, 0, 0));
    assert_eq!(weighed.force, Vector::new(5, -50, 0));

    let mut kinematic = RigidBodyBuilder::new_kinematic().linvel(Vector::new(9, 9, 9)).build();
    kinematic.next_position = Isometry::new(Vector::new(0, 100, 0), Vector::new(0, 0, 10));
    kinematic.compute_velocity_from_next_position(1_000_000);
    assert_eq!(kinematic.linvel, Vector::new(0, 100, 0));
    assert_eq!(kinematic.angvel, Vector::new(0, 0, 10));
    kinematic.commit();
    assert_eq!(kinematic.position, kinematic.next_position);
    assert_eq!(kinematic.linvel, Vector::zeros());
    assert_eq!(kinematic.angvel, Vector::zeros());
    let mut dynamic = RigidBodyBuilder::new_dynamic().linvel(Vector::new(9, 9, 9)).build();
    dynamic.next_position = Isometry::translation(1, 1, 1);
    dynamic.commit();
    assert_eq!(dynamic.position, Isometry::translation(1, 1, 1));
    assert_eq!(dynamic.linvel, Vector::new(9, 9, 9));
}

#[test]
fn body_set_changes_one_body_at_a_time() {
    let mut bodies = RigidBodySet::new();
    let mut colliders = ColliderSet::new();
    let a = bodies.insert(RigidBodyBuilder::new_dynamic().build());
    let b = bodies.insert(RigidBodyBuilder::new_dynamic().sleeping(true).build());
    assert_eq!((a, b), (RigidBodyHandle(0), RigidBodyHandle(1)));
    assert_eq!(bodies.len(), 2);
    bodies.set_linvel(a, Vector::new(1, 2, 3));
    bodies.set_sleeping(b, false);
    bodies.set_next_kinematic_position(b, Isometry::translation(5, 5, 5));
    bodies.set_linvel(RigidBodyHandle(5), Vector::new(1, 2, 3));
    bodies.note_thickness(a, 12);
    bodies.note_thickness(a, 15);
    assert_eq!(bodies.get(a).unwrap().linvel, Vector::new(1, 2, 3));
    assert_eq!(bodies.get(a).unwrap().ccd_thickness, 12);
    assert!(!bodies.get(b).unwrap().sleeping);
    assert_eq!(bodies.get(b).unwrap().next_position, Isometry::translation(5, 5, 5));
    assert_eq!(bodies.get(b).unwrap().position, Isometry::identity());
    assert_eq!(bodies.get(RigidBodyHandle(2)), None);

    bodies.set_sleeping(b, true);
    bodies.handle_user_changes(&mut colliders);
    assert_eq!(bodies.active_dynamic_set, vec![a.0]);
    assert_eq!(bodies.active_islands, vec![0, 1]);
    assert!(bodies.get(a).unwrap().placement.is_some());
    // A body that is being simulated is not noted as moved while inactive.
    bodies.set_position(a, Isometry::translation(1, 0, 0));
    bodies.set_position(b, Isometry::translation(2, 0, 0));
    assert_eq!(bodies.modified_inactive_set, vec![b]);
    bodies.clear_modified_inactive_set();
    assert!(bodies.modified_inactive_set.is_empty());
}

#[test]
fn a_piece_that_breaks_off_becomes_a_body_of_its_own() {
    let mut bodies = RigidBodySet::new();
    let mut colliders = ColliderSet::new();
    let wall = bodies.insert(RigidBodyBuilder::new_static().translation(100, 200, 300).build());
    let block = colliders.insert(ColliderBuilder::voxels(50, 40, 30).build(), wall, &mut bodies);
    let request = FractureRequest {
        collider: block,
        region: Aabb { mins: Vector::new(-5, 36, -5), maxs: Vector::new(5, 40, 5) },
    };
    let fragment = detach_fragment(&request, (5, 2, 5), (50, 38, 30), &mut bodies, &mut colliders);
    assert_eq!(fragment, Some(Fragment { fractured_collider: block, fragment: ColliderHandle(1) }));

    // What is left of the block stays where it was, on its body.
    let rest = colliders.get(block).unwrap();
    assert_eq!(rest.shape, Shape::Voxels { half_extents: Vector::new(50, 38, 30) });
    assert_eq!(rest.parent, wall);
    assert_eq!(rest.position, Vector::new(100, 200, 300));

    // The piece is a voxel collider on a new dynamic body, at the same place.
    let piece = colliders.get(ColliderHandle(1)).unwrap();
    assert_eq!(piece.shape, Shape::Voxels { half_extents: Vector::new(5, 2, 5) });
    assert_eq!(piece.parent, RigidBodyHandle(1));
    assert_eq!(piece.position, Vector::new(100, 200, 300));
    assert!(!piece.sensor);
    assert_eq!(bodies.len(), 2);
    let body = bodies.get(RigidBodyHandle(1)).unwrap();
    assert!(body.is_dynamic());
    assert_eq!(body.position, Isometry::translation(100, 200, 300));
    assert_eq!(body.linvel, Vector::zeros());
    assert_eq!(body.ccd_thickness, 2);
    assert_eq!(colliders.modified_colliders, vec![block, ColliderHandle(1)]);
}

#[test]
fn nothing_breaks_off_a_collider_that_is_gone() {
    let mut bodies = RigidBodySet::new();
    let mut colliders = ColliderSet::new();
    let wall = bodies.insert(RigidBodyBuilder::new_static().build());
    let block = colliders.insert(ColliderBuilder::voxels(50, 40, 30).build(), wall, &mut bodies);
    colliders.remove(block);
    let request = FractureRequest {
        collider: block,
        region: Aabb { mins: Vector::new(-5, 36, -5), maxs: Vector::new(5, 40, 5) },
    };
    assert_eq!(detach_fragment(&request, (5, 2, 5), (50, 38, 30), &mut bodies, &mut colliders), None);
    assert_eq!(bodies.len(), 1);
    assert_eq!(colliders.slots, vec![None]);
    let nowhere = FractureRequest { collider: ColliderHandle(9), ..request };
    assert_eq!(detach_fragment(&nowhere, (5, 2, 5), (50, 38, 30), &mut bodies, &mut colliders), None);
    assert_eq!(bodies.len(), 1);
}

#[test]
fn a_shape_is_replaced_in_place() {
    let mut bodies = RigidBodySet::new();
    let mut colliders = ColliderSet::new();
    let body = bodies.insert(RigidBodyBuilder::new_dynamic().translation(1, 2, 3).build());
    let c = colliders.insert(ColliderBuilder::ball(10).translation(5, 0, 0).sensor(true).build(), body, &mut bodies);
    let before = colliders.get(c).unwrap();
    assert!(colliders.set_shape(c, Shape::Cuboid { half_extents: Vector::new(1, 2, 3) }));
    let after = colliders.get(c).unwrap();
    assert_eq!(after.shape, Shape::Cuboid { half_extents: Vector::new(1, 2, 3) });
    assert_eq!(after.parent, before.parent);
    assert_eq!(after.delta, before.delta);
    assert_eq!(after.position, Vector::new(6, 2, 3));
    assert!(after.sensor);
    assert!(!colliders.set_shape(ColliderHandle(4), Shape::Ball { radius: 1 }));
    assert_eq!(colliders.len(), 1);
}
