use physics_step::dynamics::ccd_solver::{
    body_velocity, earliest_impact, impact_between, is_watched, CCDSolver, Impact,
};
use physics_step::dynamics::island_dispatcher::{solve_islands, solve_sequentially, DispatchStrategy};
use physics_step::dynamics::island_solver::{nudge, push_apart, side_speed, IslandSolver, Partner, SolverContact};
use physics_step::dynamics::rigid_body::{BodyStatus, RigidBody, RigidBodyBuilder};
use physics_step::dynamics::rigid_body_set::{RigidBodyHandle, RigidBodySet};
use physics_step::geometry::collider::{ColliderBuilder, ColliderSet};
use physics_step::geometry::narrow_phase::{ContactManifold, NarrowPhase};
use physics_step::geometry::shape::Aabb;
use physics_step::math::{Axis, Isometry, Vector};
use physics_step::pipeline::physics_pipeline::{grow_lists, grow_solvers, load_islands, ready_active_bodies};

fn moving(x: i64, vx: i64) -> RigidBody {
    RigidBodyBuilder::new_dynamic().translation(x, 0, 0).linvel(Vector::new(vx, 0, 0)).build()
}

fn contact(first: Partner, second: Partner, distance: i64) -> SolverContact {
    SolverContact { first, second, axis: Axis::X, positive: true, distance, impulse: 0 }
}

#[test]
fn contact_takes_out_what_closes_the_gap_too_fast() {
    // 1000 units apart with a tenth of a second to go: 10 000 units a second
    // are allowed. The first closes in at 30 000, the second flees at 4 000.
    let mut bodies = vec![moving(0, 30_000), moving(2000, 4_000)];
    let c = contact(Partner::Member(0), Partner::Member(1), 1000);
    assert_eq!(side_speed(&bodies, &c.first, Axis::X), (30_000, true));
    assert_eq!(side_speed(&bodies, &Partner::Member(2), Axis::X), (0, false));
    assert_eq!(side_speed(&bodies, &Partner::Fixed(Vector::new(5, 6, 7)), Axis::Y), (6, false));
    let impulse = push_apart(&mut bodies, &c, 100_000);
    // 26 000 - 10 000, shared half and half.
    assert_eq!(impulse, 16_000);
    assert_eq!(bodies[0].linvel, Vector::new(22_000, 0, 0));
    assert_eq!(bodies[1].linvel, Vector::new(12_000, 0, 0));
}

#[test]
fn odd_excess_leaves_the_larger_half_to_the_second() {
    let mut bodies = vec![moving(0, 7), moving(100, 0)];
    let impulse = push_apart(&mut bodies, &contact(Partner::Member(0), Partner::Member(1), 0), 1000);
    assert_eq!(impulse, 7);
    assert_eq!(bodies[0].linvel.x, 4);
    assert_eq!(bodies[1].linvel.x, 4);
}

#[test]
fn fixed_side_does_not_yield() {
    let mut bodies = vec![moving(0, -500)];
    let wall = contact(Partner::Fixed(Vector::zeros()), Partner::Member(0), 0);
    assert_eq!(push_apart(&mut bodies, &wall, 1000), 500);
    assert_eq!(bodies[0].linvel.x, 0);

    let mut bodies = vec![moving(0, 300)];
    let mut behind = contact(Partner::Member(0), Partner::Fixed(Vector::new(-200, 0, 0)), 0);
    assert_eq!(push_apart(&mut bodies, &behind, 1000), 500);
    assert_eq!(bodies[0].linvel.x, -200);

    // Seen from the other side the same pair parts: nothing is taken out.
    behind.positive = false;
    let mut bodies = vec![moving(0, 300)];
    assert_eq!(push_apart(&mut bodies, &behind, 1000), 0);
    assert_eq!(bodies[0].linvel.x, 300);
}

#[test]
fn bodies_that_part_are_left_alone() {
    let mut bodies = vec![moving(0, -10), moving(100, 10)];
    assert_eq!(push_apart(&mut bodies, &contact(Partner::Member(0), Partner::Member(1), -5), 1000), 0);
    assert_eq!(bodies[0].linvel.x, -10);
    assert_eq!(bodies[1].linvel.x, 10);
}

#[test]
fn nudge_changes_one_coordinate_of_one_body() {
    let mut bodies = vec![moving(0, 1), moving(0, 2)];
    nudge(&mut bodies, &Partner::Member(1), Axis::Z, -9);
    nudge(&mut bodies, &Partner::Member(5), Axis::Z, -9);
    nudge(&mut bodies, &Partner::Fixed(Vector::zeros()), Axis::Z, -9);
    assert_eq!(bodies[0].linvel, Vector::new(1, 0, 0));
    assert_eq!(bodies[1].linvel, Vector::new(2, 0, -9));
    nudge(&mut bodies, &Partner::Member(0), Axis::X, i64::MAX as i128);
    assert_eq!(bodies[0].linvel.x, i64::MAX);
}

#[test]
fn solve_integrates_forces_applies_contacts_and_derives_next_positions() {
    let mut solver = IslandSolver::new();
    let mut falling = RigidBodyBuilder::new_dynamic().translation(0, 1000, 0).mass(2).build();
    falling.force = Vector::new(0, -20_000, 0);
    falling.angvel = Vector::new(0, 0, 500);
    let mut massless = moving(50, 100);
    massless.mass = 0;
    massless.force = Vector::new(1, 1, 1);
    solver.bodies = vec![falling, massless];
    solver.contacts = vec![SolverContact {
        first: Partner::Fixed(Vector::zeros()),
        second: Partner::Member(0),
        axis: Axis::Y,
        positive: true,
        distance: 50,
        impulse: 0,
    }];
    solver.joints = vec![3];
    solver.solve(100_000);
    // -20 000 / 2 for a tenth of a second is -1000 a second; 50 units in a
    // tenth of a second allow 500 a second.
    assert_eq!(solver.contacts[0].impulse, 500);
    assert_eq!(solver.bodies[0].linvel, Vector::new(0, -500, 0));
    assert_eq!(solver.bodies[0].force, Vector::zeros());
    assert_eq!(solver.bodies[0].position, Isometry::translation(0, 1000, 0));
    assert_eq!(solver.bodies[0].next_position, Isometry::new(Vector::new(0, 950, 0), Vector::new(0, 0, 50)));
    assert_eq!(solver.bodies[1].linvel, Vector::new(100, 0, 0));
    assert_eq!(solver.bodies[1].next_position, Isometry::translation(60, 0, 0));
    assert_eq!(solver.joints, vec![3]);
}

fn loaded(n: usize) -> Vec<IslandSolver> {
    let mut solvers = Vec::new();
    for i in 0..n {
        let mut solver = IslandSolver::new();
        solver.bodies = vec![moving(0, 1000 * (i as i64 + 1)), moving(100, -1000)];
        solver.contacts = vec![contact(Partner::Member(0), Partner::Member(1), 10)];
        solvers.push(solver);
    }
    solvers
}

fn state(solvers: &[IslandSolver]) -> Vec<(Vec<RigidBody>, Vec<SolverContact>)> {
    solvers.iter().map(|s| (s.bodies.clone(), s.contacts.clone())).collect()
}

#[test]
fn islands_are_solved_each_for_itself_whatever_the_strategy() {
    let untouched = state(&loaded(5));
    let mut expected = loaded(5);
    for solver in expected.iter_mut().take(4) {
        solver.solve(10_000);
    }
    let expected = state(&expected);
    assert_ne!(expected[3], untouched[3]);
    assert_eq!(expected[4], untouched[4]);

    let mut one_by_one = loaded(5);
    solve_sequentially(&mut one_by_one, 4, 10_000);
    assert_eq!(state(&one_by_one), expected);

    let mut at_once = loaded(5);
    solve_islands(&mut at_once, 4, 10_000, DispatchStrategy::Concurrent);
    assert_eq!(state(&at_once), expected);

    let mut chosen = loaded(5);
    solve_islands(&mut chosen, 4, 10_000, DispatchStrategy::Sequential);
    assert_eq!(state(&chosen), expected);

    let mut all = loaded(3);
    solve_islands(&mut all, 9, 10_000, DispatchStrategy::Concurrent);
    assert_eq!(state(&all), expected[..3].to_vec());
    let mut each = loaded(3);
    solve_sequentially(&mut each, 9, 10_000);
    assert_eq!(state(&each), expected[..3].to_vec());

    let mut none = loaded(5);
    solve_islands(&mut none, 0, 10_000, DispatchStrategy::Concurrent);
    assert_eq!(state(&none), untouched);
}

#[test]
fn islands_are_handed_to_their_solvers_and_taken_back() {
    let mut bodies = RigidBodySet::new();
    let ground = bodies.insert(RigidBodyBuilder::new_static().build());
    let a = bodies.insert(moving(0, 10));
    let b = bodies.insert(moving(100, 20));
    let c = bodies.insert(moving(200, 30));
    let edges = vec![Some(physics_step::dynamics::islands::Edge { body1: c.0, body2: a.0 })];
    bodies.update_active_set(&edges, 1);
    assert_eq!(bodies.active_dynamic_set, vec![a.0, c.0, b.0]);
    assert_eq!(bodies.active_islands, vec![0, 2, 3]);

    ready_active_bodies(&mut bodies, &Vector::new(0, -10, 0));
    assert_eq!(bodies.get(a).unwrap().force, Vector::new(0, -10, 0));
    assert_eq!(bodies.get(c).unwrap().world_com, Vector::new(200, 0, 0));
    assert_eq!(bodies.get(ground).unwrap().force, Vector::zeros());

    let manifold = |body1: RigidBodyHandle, body2: RigidBodyHandle| ContactManifold {
        body1,
        body2,
        axis: Axis::X,
        positive: true,
        distance: 1,
        impulse: 0,
    };
    let manifolds = vec![manifold(ground, b), manifold(a, c), manifold(c, ground), manifold(b, a)];
    let mut solvers = Vec::new();
    grow_solvers(&mut solvers, 3);
    assert_eq!(solvers.len(), 3);
    grow_solvers(&mut solvers, 2);
    assert_eq!(solvers.len(), 3);
    let mut lists = vec![vec![1usize]];
    grow_lists(&mut lists, 2);
    assert_eq!(lists, vec![vec![1], vec![]]);
    let manifold_indices = vec![vec![1, 2], vec![0, 3]];
    let joint_indices = vec![vec![4], vec![]];
    load_islands(&mut solvers, 2, &bodies, &manifolds, &manifold_indices, &joint_indices);
    assert_eq!(solvers[0].bodies, vec![bodies.get(a).unwrap(), bodies.get(c).unwrap()]);
    assert_eq!(solvers[1].bodies, vec![bodies.get(b).unwrap()]);
    assert_eq!(solvers[0].joints, vec![4]);
    assert_eq!(
        solvers[0].contacts.iter().map(|c| (c.first, c.second)).collect::<Vec<_>>(),
        vec![
            (Partner::Member(0), Partner::Member(1)),
            (Partner::Member(1), Partner::Fixed(Vector::zeros())),
        ]
    );
    // A body of another island is a body that does not yield.
    assert_eq!(
        solvers[1].contacts.iter().map(|c| (c.first, c.second)).collect::<Vec<_>>(),
        vec![
            (Partner::Fixed(Vector::zeros()), Partner::Member(0)),
            (Partner::Member(0), Partner::Fixed(Vector::new(10, 0, 0))),
        ]
    );
    assert_eq!(bodies.partner(0, RigidBodyHandle(17)), Partner::Fixed(Vector::zeros()));
    assert!(solvers[2].bodies.is_empty());

    solvers[0].bodies[1].linvel = Vector::new(-1, -2, -3);
    solvers[1].bodies[0].next_position = Isometry::translation(9, 9, 9);
    bodies.store_solved(&solvers);
    assert_eq!(bodies.get(c).unwrap().linvel, Vector::new(-1, -2, -3));
    assert_eq!(bodies.get(b).unwrap().next_position, Isometry::translation(9, 9, 9));
    assert_eq!(bodies.get(a).unwrap().linvel, Vector::new(10, 0, 0));
    assert_eq!(bodies.get(ground).unwrap().status, BodyStatus::Static);
}

#[test]
fn contacts_are_listed_by_island_and_get_their_impulses_back() {
    let mut bodies = RigidBodySet::new();
    let mut colliders = ColliderSet::new();
    let mut handles = Vec::new();
    for x in [0, 25, 1000, 1025, 5000] {
        let h = bodies.insert(moving(x, 0));
        colliders.insert(ColliderBuilder::cuboid(10, 10, 10).build(), h, &mut bodies);
        handles.push(h);
    }
    let ground = bodies.insert(RigidBodyBuilder::new_static().translation(5025, 0, 0).build());
    colliders.insert(ColliderBuilder::cuboid(10, 10, 10).build(), ground, &mut bodies);
    let mut broad_phase = physics_step::geometry::broad_phase::BroadPhase::new();
    let mut changes = Vec::new();
    broad_phase.update(5, &colliders, &mut changes);
    let mut narrow_phase = NarrowPhase::new();
    let mut events = Vec::new();
    narrow_phase.register_pairs(&colliders, &changes, &mut events);
    narrow_phase.compute_contacts(5, &bodies, &colliders, &(), &mut events);
    assert_eq!(narrow_phase.pairs.len(), 3);
    bodies.update_active_set_with_contacts(&narrow_phase, &Vec::new(), 1);
    assert_eq!(bodies.active_islands, vec![0, 2, 4, 5]);

    let mut manifolds = vec![];
    let mut lists = vec![vec![9usize], vec![], vec![]];
    narrow_phase.select_active_contacts(&bodies, &mut manifolds, &mut lists);
    assert_eq!(manifolds.len(), 3);
    assert_eq!(lists, vec![vec![0], vec![1], vec![2]]);
    assert_eq!(manifolds[2].body2, ground);
    let mut short = vec![vec![]];
    narrow_phase.select_active_contacts(&bodies, &mut manifolds, &mut short);
    assert_eq!(manifolds.len(), 3);
    assert_eq!(short, vec![vec![0]]);

    let mut solvers = Vec::new();
    grow_solvers(&mut solvers, 3);
    for (i, solver) in solvers.iter_mut().enumerate() {
        solver.contacts = vec![contact(Partner::Member(0), Partner::Member(1), 5)];
        solver.contacts[0].impulse = 100 + i as i64;
    }
    solvers.pop();
    narrow_phase.store_impulses(&bodies, &solvers);
    let impulses: Vec<i64> = narrow_phase.pairs.iter().map(|e| e.manifold.unwrap().impulse).collect();
    assert_eq!(impulses, vec![100, 101, 0]);
}

#[test]
fn fast_body_is_watched_if_it_asks_for_it() {
    let mut body = RigidBodyBuilder::new_dynamic().linvel(Vector::new(0, -6000, 0)).ccd_enabled(true).build();
    body.ccd_thickness = 100;
    // 6000 units a second cover 100 units in 16 667 ticks: not more than the
    // body is thick.
    assert!(!is_watched(&body, 16_667));
    assert!(is_watched(&body, 17_000));
    body.ccd_enabled = false;
    assert!(!is_watched(&body, 17_000));
    body.ccd_enabled = true;
    body.sleeping = true;
    assert!(!is_watched(&body, 17_000));
    body.sleeping = false;
    body.status = BodyStatus::Kinematic;
    assert!(!is_watched(&body, 17_000));

    let mut bodies = RigidBodySet::new();
    let slow = bodies.insert(RigidBodyBuilder::new_dynamic().ccd_enabled(true).build());
    let ccd = CCDSolver::new();
    assert!(!ccd.update_ccd_active_flags(&mut bodies, 16_667));
    let mut fast = moving(0, 1_000_000);
    fast.ccd_enabled = true;
    fast.ccd_thickness = 10;
    let fast = bodies.insert(fast);
    assert!(ccd.update_ccd_active_flags(&mut bodies, 16_667));
    assert!(bodies.get(fast).unwrap().ccd_active);
    assert!(!bodies.get(slow).unwrap().ccd_active);
    assert!(!ccd.update_ccd_active_flags(&mut bodies, 0));
    assert!(!bodies.get(fast).unwrap().ccd_active);
}

fn cube(x: i64, half: i64) -> Aabb {
    Aabb { mins: Vector::new(x - half, -half, -half), maxs: Vector::new(x + half, half, half) }
}

#[test]
fn time_of_impact_of_two_boxes() {
    let a = cube(0, 10);
    let b = cube(120, 10);
    let rest = Vector::zeros();
    // 100 units apart, closing at 1000 units a second: a tenth of a second.
    assert_eq!(impact_between(&a, &b, &Vector::new(1000, 0, 0), &rest, 200_000), Some(100_000));
    assert_eq!(impact_between(&a, &b, &Vector::new(600, 0, 0), &Vector::new(-400, 0, 0), 200_000), Some(100_000));
    assert_eq!(impact_between(&b, &a, &Vector::new(-1000, 0, 0), &rest, 100_000), Some(100_000));
    // Too late, moving apart, or not moving at all.
    assert_eq!(impact_between(&a, &b, &Vector::new(1000, 0, 0), &rest, 99_999), None);
    assert_eq!(impact_between(&a, &b, &Vector::new(-1000, 0, 0), &rest, 200_000), None);
    assert_eq!(impact_between(&a, &b, &rest, &rest, 200_000), None);
    // Passing by: the boxes have left each other's way before they are abreast.
    assert_eq!(impact_between(&a, &b, &Vector::new(1000, 1000, 0), &rest, 200_000), None);
    assert_eq!(impact_between(&a, &b, &Vector::new(1000, 100, 0), &rest, 200_000), Some(100_000));
    // Touching or overlapping boxes meet at once.
    assert_eq!(impact_between(&a, &cube(20, 10), &rest, &rest, 5), Some(0));
    assert_eq!(impact_between(&a, &cube(5, 10), &Vector::new(0, 7, 0), &rest, 0), Some(0));
    // A time that does not come out whole is rounded down.
    assert_eq!(impact_between(&a, &b, &Vector::new(3000, 0, 0), &rest, 200_000), Some(33_333));
}

fn runway() -> (RigidBodySet, ColliderSet, RigidBodyHandle, RigidBodyHandle) {
    let mut bodies = RigidBodySet::new();
    let mut colliders = ColliderSet::new();
    let mut bullet = moving(0, 1_000_000);
    bullet.ccd_enabled = true;
    let bullet = bodies.insert(bullet);
    colliders.insert(ColliderBuilder::ball(100).build(), bullet, &mut bodies);
    let far = bodies.insert(RigidBodyBuilder::new_static().translation(9000, 0, 0).build());
    colliders.insert(ColliderBuilder::cuboid(10, 1000, 1000).build(), far, &mut bodies);
    let near = bodies.insert(RigidBodyBuilder::new_static().translation(5000, 0, 0).build());
    colliders.insert(ColliderBuilder::cuboid(10, 1000, 1000).build(), near, &mut bodies);
    let sensor = bodies.insert(RigidBodyBuilder::new_static().translation(1000, 0, 0).build());
    colliders.insert(ColliderBuilder::cuboid(10, 1000, 1000).sensor(true).build(), sensor, &mut bodies);
    let mut other = moving(0, -1_000_000);
    other.ccd_enabled = true;
    let other = bodies.insert(other);
    colliders.insert(ColliderBuilder::ball(100).translation(0, 50_000, 0).build(), other, &mut bodies);
    (bodies, colliders, bullet, other)
}

#[test]
fn earliest_impact_is_that_with_the_nearest_obstacle() {
    let (mut bodies, colliders, bullet, other) = runway();
    let mut ccd = CCDSolver::new();
    // Nobody is watched yet.
    assert_eq!(ccd.find_first_impact(16_667, &bodies, &colliders), None);
    assert!(ccd.update_ccd_active_flags(&mut bodies, 16_667));
    assert_eq!(body_velocity(&bodies, bullet), Vector::new(1_000_000, 0, 0));
    assert_eq!(body_velocity(&bodies, RigidBodyHandle(99)), Vector::zeros());
    assert_eq!(ccd.find_first_impact(16_667, &bodies, &colliders), Some(4890));
    assert_eq!(ccd.find_first_impact(4889, &bodies, &colliders), None);
    assert_eq!(earliest_impact(&bodies, &colliders, Some(bullet.0), 16_667), Some(4890));
    assert_eq!(earliest_impact(&bodies, &colliders, Some(other.0), 16_667), None);
    assert_eq!(earliest_impact(&bodies, &colliders, Some(1), 16_667), None);
    assert_eq!(ccd.queries, 3);

    let impacts = ccd.predict_impacts_at_next_positions(16_667, &bodies, &colliders);
    assert_eq!(impacts, vec![Impact { body: bullet, toi: 4890 }]);

    let mut next = bodies.get(bullet).unwrap();
    next.next_position = Isometry::translation(16_667, 0, 0);
    bodies.slots[bullet.0] = Some(next);
    ccd.clamp_motions(&mut bodies, &impacts);
    assert_eq!(bodies.get(bullet).unwrap().next_position, Isometry::translation(4890, 0, 0));
    assert_eq!(bodies.get(bullet).unwrap().position, Isometry::translation(0, 0, 0));
    ccd.clamp_motions(&mut bodies, &vec![Impact { body: RigidBodyHandle(77), toi: 1 }]);
    assert_eq!(bodies.get(other).unwrap().next_position, Isometry::translation(0, 0, 0));
}
