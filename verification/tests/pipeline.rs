use physics_step::dynamics::ccd_solver::CCDSolver;
use physics_step::dynamics::integration_parameters::IntegrationParameters;
use physics_step::dynamics::island_dispatcher::DispatchStrategy;
use physics_step::dynamics::joint::fixed_joint::FixedJoint;
use physics_step::dynamics::joint::joint_set::JointSet;
use physics_step::dynamics::rigid_body::RigidBodyBuilder;
use physics_step::dynamics::rigid_body_set::RigidBodySet;
use physics_step::geometry::broad_phase::BroadPhase;
use physics_step::geometry::collider::{ColliderBuilder, ColliderSet};
use physics_step::geometry::narrow_phase::NarrowPhase;
use physics_step::math::{Isometry, Vector};
use physics_step::pipeline::event_handler::{ContactEvent, PhysicsEvent};
use physics_step::pipeline::physics_pipeline::PhysicsPipeline;

#[test]
fn kinematic_and_static_contact_crash() {
    let mut colliders = ColliderSet::new();
    let mut joints = JointSet::new();
    let mut pipeline = PhysicsPipeline::new();
    let mut bf = BroadPhase::new();
    let mut nf = NarrowPhase::new();
    let mut bodies = RigidBodySet::new();
    let mut ccd = CCDSolver::new();
    let mut events = Vec::new();

    let rb = RigidBodyBuilder::new_static().build();
    let h1 = bodies.insert(rb.clone());
    let co = ColliderBuilder::ball(10).build();
    colliders.insert(co.clone(), h1, &mut bodies);

    // The same but with a kinematic body.
    let rb = RigidBodyBuilder::new_kinematic().build();
    let h2 = bodies.insert(rb.clone());
    colliders.insert(co, h2, &mut bodies);

    pipeline.step(
        &Vector::zeros(),
        &IntegrationParameters::default(),
        &mut bf,
        &mut nf,
        &mut bodies,
        &mut colliders,
        &mut joints,
        &mut ccd,
        &(),
        &mut events,
    );

    // The two balls overlap, but neither body is dynamic: the pair is
    // watched and holds no contact.
    assert_eq!(bf.pairs.len(), 1);
    assert_eq!(nf.pairs.len(), 1);
    assert!(nf.pairs[0].manifold.is_none());
    assert!(events.is_empty());
    assert!(pipeline.counters.completed);
}

#[test]
fn rigid_body_removal_before_step() {
    let mut colliders = ColliderSet::new();
    let mut joints = JointSet::new();
    let mut pipeline = PhysicsPipeline::new();
    let mut bf = BroadPhase::new();
    let mut nf = NarrowPhase::new();
    let mut ccd = CCDSolver::new();
    let mut events = Vec::new();

    let mut bodies = RigidBodySet::new();

    // Check that removing the body right after inserting it works.
    // We add two dynamic bodies, one kinematic body and one static body before removing
    // them. This include a non-regression test where deleting a kimenatic body crashes.
    let rb = RigidBodyBuilder::new_dynamic().build();
    let h1 = bodies.insert(rb.clone());
    let h2 = bodies.insert(rb.clone());

    // The same but with a kinematic body.
    let rb = RigidBodyBuilder::new_kinematic().build();
    let h3 = bodies.insert(rb.clone());

    // The same but with a static body.
    let rb = RigidBodyBuilder::new_static().build();
    let h4 = bodies.insert(rb.clone());

    let to_delete = [h1, h2, h3, h4];
    for h in &to_delete {
        bodies.remove(*h, &mut colliders, &mut joints);
    }

    pipeline.step(
        &Vector::zeros(),
        &IntegrationParameters::default(),
        &mut bf,
        &mut nf,
        &mut bodies,
        &mut colliders,
        &mut joints,
        &mut ccd,
        &(),
        &mut events,
    );

    for h in &to_delete {
        assert!(bodies.get(*h).is_none());
    }
    assert_eq!(bodies.active_dynamic_set.len(), 0);
    assert!(pipeline.counters.completed);
}

#[test]
fn rigid_body_removal_snapshot_handle_determinism() {
    let mut colliders = ColliderSet::new();
    let mut joints = JointSet::new();

    let mut bodies = RigidBodySet::new();
    let rb = RigidBodyBuilder::new_dynamic().build();
    let h1 = bodies.insert(rb.clone());
    let h2 = bodies.insert(rb.clone());
    let h3 = bodies.insert(rb.clone());

    bodies.remove(h1, &mut colliders, &mut joints);
    bodies.remove(h3, &mut colliders, &mut joints);
    bodies.remove(h2, &mut colliders, &mut joints);

    // A copy of the set hands out the same handles as the set itself.
    let mut bodies2: RigidBodySet = bodies.clone();

    let h1a = bodies.insert(rb.clone());
    let h2a = bodies.insert(rb.clone());
    let h3a = bodies.insert(rb.clone());

    let h1b = bodies2.insert(rb.clone());
    let h2b = bodies2.insert(rb.clone());
    let h3b = bodies2.insert(rb.clone());

    assert_eq!(h1a, h1b);
    assert_eq!(h2a, h2b);
    assert_eq!(h3a, h3b);
}

struct World {
    pipeline: PhysicsPipeline,
    bf: BroadPhase,
    nf: NarrowPhase,
    bodies: RigidBodySet,
    colliders: ColliderSet,
    joints: JointSet,
    ccd: CCDSolver,
    events: Vec<PhysicsEvent>,
}

fn world(strategy: DispatchStrategy) -> World {
    World {
        pipeline: PhysicsPipeline::with_strategy(strategy),
        bf: BroadPhase::new(),
        nf: NarrowPhase::new(),
        bodies: RigidBodySet::new(),
        colliders: ColliderSet::new(),
        joints: JointSet::new(),
        ccd: CCDSolver::new(),
        events: Vec::new(),
    }
}

fn step(w: &mut World, gravity: &Vector, params: &IntegrationParameters) {
    w.pipeline.step(
        gravity,
        params,
        &mut w.bf,
        &mut w.nf,
        &mut w.bodies,
        &mut w.colliders,
        &mut w.joints,
        &mut w.ccd,
        &(),
        &mut w.events,
    );
}

#[test]
fn default_pipeline_solves_its_islands_one_by_one() {
    assert_eq!(PhysicsPipeline::default().strategy(), DispatchStrategy::Sequential);
    assert_eq!(PhysicsPipeline::new().strategy(), DispatchStrategy::Sequential);
    assert_eq!(PhysicsPipeline::default().num_solvers(), 0);
    assert!(!PhysicsPipeline::default().counters.enabled);
    let fresh = PhysicsPipeline::new();
    assert!(!fresh.counters.completed);
    assert_eq!(fresh.counters.step_time.time(), 0);
    assert_eq!(fresh.counters.stages.solver_time.time(), 0);
    assert_eq!(fresh.counters.cd.narrow_phase_time.time(), 0);
    assert!(fresh.counters.step_time.start.is_none());
    assert_eq!(fresh.counters.num_substeps(), 0);
    assert!(fresh.solvers.is_empty() && fresh.manifold_indices.is_empty());
    assert!(fresh.joint_constraint_indices.is_empty() && fresh.broad_phase_events.is_empty());
}

#[test]
fn step_on_empty_stores_completes() {
    let mut w = world(DispatchStrategy::Sequential);
    let params = IntegrationParameters::default();
    assert!(!w.pipeline.counters.completed);
    step(&mut w, &Vector::zeros(), &params);
    assert!(w.pipeline.counters.completed);
    assert_eq!(w.pipeline.counters.num_substeps(), 1);
    assert_eq!(w.pipeline.counters.simulated_time(), params.dt);
    assert_eq!(w.bodies.num_islands(), 1);
    assert!(w.events.is_empty());
    assert!(w.bf.pairs.is_empty());
    assert!(w.nf.pairs.is_empty());
}

#[test]
fn one_substep_without_ccd() {
    let mut w = world(DispatchStrategy::Sequential);
    let body = RigidBodyBuilder::new_dynamic().linvel(Vector::new(1000, 0, 0)).build();
    let h = w.bodies.insert(body);
    w.colliders.insert(ColliderBuilder::ball(100).build(), h, &mut w.bodies);
    let mut params = IntegrationParameters::default();
    params.max_ccd_substeps = 8;
    step(&mut w, &Vector::zeros(), &params);
    assert_eq!(w.pipeline.counters.ccd.substep_lengths, vec![16_667]);
    // 1000 units a second for 16 667 millionths of a second.
    assert_eq!(w.bodies.get(h).unwrap().position.translation, Vector::new(16, 0, 0));
}

#[test]
fn one_substep_when_only_one_is_allowed() {
    let mut w = world(DispatchStrategy::Sequential);
    let body = RigidBodyBuilder::new_dynamic()
        .linvel(Vector::new(1_000_000, 0, 0))
        .ccd_enabled(true)
        .build();
    let h = w.bodies.insert(body);
    w.colliders.insert(ColliderBuilder::ball(100).build(), h, &mut w.bodies);
    let wall = w.bodies.insert(RigidBodyBuilder::new_static().translation(5000, 0, 0).build());
    w.colliders.insert(ColliderBuilder::cuboid(10, 1000, 1000).build(), wall, &mut w.bodies);
    let params = IntegrationParameters::default();
    assert_eq!(params.max_ccd_substeps, 1);
    step(&mut w, &Vector::zeros(), &params);
    assert_eq!(w.pipeline.counters.ccd.substep_lengths, vec![16_667]);
    assert!(w.bodies.get(h).unwrap().ccd_active);
}

#[test]
fn substeps_add_up_to_the_step() {
    let mut w = world(DispatchStrategy::Sequential);
    let body = RigidBodyBuilder::new_dynamic()
        .linvel(Vector::new(1_000_000, 0, 0))
        .ccd_enabled(true)
        .build();
    let h = w.bodies.insert(body);
    w.colliders.insert(ColliderBuilder::ball(100).build(), h, &mut w.bodies);
    let wall = w.bodies.insert(RigidBodyBuilder::new_static().translation(5000, 0, 0).build());
    w.colliders.insert(ColliderBuilder::cuboid(10, 1000, 1000).build(), wall, &mut w.bodies);
    let mut params = IntegrationParameters::default();
    params.max_ccd_substeps = 4;
    step(&mut w, &Vector::zeros(), &params);
    let lengths = w.pipeline.counters.ccd.substep_lengths.clone();
    // The wall is 4890 ticks away. The first slice reaches past the impact:
    // 4890 + (16667 - 4890) / 4; the others share what is left.
    assert_eq!(lengths[0], 7834);
    assert!(lengths.len() >= 2 && lengths.len() <= 4);
    assert_eq!(lengths.iter().sum::<u64>(), 16_667);
    assert_eq!(w.pipeline.counters.simulated_time(), 16_667);
}

#[test]
fn ccd_keeps_a_fast_sphere_before_a_thin_wall() {
    let mut w = world(DispatchStrategy::Sequential);
    let body = RigidBodyBuilder::new_dynamic()
        .linvel(Vector::new(1_000_000, 0, 0))
        .ccd_enabled(true)
        .build();
    let h = w.bodies.insert(body);
    w.colliders.insert(ColliderBuilder::ball(100).build(), h, &mut w.bodies);
    let wall = w.bodies.insert(RigidBodyBuilder::new_static().translation(5000, 0, 0).build());
    w.colliders.insert(ColliderBuilder::cuboid(10, 1000, 1000).build(), wall, &mut w.bodies);
    let mut params = IntegrationParameters::default();
    params.max_ccd_substeps = 4;
    for _ in 0..10 {
        step(&mut w, &Vector::zeros(), &params);
        let x = w.bodies.get(h).unwrap().position.translation.x;
        // The near face of the wall is at 4990.
        assert!(x + 100 <= 4990, "the sphere is at {}", x);
    }
    assert_eq!(w.bodies.get(h).unwrap().position.translation.x, 4890);
    assert!(w.events.iter().any(|e| matches!(e, PhysicsEvent::Contact(ContactEvent::Started(_, _)))));
}

#[test]
fn without_ccd_a_fast_sphere_passes_a_thin_wall() {
    let mut w = world(DispatchStrategy::Sequential);
    let body = RigidBodyBuilder::new_dynamic().linvel(Vector::new(1_000_000, 0, 0)).build();
    let h = w.bodies.insert(body);
    w.colliders.insert(ColliderBuilder::ball(100).build(), h, &mut w.bodies);
    let wall = w.bodies.insert(RigidBodyBuilder::new_static().translation(5000, 0, 0).build());
    w.colliders.insert(ColliderBuilder::cuboid(10, 1000, 1000).build(), wall, &mut w.bodies);
    let mut params = IntegrationParameters::default();
    params.max_ccd_substeps = 4;
    step(&mut w, &Vector::zeros(), &params);
    assert_eq!(w.bodies.get(h).unwrap().position.translation.x, 16_667);
}

#[test]
fn falling_sphere_comes_to_rest_on_a_half_space() {
    let mut w = world(DispatchStrategy::Sequential);
    let ground = w.bodies.insert(RigidBodyBuilder::new_static().build());
    let plane = w.colliders.insert(ColliderBuilder::halfspace().build(), ground, &mut w.bodies);
    let sphere = w.bodies.insert(RigidBodyBuilder::new_dynamic().translation(0, 10_000, 0).build());
    let ball = w.colliders.insert(ColliderBuilder::ball(500).build(), sphere, &mut w.bodies);
    let gravity = Vector::new(0, -9810, 0);
    let mut params = IntegrationParameters::default();
    params.prediction_distance = 1000;
    let mut lowest = i64::MAX;
    for _ in 0..200 {
        step(&mut w, &gravity, &params);
        let body = w.bodies.get(sphere).unwrap();
        lowest = lowest.min(body.position.translation.y - 500);
    }
    // The sphere never goes below the plane.
    assert!(lowest >= 0, "the sphere went down to {}", lowest);
    let body = w.bodies.get(sphere).unwrap();
    assert!(body.position.translation.y - 500 <= 1);
    assert!(body.linvel.y >= -163);
    // The narrow phase reports the contact.
    let entry = w.nf.pairs.iter().find(|e| e.pair.collider1 == plane && e.pair.collider2 == ball).unwrap();
    let manifold = entry.manifold.unwrap();
    assert!(manifold.distance <= 1);
    assert_eq!(manifold.body1, ground);
    assert_eq!(manifold.body2, sphere);
    assert!(w.events.iter().any(|e| matches!(e, PhysicsEvent::Contact(ContactEvent::Started(_, _)))));
}

#[test]
fn kinematic_body_goes_where_it_is_told() {
    let mut w = world(DispatchStrategy::Sequential);
    let k = w.bodies.insert(RigidBodyBuilder::new_kinematic().translation(100, 0, 0).build());
    w.bodies.set_next_kinematic_position(k, Isometry::translation(100, 50, -30));
    let params = IntegrationParameters::default();

    // The velocity that covers (0, 50, -30) in 16 667 millionths of a second.
    let mut probe = PhysicsPipeline::new();
    let mut interpolated = w.bodies.clone();
    probe.interpolate_kinematic_velocities(&params, &mut interpolated);
    assert_eq!(interpolated.get(k).unwrap().linvel, Vector::new(0, 2999, -1799));
    assert_eq!(interpolated.get(k).unwrap().angvel, Vector::zeros());

    step(&mut w, &Vector::new(0, -9810, 0), &params);
    let body = w.bodies.get(k).unwrap();
    assert_eq!(body.position, Isometry::translation(100, 50, -30));
    assert_eq!(body.next_position, Isometry::translation(100, 50, -30));
    assert_eq!(body.linvel, Vector::zeros());
    assert_eq!(body.angvel, Vector::zeros());
}

#[test]
fn zero_step_leaves_a_kinematic_body_without_velocity() {
    let mut bodies = RigidBodySet::new();
    let k = bodies.insert(RigidBodyBuilder::new_kinematic().build());
    bodies.set_next_kinematic_position(k, Isometry::translation(7, 0, 0));
    let mut params = IntegrationParameters::default();
    params.dt = 0;
    let mut pipeline = PhysicsPipeline::new();
    pipeline.interpolate_kinematic_velocities(&params, &mut bodies);
    assert_eq!(bodies.get(k).unwrap().linvel, Vector::zeros());
}

fn two_pairs(strategy: DispatchStrategy) -> (World, Vec<physics_step::dynamics::rigid_body_set::RigidBodyHandle>) {
    let mut w = world(strategy);
    let ground = w.bodies.insert(RigidBodyBuilder::new_static().build());
    w.colliders.insert(ColliderBuilder::halfspace().build(), ground, &mut w.bodies);
    let mut handles = Vec::new();
    for (x, vy) in [(0, -3000), (100_000, -7000)] {
        let left = w.bodies.insert(
            RigidBodyBuilder::new_dynamic().translation(x, 600, 0).linvel(Vector::new(0, vy, 0)).build(),
        );
        w.colliders.insert(ColliderBuilder::cuboid(500, 500, 500).build(), left, &mut w.bodies);
        let right = w.bodies.insert(
            RigidBodyBuilder::new_dynamic().translation(x + 5000, 1700, 0).linvel(Vector::new(0, 2 * vy, 0)).build(),
        );
        w.colliders.insert(ColliderBuilder::cuboid(500, 500, 500).build(), right, &mut w.bodies);
        w.joints.insert(left, right, FixedJoint::new().into_generic());
        handles.push(left);
        handles.push(right);
    }
    (w, handles)
}

#[test]
fn both_strategies_give_the_same_bodies() {
    let (mut one, handles) = two_pairs(DispatchStrategy::Sequential);
    let (mut other, _) = two_pairs(DispatchStrategy::Concurrent);
    assert_eq!(other.pipeline.strategy(), DispatchStrategy::Concurrent);
    let gravity = Vector::new(0, -9810, 0);
    let mut params = IntegrationParameters::default();
    params.prediction_distance = 400;
    params.min_island_size = 1;
    for _ in 0..30 {
        step(&mut one, &gravity, &params);
        step(&mut other, &gravity, &params);
        for h in &handles {
            assert_eq!(one.bodies.get(*h), other.bodies.get(*h));
        }
        assert_eq!(one.nf.pairs, other.nf.pairs);
    }
    assert_eq!(one.bodies.num_islands(), 2);
    assert_eq!(one.pipeline.num_solvers(), 2);
    assert_eq!(one.bodies.get(handles[0]).unwrap().placement.unwrap().island, 0);
    assert_eq!(one.bodies.get(handles[1]).unwrap().placement.unwrap().island, 0);
    assert_eq!(one.bodies.get(handles[2]).unwrap().placement.unwrap().island, 1);
    assert_eq!(one.bodies.get(handles[3]).unwrap().placement.unwrap().island, 1);
    // The bodies did fall, and did land: the solve was not a no-op.
    for h in &handles {
        let body = other.bodies.get(*h).unwrap();
        assert!(body.position.translation.y <= 501);
        assert!(body.position.translation.y >= 500);
    }
    let impulses: Vec<i64> = other.nf.pairs.iter().filter_map(|e| e.manifold).map(|m| m.impulse).collect();
    assert_eq!(impulses.len(), 4);
    assert!(impulses.iter().all(|i| *i > 0));
}

#[test]
fn workspace_only_grows() {
    let (mut w, handles) = two_pairs(DispatchStrategy::Sequential);
    for joint in 0..w.joints.len() {
        w.joints.remove(physics_step::dynamics::joint::joint_set::JointHandle(joint));
    }
    let mut params = IntegrationParameters::default();
    params.min_island_size = 1;
    step(&mut w, &Vector::zeros(), &params);
    assert_eq!(w.bodies.num_islands(), 4);
    assert_eq!(w.pipeline.num_solvers(), 4);
    for h in &handles {
        w.bodies.remove(*h, &mut w.colliders, &mut w.joints);
    }
    step(&mut w, &Vector::zeros(), &params);
    assert_eq!(w.bodies.num_islands(), 1);
    assert_eq!(w.pipeline.num_solvers(), 4);
    assert_eq!(w.pipeline.manifold_indices.len(), 4);
    assert_eq!(w.pipeline.joint_constraint_indices.len(), 4);
}

#[test]
fn removed_body_leaves_nothing_behind() {
    let mut w = world(DispatchStrategy::Sequential);
    let ground = w.bodies.insert(RigidBodyBuilder::new_static().build());
    w.colliders.insert(ColliderBuilder::halfspace().build(), ground, &mut w.bodies);
    let a = w.bodies.insert(RigidBodyBuilder::new_dynamic().translation(0, 500, 0).build());
    let ca = w.colliders.insert(ColliderBuilder::ball(500).build(), a, &mut w.bodies);
    let b = w.bodies.insert(RigidBodyBuilder::new_dynamic().translation(5000, 500, 0).build());
    w.joints.insert(a, b, FixedJoint::new().into_generic());
    let params = IntegrationParameters::default();
    step(&mut w, &Vector::zeros(), &params);
    assert_eq!(w.nf.pairs.len(), 1);
    assert!(w.nf.pairs[0].manifold.is_some());
    assert_eq!(w.bodies.active_dynamic_set, vec![a.0, b.0]);

    w.bodies.remove(a, &mut w.colliders, &mut w.joints);
    assert!(w.colliders.get(ca).is_none());
    assert!(w.joints.slots[0].is_none());
    w.events.clear();
    step(&mut w, &Vector::zeros(), &params);
    assert!(w.nf.pairs.is_empty());
    assert!(w.bf.pairs.is_empty());
    assert_eq!(w.bodies.active_dynamic_set, vec![b.0]);
    assert_eq!(w.events.len(), 1);
    assert!(matches!(&w.events[0], PhysicsEvent::Contact(ContactEvent::Stopped(_, _))));
}

#[test]
fn commit_carries_only_the_colliders_of_bodies_that_move() {
    let mut w = world(DispatchStrategy::Sequential);
    let still = w.bodies.insert(RigidBodyBuilder::new_static().build());
    let c_still = w.colliders.insert(ColliderBuilder::ball(10).build(), still, &mut w.bodies);
    let asleep = w.bodies.insert(RigidBodyBuilder::new_dynamic().sleeping(true).build());
    let c_asleep = w.colliders.insert(ColliderBuilder::ball(10).build(), asleep, &mut w.bodies);
    let led = w.bodies.insert(RigidBodyBuilder::new_kinematic().build());
    let c_led = w.colliders.insert(ColliderBuilder::ball(10).translation(0, 3, 0).build(), led, &mut w.bodies);
    // The bodies are put elsewhere without a word to the colliders.
    for h in [still, asleep, led] {
        let mut body = w.bodies.slots[h.0].unwrap();
        body.position = Isometry::translation(7, 0, 0);
        body.next_position = Isometry::translation(9, 0, 0);
        w.bodies.slots[h.0] = Some(body);
    }
    w.pipeline.advance_to_final_positions(&mut w.bodies, &mut w.colliders);
    // A static body and a body that sleeps do not move: they stay, and so
    // do their colliders.
    for (h, c) in [(still, c_still), (asleep, c_asleep)] {
        assert_eq!(w.bodies.get(h).unwrap().position, Isometry::translation(7, 0, 0));
        assert_eq!(w.bodies.get(h).unwrap().next_position, Isometry::translation(9, 0, 0));
        assert_eq!(w.colliders.get(c).unwrap().position, Vector::zeros());
    }
    // A kinematic body takes its next position, and its collider with it.
    assert_eq!(w.bodies.get(led).unwrap().position, Isometry::translation(9, 0, 0));
    assert_eq!(w.colliders.get(c_led).unwrap().position, Vector::new(9, 3, 0));
}

fn bullet_and_wall(gap: i64, max_ccd_substeps: usize) -> (World, IntegrationParameters) {
    let mut w = world(DispatchStrategy::Sequential);
    let body = RigidBodyBuilder::new_dynamic()
        .linvel(Vector::new(1_000_000, 0, 0))
        .ccd_enabled(true)
        .build();
    let h = w.bodies.insert(body);
    w.colliders.insert(ColliderBuilder::ball(100).build(), h, &mut w.bodies);
    let wall = w.bodies.insert(RigidBodyBuilder::new_static().translation(gap + 110, 0, 0).build());
    w.colliders.insert(ColliderBuilder::cuboid(10, 1000, 1000).build(), wall, &mut w.bodies);
    let mut params = IntegrationParameters::default();
    params.dt = 1_000_000;
    params.max_ccd_substeps = max_ccd_substeps;
    params.min_ccd_dt = 125_000;
    (w, params)
}

#[test]
fn early_impact_halves_the_step() {
    // The wall is a quarter of a second away, two substeps are allowed: the
    // first is an even share of the step, the second takes the rest.
    let (mut w, params) = bullet_and_wall(250_000, 2);
    step(&mut w, &Vector::zeros(), &params);
    assert_eq!(w.pipeline.counters.ccd.substep_lengths, vec![500_000, 500_000]);
    // One search for the earliest impact, before the first substep, and one
    // prediction of impacts in each substep.
    assert_eq!(w.ccd.queries, 3);
}

#[test]
fn late_impact_leaves_a_remainder_of_the_least_length() {
    // 750 000 + 250 000 / 2 leaves 125 000, which is not too short.
    let (mut w, params) = bullet_and_wall(750_000, 2);
    step(&mut w, &Vector::zeros(), &params);
    assert_eq!(w.pipeline.counters.ccd.substep_lengths, vec![875_000, 125_000]);
    assert_eq!(w.ccd.queries, 3);
}

#[test]
fn queries_count_the_searches_and_the_predictions() {
    // Only one substep is allowed: no search, one prediction.
    let (mut w, params) = bullet_and_wall(250_000, 1);
    step(&mut w, &Vector::zeros(), &params);
    assert_eq!(w.pipeline.counters.ccd.substep_lengths, vec![1_000_000]);
    assert_eq!(w.ccd.queries, 1);

    // Nothing in the way: the search finds nothing and the step is taken in
    // one piece, with one prediction.
    let (mut w, mut params) = bullet_and_wall(250_000, 4);
    params.dt = 100_000;
    step(&mut w, &Vector::zeros(), &params);
    assert_eq!(w.pipeline.counters.ccd.substep_lengths, vec![100_000]);
    assert_eq!(w.ccd.queries, 2);

    // No body is watched: nothing is looked for.
    let mut w = world(DispatchStrategy::Sequential);
    let h = w.bodies.insert(RigidBodyBuilder::new_dynamic().linvel(Vector::new(1_000_000, 0, 0)).build());
    w.colliders.insert(ColliderBuilder::ball(100).build(), h, &mut w.bodies);
    params.max_ccd_substeps = 4;
    step(&mut w, &Vector::zeros(), &params);
    assert_eq!(w.ccd.queries, 0);
}

#[test]
fn motion_clamping_counts_one_query() {
    let (mut w, params) = bullet_and_wall(250_000, 2);
    assert!(w.ccd.update_ccd_active_flags(&mut w.bodies, params.dt));
    let mut body = w.bodies.slots[0].unwrap();
    body.next_position = Isometry::translation(1_000_000, 0, 0);
    w.bodies.slots[0] = Some(body);
    w.pipeline.run_ccd_motion_clamping(&params, &mut w.bodies, &w.colliders, &mut w.ccd);
    assert_eq!(w.ccd.queries, 1);
    assert_eq!(w.bodies.slots[0].unwrap().next_position, Isometry::translation(250_000, 0, 0));
}

#[test]
fn narrow_phase_has_an_entry_for_each_near_pair() {
    let mut w = world(DispatchStrategy::Sequential);
    let ground = w.bodies.insert(RigidBodyBuilder::new_static().build());
    w.colliders.insert(ColliderBuilder::halfspace().build(), ground, &mut w.bodies);
    let a = w.bodies.insert(RigidBodyBuilder::new_dynamic().translation(0, 500, 0).build());
    w.colliders.insert(ColliderBuilder::ball(500).build(), a, &mut w.bodies);
    let b = w.bodies.insert(
        RigidBodyBuilder::new_dynamic().translation(3000, 500, 0).linvel(Vector::new(-60_000, 0, 0)).build(),
    );
    w.colliders.insert(ColliderBuilder::ball(500).build(), b, &mut w.bodies);
    let params = IntegrationParameters::default();
    let mut most: usize = 0;
    for _ in 0..40 {
        step(&mut w, &Vector::zeros(), &params);
        for pair in &w.bf.pairs {
            assert!(w.nf.pairs.iter().any(|entry| entry.pair == *pair));
        }
        most = most.max(w.bf.pairs.len());
    }
    // The two balls have come near each other on the way.
    assert_eq!(most, 3);
}

#[test]
fn solvers_of_islands_that_are_gone_keep_what_they_held() {
    let (mut w, handles) = two_pairs(DispatchStrategy::Sequential);
    for joint in 0..w.joints.len() {
        w.joints.remove(physics_step::dynamics::joint::joint_set::JointHandle(joint));
    }
    let mut params = IntegrationParameters::default();
    params.min_island_size = 1;
    step(&mut w, &Vector::zeros(), &params);
    assert_eq!(w.bodies.num_islands(), 4);
    let held: Vec<_> = w.pipeline.solvers.iter().map(|s| s.bodies.clone()).collect();
    assert!(held.iter().all(|bodies| bodies.len() == 1));
    for h in &handles[1..] {
        w.bodies.remove(*h, &mut w.colliders, &mut w.joints);
    }
    step(&mut w, &Vector::zeros(), &params);
    assert_eq!(w.bodies.num_islands(), 1);
    assert_eq!(w.pipeline.solvers.len(), 4);
    for i in 1..4 {
        assert_eq!(w.pipeline.solvers[i].bodies, held[i]);
    }
    // Every island holds a body.
    let islands = &w.bodies.active_islands;
    assert!(islands.windows(2).all(|pair| pair[0] < pair[1]));
}

#[test]
fn an_empty_world_has_one_empty_island() {
    let mut w = world(DispatchStrategy::Sequential);
    step(&mut w, &Vector::zeros(), &IntegrationParameters::default());
    assert_eq!(w.bodies.num_islands(), 1);
    assert_eq!(w.bodies.active_islands, vec![0, 0]);
}
