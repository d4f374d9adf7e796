//! What the phases of a substep leave untouched, and what a whole substep
//! makes of each body.

use crate::dynamics::ccd_solver::{clamped, flagged_slot, predicted, watched, Impact};
use crate::dynamics::integration_parameters::IntegrationParameters;
use crate::dynamics::island_solver::IslandSolver;
use crate::dynamics::joint::joint_set::Joint;
use crate::dynamics::rigid_body::RigidBody;
use crate::dynamics::rigid_body_set::RigidBodySet;
use crate::geometry::collider::{Collider, ColliderSet};
use crate::geometry::narrow_phase::{overlapping, touching, with_contact, with_overlap, ContactPair};
use crate::math::Vector;
use crate::pipeline::physics_hooks::PhysicsHooks;
use crate::pipeline::physics_pipeline::{
    committed_slot,
    interpolated_slot,
    lemma_islands_wf_kept,
    lemma_store_keeps_places,
    moves,
    same_place,
    solved_through,
};
use vstd::prelude::*;

verus! {

/// Whether the two bodies agree on what no step changes: status, mass,
/// centre of mass, and what continuous collision detection knows of them.
pub open spec fn same_kind(a: RigidBody, b: RigidBody) -> bool {
    &&& a.status == b.status
    &&& a.mass == b.mass
    &&& a.local_com == b.local_com
    &&& a.ccd_enabled == b.ccd_enabled
    &&& a.ccd_active == b.ccd_active
    &&& a.ccd_thickness == b.ccd_thickness
}

/// The body at rest.
pub open spec fn at_rest(body: RigidBody) -> bool {
    body.linvel == (Vector { x: 0, y: 0, z: 0 }) && body.angvel == (Vector { x: 0, y: 0, z: 0 })
}

/// Whether a body that continuous collision detection watches is dynamic
/// and awake.
pub open spec fn watch_is_sound(bodies: RigidBodySet) -> bool {
    forall|i: int| #[trigger]
        bodies.live(i) && bodies.at(i).ccd_active ==> bodies.at(i).dynamic() && !bodies.at(i).sleeping
}

/// What building and solving the islands makes of slot `i`: the body keeps
/// its kind and its position; it is awake if it is active; a dynamic body
/// that was awake is active; a body that is not active is as it was.
pub open spec fn solve_frame(before: RigidBodySet, after: RigidBodySet, i: int) -> bool {
    &&& (after.slots@[i] is Some) == (before.slots@[i] is Some)
    &&& before.slots@[i] is Some ==> {
        &&& same_kind(after.at(i), before.at(i))
        &&& after.at(i).position == before.at(i).position
        &&& after.at(i).sleeping == (before.at(i).sleeping && !after.active(i))
        &&& after.active(i) ==> after.at(i).dynamic()
        &&& before.at(i).dynamic() && !before.at(i).sleeping ==> after.active(i)
        &&& !after.active(i) ==> after.at(i) == (RigidBody { placement: None, ..before.at(i) })
    }
}

/// Building and solving the islands leaves every body its kind and its
/// position, and touches no body that is not active.
pub proof fn lemma_solve_frames(
    before: RigidBodySet,
    mid: RigidBodySet,
    ready: RigidBodySet,
    after: RigidBodySet,
    entries_before: Seq<ContactPair>,
    entries_after: Seq<ContactPair>,
    joints: Seq<Option<Joint>>,
    solvers: Seq<IslandSolver>,
    manifold_lists: Seq<Vec<usize>>,
    joint_lists: Seq<Vec<usize>>,
    gravity: Vector,
    parameters: IntegrationParameters,
)
    requires
        solved_through(
            before,
            mid,
            ready,
            after,
            entries_before,
            entries_after,
            joints,
            solvers,
            manifold_lists,
            joint_lists,
            gravity,
            parameters,
        ),
    ensures
        after.slots@.len() == before.slots@.len(),
        forall|i: int| 0 <= i < before.slots@.len() ==> #[trigger] solve_frame(before, after, i),
{
    reveal(solved_through);
    lemma_store_keeps_places(ready, after, entries_before, joints, solvers, parameters.dt);
    assert forall|i: int| 0 <= i < before.slots@.len() implies #[trigger] solve_frame(before, after, i) by {
        assert(mid.woken(before, i));
        assert(mid.seeded(before, interaction_graph_of(entries_before, joints), i));
        assert(ready.slots@[i] == mid.readied_slot(gravity, i));
        assert(after.slots@[i] == ready.stored_slot(solvers, i));
        if mid.active(i) {
            assert(mid.at(i).placement->Some_0.offset < mid.active_dynamic_set@.len());
            let k = mid.at(i).placement->Some_0.offset as int;
            assert(mid.active(mid.active_dynamic_set@[k] as int));
        }
    }
}

/// The graph of contacts and joints.
pub open spec fn interaction_graph_of(entries: Seq<ContactPair>, joints: Seq<Option<Joint>>) -> Seq<
    Option<crate::dynamics::islands::Edge>,
> {
    crate::dynamics::islands::interaction_graph(entries, joints)
}

/// Holding bodies back changes nothing of them but their next positions,
/// and nothing at all of a body that no impact names.
pub proof fn lemma_clamped_frame(slots: Seq<Option<RigidBody>>, impacts: Seq<Impact>, i: int)
    requires
        0 <= i < slots.len(),
    ensures
        clamped(slots, impacts).len() == slots.len(),
        (clamped(slots, impacts)[i] is Some) == (slots[i] is Some),
        slots[i] is Some ==> clamped(slots, impacts)[i]->Some_0 == (RigidBody {
            next_position: clamped(slots, impacts)[i]->Some_0.next_position,
            ..slots[i]->Some_0
        }),
        (forall|k: int| 0 <= k < impacts.len() ==> (#[trigger] impacts[k]).body.0 != i) ==> clamped(
            slots,
            impacts,
        )[i] == slots[i],
    decreases impacts.len(),
{
    if impacts.len() > 0 {
        lemma_clamped_frame(slots, impacts.drop_last(), i);
        if forall|k: int| 0 <= k < impacts.len() ==> (#[trigger] impacts[k]).body.0 != i {
            assert forall|k: int| 0 <= k < impacts.drop_last().len() implies (
            #[trigger] impacts.drop_last()[k]).body.0 != i by {
                assert(impacts.drop_last()[k] == impacts[k]);
            }
            assert(impacts.last() == impacts[impacts.len() - 1]);
        }
    }
}

/// Computing a contact anew twice is computing it once, and so for an
/// overlap: an entry that has been brought up to date is up to date.
pub proof fn lemma_detection_settles<H: PhysicsHooks>(
    entry: ContactPair,
    colliders: ColliderSet,
    bodies: RigidBodySet,
    margin: u64,
    hooks: H,
)
    ensures
        up_to_date(
            with_overlap(with_contact(entry, colliders, bodies, margin, hooks), colliders, hooks),
            colliders,
            bodies,
            margin,
            hooks,
        ),
{
    reveal(touching);
    reveal(overlapping);
}

/// Whether `entry` says of its colliders what holds of them now: whether
/// and how they touch, and whether they overlap.
pub open spec fn up_to_date<H: PhysicsHooks>(
    entry: ContactPair,
    colliders: ColliderSet,
    bodies: RigidBodySet,
    margin: u64,
    hooks: H,
) -> bool {
    &&& entry.manifold == touching(entry, colliders, bodies, margin, hooks)
    &&& entry.intersecting == overlapping(entry, colliders, hooks)
}

/// What a substep makes of slot `i`.
pub open spec fn substep_frame(before: RigidBodySet, after: RigidBodySet, i: int) -> bool {
    &&& (after.slots@[i] is Some) == (before.slots@[i] is Some)
    &&& before.slots@[i] is Some ==> {
        &&& same_kind(after.at(i), before.at(i))
        &&& after.at(i).sleeping == (before.at(i).sleeping && !after.active(i))
        &&& after.active(i) ==> after.at(i).dynamic()
        &&& before.at(i).dynamic() && !before.at(i).sleeping ==> after.active(i)
        &&& moves(after, i) ==> after.at(i).position == after.at(i).next_position
        &&& before.at(i).kinematic() ==> {
            &&& after.at(i).position == before.at(i).next_position
            &&& after.at(i).next_position == before.at(i).next_position
            &&& at_rest(after.at(i))
        }
        &&& !moves(after, i) ==> after.at(i) == (RigidBody { placement: None, ..before.at(i) })
    }
}

/// A substep makes of each body what its phases, one after the other, make
/// of it.
pub proof fn lemma_substep_frame(
    b0: RigidBodySet,
    b1: RigidBodySet,
    b2: RigidBodySet,
    b3: RigidBodySet,
    b4: RigidBodySet,
    colliders: ColliderSet,
    dt: u64,
    clamp: bool,
    impacts: Seq<Impact>,
    i: int,
)
    requires
        0 <= i < b0.slots@.len(),
        b1.slots@.len() == b0.slots@.len(),
        b2.slots@.len() == b0.slots@.len(),
        b3.slots@.len() == b0.slots@.len(),
        b4.slots@.len() == b0.slots@.len(),
        watch_is_sound(b0),
        b1.slots@[i] == interpolated_slot(b0, dt, i),
        solve_frame(b1, b2, i),
        clamp ==> predicted(b2, colliders, dt, impacts, b2.slots@.len() as int) && b3.slots@ == clamped(
            b2.slots@,
            impacts,
        ),
        !clamp ==> b3.slots@ == b2.slots@,
        b4.slots@[i] == committed_slot(b3, i),
    ensures
        substep_frame(b0, b4, i),
{
    reveal(predicted);
    if clamp {
        lemma_clamped_frame(b2.slots@, impacts, i);
    }
    if b0.slots@[i] is Some {
        assert(b0.live(i));
        assert(b1.live(i));
        assert(b2.live(i));
        assert(same_kind(b1.at(i), b0.at(i)));
        assert(b1.at(i).sleeping == b0.at(i).sleeping);
        if clamp {
            lemma_clamped_frame(b2.slots@, impacts, i);
            if !(b2.at(i).ccd_active) {
                assert forall|k: int| 0 <= k < impacts.len() implies (#[trigger] impacts[k]).body.0 != i by {
                    if impacts[k].body.0 == i {
                        assert(b2.at(impacts[k].body.0 as int).ccd_active);
                    }
                }
                assert(b3.slots@[i] == b2.slots@[i]);
            }
        } else {
            assert(b3.slots@[i] == b2.slots@[i]);
        }
        assert(b3.live(i));
        assert(b3.at(i) == (RigidBody { next_position: b3.at(i).next_position, ..b2.at(i) }));
        assert(b3.active(i) == b2.active(i));
        assert(moves(b3, i) == (b2.active(i) || b0.at(i).kinematic()));
        assert(b4.live(i));
        assert(b4.active(i) == b2.active(i));
        assert(same_kind(b4.at(i), b0.at(i)));
        if b0.at(i).kinematic() {
            assert(!b2.active(i));
            assert(!b0.at(i).ccd_active);
            assert(b3.slots@[i] == b2.slots@[i]);
        }
        if !moves(b4, i) {
            assert(!b2.active(i));
            if b2.at(i).ccd_active {
                assert(b0.at(i).ccd_active);
                assert(b0.at(i).dynamic() && !b0.at(i).sleeping);
            }
            assert(b3.slots@[i] == b2.slots@[i]);
        }
    }
}

/// Moving the bodies makes of each what a substep makes of it, and keeps the
/// islands that were built.
pub proof fn lemma_moved(
    b0: RigidBodySet,
    b1: RigidBodySet,
    b2: RigidBodySet,
    b3: RigidBodySet,
    b4: RigidBodySet,
    colliders: ColliderSet,
    dt: u64,
    clamp: bool,
    impacts: Seq<Impact>,
)
    requires
        b1.slots@.len() == b0.slots@.len(),
        b2.slots@.len() == b0.slots@.len(),
        b3.slots@.len() == b0.slots@.len(),
        b4.slots@.len() == b0.slots@.len(),
        watch_is_sound(b0),
        forall|i: int| 0 <= i < b0.slots@.len() ==> #[trigger] b1.slots@[i] == interpolated_slot(b0, dt, i),
        forall|i: int| 0 <= i < b0.slots@.len() ==> #[trigger] solve_frame(b1, b2, i),
        b2.islands_wf(),
        clamp ==> predicted(b2, colliders, dt, impacts, b2.slots@.len() as int) && b3.slots@ == clamped(
            b2.slots@,
            impacts,
        ),
        !clamp ==> b3.slots@ == b2.slots@,
        forall|i: int| 0 <= i < b0.slots@.len() ==> #[trigger] b4.slots@[i] == committed_slot(b3, i),
        b4.active_dynamic_set@ == b2.active_dynamic_set@,
        b4.active_islands@ == b2.active_islands@,
    ensures
        forall|i: int| 0 <= i < b0.slots@.len() ==> #[trigger] substep_frame(b0, b4, i),
        b4.islands_wf(),
{
    assert forall|i: int| 0 <= i < b0.slots@.len() implies #[trigger] substep_frame(b0, b4, i) by {
        assert(b1.slots@[i] == interpolated_slot(b0, dt, i));
        assert(solve_frame(b1, b2, i));
        assert(b4.slots@[i] == committed_slot(b3, i));
        lemma_substep_frame(b0, b1, b2, b3, b4, colliders, dt, clamp, impacts, i);
    }
    assert forall|i: int| 0 <= i < b2.slots@.len() implies same_place(b2.slots@[i], #[trigger] b4.slots@[i]) by {
        if clamp {
            lemma_clamped_frame(b2.slots@, impacts, i);
        }
        assert(b4.slots@[i] == committed_slot(b3, i));
    }
    lemma_islands_wf_kept(b2, b4);
}

/// What a step has made of slot `i` so far: the body keeps its kind; it is
/// watched if it was fast at the start of the step; it never falls asleep; a
/// static body and a dynamic body that sleeps are as they were. Once a
/// substep has been taken, every body that moves is at its next position,
/// and a kinematic body is at rest where it was prescribed to go.
pub open spec fn step_frame(start: RigidBodySet, now: RigidBodySet, dt: u64, i: int, stepped: bool) -> bool {
    &&& (now.slots@[i] is Some) == (start.slots@[i] is Some)
    &&& start.slots@[i] is Some ==> {
        &&& now.at(i).status == start.at(i).status
        &&& now.at(i).mass == start.at(i).mass
        &&& now.at(i).local_com == start.at(i).local_com
        &&& now.at(i).ccd_enabled == start.at(i).ccd_enabled
        &&& now.at(i).ccd_thickness == start.at(i).ccd_thickness
        &&& now.at(i).ccd_active == watched(start.at(i), dt)
        &&& now.at(i).sleeping ==> start.at(i).sleeping
        &&& now.at(i).kinematic() ==> now.at(i).next_position == start.at(i).next_position
        &&& now.active(i) ==> now.at(i).dynamic() && !now.at(i).sleeping
        &&& now.at(i).dynamic() && !now.at(i).sleeping ==> now.active(i)
        &&& !now.at(i).kinematic() && !now.active(i) ==> now.at(i) == (RigidBody {
            ccd_active: false,
            placement: None,
            ..start.at(i)
        })
        &&& stepped ==> {
            &&& moves(now, i) ==> now.at(i).position == now.at(i).next_position
            &&& now.at(i).kinematic() ==> now.at(i).position == start.at(i).next_position && at_rest(
                now.at(i),
            )
        }
    }
}

/// A substep carries on what the step has made of a body so far.
pub proof fn lemma_step_frame_extends(
    start: RigidBodySet,
    before: RigidBodySet,
    after: RigidBodySet,
    dt: u64,
    i: int,
    stepped: bool,
)
    requires
        step_frame(start, before, dt, i, stepped),
        substep_frame(before, after, i),
    ensures
        step_frame(start, after, dt, i, true),
{
}

/// What slot `c` of the colliders holds during a step: nothing, if the
/// collider had been removed or its body was gone when the step began; else
/// the collider, carried to where its body is now.
pub open spec fn synced_collider(
    start_colliders: ColliderSet,
    start: RigidBodySet,
    now: RigidBodySet,
    c: int,
) -> Option<Collider> {
    match start_colliders.slots@[c] {
        Some(collider) => if start.contains(collider.parent) {
            Some(collider.carried_to(now.body(collider.parent).position.translation))
        } else {
            None
        },
        None => None,
    }
}

/// What a step has made of the bodies and of the colliders so far.
#[verifier::opaque]
pub open spec fn stepping(
    start: RigidBodySet,
    start_colliders: ColliderSet,
    now: RigidBodySet,
    now_colliders: ColliderSet,
    dt: u64,
    stepped: bool,
) -> bool {
    &&& now.slots@.len() == start.slots@.len()
    &&& forall|i: int| 0 <= i < start.slots@.len() ==> #[trigger] step_frame(start, now, dt, i, stepped)
    &&& now_colliders.slots@.len() == start_colliders.slots@.len()
    &&& forall|c: int|
        0 <= c < start_colliders.slots@.len() ==> #[trigger] now_colliders.slots@[c] == synced_collider(
            start_colliders,
            start,
            now,
            c,
        )
}

/// During a step, a body that continuous collision detection watches is
/// dynamic and awake.
pub proof fn lemma_stepping_sound(
    start: RigidBodySet,
    start_colliders: ColliderSet,
    now: RigidBodySet,
    now_colliders: ColliderSet,
    dt: u64,
    stepped: bool,
)
    requires
        stepping(start, start_colliders, now, now_colliders, dt, stepped),
    ensures
        watch_is_sound(now),
        now.slots@.len() == start.slots@.len(),
{
    reveal(stepping);
    assert forall|i: int| #[trigger] now.live(i) && now.at(i).ccd_active implies now.at(i).dynamic()
        && !now.at(i).sleeping by {
        assert(step_frame(start, now, dt, i, stepped));
    }
}

/// What holds of the bodies and of the colliders once a step has taken in
/// what the user changed and has marked the bodies that are watched.
pub proof fn lemma_stepping_begins(
    start: RigidBodySet,
    start_colliders: ColliderSet,
    pruned_colliders: ColliderSet,
    settled: RigidBodySet,
    carried_colliders: ColliderSet,
    flagged: RigidBodySet,
    dt: u64,
)
    requires
        pruned_colliders.slots@ == start_colliders.without_orphans(start),
        settled.settles(start),
        carried_colliders.slots@ == pruned_colliders.carried(start),
        flagged.slots@.len() == settled.slots@.len(),
        forall|i: int|
            0 <= i < settled.slots@.len() ==> #[trigger] flagged.slots@[i] == flagged_slot(settled, dt, i),
        flagged.same_sets(settled),
    ensures
        stepping(start, start_colliders, flagged, carried_colliders, dt, false),
        flagged.islands_wf(),
{
    reveal(stepping);
    assert forall|i: int| 0 <= i < start.slots@.len() implies #[trigger] step_frame(
        start,
        flagged,
        dt,
        i,
        false,
    ) by {
        assert(crate::dynamics::rigid_body_set::same_body(settled.slots@[i], start.slots@[i]));
        assert(flagged.slots@[i] == flagged_slot(settled, dt, i));
        assert(settled.active(i) <==> start.awake_dynamic(i));
        if start.slots@[i] is Some {
            assert(crate::dynamics::rigid_body_set::unplaced(settled.at(i))
                == crate::dynamics::rigid_body_set::unplaced(start.at(i)));
        }
    }
    assert forall|c: int| 0 <= c < start_colliders.slots@.len() implies #[trigger] carried_colliders.slots@[c]
        == synced_collider(start_colliders, start, flagged, c) by {
        if start_colliders.slots@[c] is Some {
            let parent = start_colliders.slots@[c]->Some_0.parent;
            if start.contains(parent) {
                let i = parent.0 as int;
                assert(crate::dynamics::rigid_body_set::same_body(settled.slots@[i], start.slots@[i]));
                assert(flagged.slots@[i] == flagged_slot(settled, dt, i));
                assert(crate::dynamics::rigid_body_set::unplaced(settled.at(i))
                    == crate::dynamics::rigid_body_set::unplaced(start.at(i)));
            }
        }
    }
    assert forall|i: int| 0 <= i < settled.slots@.len() implies same_place(
        settled.slots@[i],
        #[trigger] flagged.slots@[i],
    ) by {
        assert(flagged.slots@[i] == flagged_slot(settled, dt, i));
    }
    lemma_islands_wf_kept(settled, flagged);
}

/// A substep carries on what the step has made of the bodies and of the
/// colliders.
pub proof fn lemma_stepping_extends(
    start: RigidBodySet,
    start_colliders: ColliderSet,
    before: RigidBodySet,
    before_colliders: ColliderSet,
    after: RigidBodySet,
    after_colliders: ColliderSet,
    dt: u64,
    stepped: bool,
)
    requires
        stepping(start, start_colliders, before, before_colliders, dt, stepped),
        after.slots@.len() == before.slots@.len(),
        forall|i: int| 0 <= i < before.slots@.len() ==> #[trigger] substep_frame(before, after, i),
        after_colliders.slots@ == before_colliders.carried_by_moving(after),
    ensures
        stepping(start, start_colliders, after, after_colliders, dt, true),
{
    reveal(stepping);
    assert forall|i: int| 0 <= i < start.slots@.len() implies #[trigger] step_frame(start, after, dt, i, true) by {
        assert(step_frame(start, before, dt, i, stepped));
        assert(substep_frame(before, after, i));
        lemma_step_frame_extends(start, before, after, dt, i, stepped);
    }
    assert forall|c: int| 0 <= c < start_colliders.slots@.len() implies #[trigger] after_colliders.slots@[c]
        == synced_collider(start_colliders, start, after, c) by {
        assert(before_colliders.slots@[c] == synced_collider(start_colliders, start, before, c));
        if start_colliders.slots@[c] is Some {
            let parent = start_colliders.slots@[c]->Some_0.parent;
            if start.contains(parent) {
                let i = parent.0 as int;
                assert(step_frame(start, before, dt, i, stepped));
                assert(substep_frame(before, after, i));
            }
        }
    }
}

/// What a step has made of the bodies and of the colliders, said slot by slot.
pub proof fn lemma_stepping_means(
    start: RigidBodySet,
    start_colliders: ColliderSet,
    now: RigidBodySet,
    now_colliders: ColliderSet,
    dt: u64,
    stepped: bool,
)
    requires
        stepping(start, start_colliders, now, now_colliders, dt, stepped),
    ensures
        now.slots@.len() == start.slots@.len(),
        forall|i: int| 0 <= i < start.slots@.len() ==> #[trigger] step_frame(start, now, dt, i, stepped),
        now_colliders.slots@.len() == start_colliders.slots@.len(),
        forall|c: int|
            0 <= c < start_colliders.slots@.len() ==> #[trigger] now_colliders.slots@[c] == synced_collider(
                start_colliders,
                start,
                now,
                c,
            ),
{
    reveal(stepping);
}

} // verus!
