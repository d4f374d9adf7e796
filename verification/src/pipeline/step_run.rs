//! A step told as a run of worlds: the world once the step has taken in what
//! the user changed, then the world after each substep.

use crate::dynamics::ccd_solver::{
    clamped,
    counted,
    flagged_slot,
    held_back,
    is_earliest_impact,
    predicted,
    watched_at,
    Impact,
};
use crate::dynamics::integration_parameters::IntegrationParameters;
use crate::dynamics::island_solver::IslandSolver;
use crate::dynamics::joint::joint_set::Joint;
use crate::dynamics::rigid_body::RigidBody;
use crate::dynamics::rigid_body_set::RigidBodySet;
use crate::geometry::broad_phase::{
    event_due,
    lists_near_pairs,
    pair_near,
    reports_changes,
    BroadPhase,
    BroadPhasePairEvent,
    ColliderPair,
};
use crate::geometry::collider::ColliderSet;
use crate::geometry::narrow_phase::{
    alive,
    all_contact_news,
    all_overlap_news,
    farewells,
    kept,
    listed,
    overlapping,
    registered,
    registration_news,
    touching,
    with_contact,
    ContactPair,
    NarrowPhase,
    Removal,
};
use crate::math::Vector;
use crate::pipeline::event_handler::PhysicsEvent;
use crate::pipeline::physics_hooks::PhysicsHooks;
use crate::pipeline::physics_pipeline::{
    committed_slot,
    detected,
    detection_news,
    interpolated_slot,
    pruned,
    solved_through,
};
use crate::pipeline::step_laws::{
    lemma_clamped_frame,
    lemma_solve_frames,
    solve_frame,
    synced_collider,
    watch_is_sound,
};
use crate::pipeline::substep::{budget_after, goes_on, lengths_of, whole_step, SubstepBudget};
use vstd::prelude::*;

verus! {

/// A world between two substeps: its bodies, its colliders, the pairs that
/// the broad phase lists, the entries of the narrow phase and the events
/// reported.
pub struct Moment {
    pub bodies: RigidBodySet,
    pub colliders: ColliderSet,
    pub near: Seq<ColliderPair>,
    pub entries: Seq<ContactPair>,
    /// What has been reported so far.
    pub events: Seq<PhysicsEvent>,
}

/// The world that the stores and the two phases hold, with what has been
/// reported.
pub open spec fn world(
    bodies: RigidBodySet,
    colliders: ColliderSet,
    broad_phase: BroadPhase,
    narrow_phase: NarrowPhase,
    events: Seq<PhysicsEvent>,
) -> Moment {
    Moment { bodies, colliders, near: broad_phase.pairs@, entries: narrow_phase.pairs@, events }
}

/// A count of queries after `n` more queries; it stops at the largest value.
pub open spec fn queries_after(queries: usize, n: nat) -> usize {
    if queries + n <= usize::MAX {
        (queries + n) as usize
    } else {
        usize::MAX
    }
}

/// How many times a step that watches a body looks for impacts in its first
/// `n` substeps, when it is allowed `max` substeps: once before each substep
/// that may be cut short, to find the earliest impact, and once in each
/// substep, to hold the bodies back. A step that watches no body never looks.
pub open spec fn queries_made(ccd_active: bool, max: usize, n: nat) -> nat {
    if !ccd_active {
        0
    } else if max <= 1 {
        n
    } else if n <= max - 1 {
        n + n
    } else {
        (n + max - 1) as nat
    }
}

/// Whether a body is watched during a step of `dt` ticks.
pub open spec fn any_watched(bodies: RigidBodySet, dt: u64) -> bool {
    exists|i: int| #[trigger] watched_at(bodies, dt, i)
}

/// The budget at the start of a step.
pub open spec fn first_budget(parameters: IntegrationParameters) -> SubstepBudget {
    SubstepBudget { remaining_time: parameters.dt, remaining_substeps: parameters.max_ccd_substeps }
}

/// The phases that move the bodies in a substep, one after the other. The
/// kinematic bodies of `before` are given their velocities; the islands are
/// built and solved, under `gravity`; if `clamp` is set the bodies that
/// would run into something are held back at their impacts; every body that
/// moves takes its next position.
pub open spec fn moved_chain(
    before: RigidBodySet,
    interpolated: RigidBodySet,
    mid: RigidBodySet,
    ready: RigidBodySet,
    solved: RigidBodySet,
    held: RigidBodySet,
    after: RigidBodySet,
    colliders: ColliderSet,
    entries_before: Seq<ContactPair>,
    entries_after: Seq<ContactPair>,
    joints: Seq<Option<Joint>>,
    solvers: Seq<IslandSolver>,
    manifold_lists: Seq<Vec<usize>>,
    joint_lists: Seq<Vec<usize>>,
    impacts: Seq<Impact>,
    gravity: Vector,
    parameters: IntegrationParameters,
    clamp: bool,
) -> bool {
    &&& interpolated.slots@.len() == before.slots@.len()
    &&& forall|i: int|
        0 <= i < before.slots@.len() ==> #[trigger] interpolated.slots@[i] == interpolated_slot(
            before,
            parameters.dt,
            i,
        )
    &&& interpolated.same_sets(before)
    &&& solved_through(
        interpolated,
        mid,
        ready,
        solved,
        entries_before,
        entries_after,
        joints,
        solvers,
        manifold_lists,
        joint_lists,
        gravity,
        parameters,
    )
    &&& if clamp {
        predicted(solved, colliders, parameters.dt, impacts, solved.slots@.len() as int) && held.slots@
            == clamped(solved.slots@, impacts)
    } else {
        held.slots@ == solved.slots@
    }
    &&& held.active_dynamic_set@ == solved.active_dynamic_set@
    &&& held.active_islands@ == solved.active_islands@
    &&& after.slots@.len() == held.slots@.len()
    &&& forall|i: int| 0 <= i < held.slots@.len() ==> #[trigger] after.slots@[i] == committed_slot(held, i)
    &&& after.active_dynamic_set@ == held.active_dynamic_set@
    &&& after.active_islands@ == held.active_islands@
}

/// Whether moving the bodies for a substep of `parameters.dt` ticks makes
/// `after` of `before`, and `entries_after` of the entries of the narrow
/// phase: there are worlds in between that the phases lead through.
#[verifier::opaque]
pub open spec fn moved_through(
    before: RigidBodySet,
    after: RigidBodySet,
    colliders: ColliderSet,
    entries_before: Seq<ContactPair>,
    entries_after: Seq<ContactPair>,
    joints: Seq<Option<Joint>>,
    gravity: Vector,
    parameters: IntegrationParameters,
    clamp: bool,
) -> bool {
    exists|
        interpolated: RigidBodySet,
        mid: RigidBodySet,
        ready: RigidBodySet,
        solved: RigidBodySet,
        held: RigidBodySet,
        solvers: Seq<IslandSolver>,
        manifold_lists: Seq<Vec<usize>>,
        joint_lists: Seq<Vec<usize>>,
        impacts: Seq<Impact>,
    | #[trigger]
        moved_chain(
            before,
            interpolated,
            mid,
            ready,
            solved,
            held,
            after,
            colliders,
            entries_before,
            entries_after,
            joints,
            solvers,
            manifold_lists,
            joint_lists,
            impacts,
            gravity,
            parameters,
            clamp,
        )
}

/// What moving the bodies makes of them depends on nothing of the outcome
/// but its slots and its islands.
pub proof fn lemma_moved_reads_islands(
    before: RigidBodySet,
    after: RigidBodySet,
    other: RigidBodySet,
    colliders: ColliderSet,
    entries_before: Seq<ContactPair>,
    entries_after: Seq<ContactPair>,
    joints: Seq<Option<Joint>>,
    gravity: Vector,
    parameters: IntegrationParameters,
    clamp: bool,
)
    requires
        moved_through(before, after, colliders, entries_before, entries_after, joints, gravity, parameters, clamp),
        other.slots@ == after.slots@,
        other.active_dynamic_set@ == after.active_dynamic_set@,
        other.active_islands@ == after.active_islands@,
    ensures
        moved_through(before, other, colliders, entries_before, entries_after, joints, gravity, parameters, clamp),
{
    reveal(moved_through);
    let (interpolated, mid, ready, solved, held, solvers, manifold_lists, joint_lists, impacts) = choose|
        interpolated: RigidBodySet,
        mid: RigidBodySet,
        ready: RigidBodySet,
        solved: RigidBodySet,
        held: RigidBodySet,
        solvers: Seq<IslandSolver>,
        manifold_lists: Seq<Vec<usize>>,
        joint_lists: Seq<Vec<usize>>,
        impacts: Seq<Impact>,
    | #[trigger]
        moved_chain(
            before,
            interpolated,
            mid,
            ready,
            solved,
            held,
            after,
            colliders,
            entries_before,
            entries_after,
            joints,
            solvers,
            manifold_lists,
            joint_lists,
            impacts,
            gravity,
            parameters,
            clamp,
        );
    assert(moved_chain(
        before,
        interpolated,
        mid,
        ready,
        solved,
        held,
        other,
        colliders,
        entries_before,
        entries_after,
        joints,
        solvers,
        manifold_lists,
        joint_lists,
        impacts,
        gravity,
        parameters,
        clamp,
    ));
}

/// Which entries a removal leaves depends on nothing of the colliders but
/// what their slots hold.
pub proof fn lemma_kept_reads_slots(entries: Seq<ContactPair>, removal: Removal, a: ColliderSet, b: ColliderSet)
    requires
        a.slots@ == b.slots@,
    ensures
        kept(entries, removal, a) == kept(entries, removal, b),
    decreases entries.len(),
{
    if entries.len() > 0 {
        lemma_kept_reads_slots(entries.drop_last(), removal, a, b);
    }
}

/// Taking in the events of the broad phase depends on nothing of the
/// colliders but what their slots hold.
pub proof fn lemma_registered_reads_slots(
    entries: Seq<ContactPair>,
    a: ColliderSet,
    b: ColliderSet,
    changes: Seq<BroadPhasePairEvent>,
)
    requires
        a.slots@ == b.slots@,
    ensures
        registered(entries, a, changes) == registered(entries, b, changes),
    decreases changes.len(),
{
    if changes.len() > 0 {
        lemma_registered_reads_slots(entries, a, b, changes.drop_last());
        match changes.last() {
            BroadPhasePairEvent::DeletePair(p) => {
                lemma_kept_reads_slots(registered(entries, a, changes.drop_last()), Removal::Pair(p), a, b);
            },
            BroadPhasePairEvent::AddPair(p) => {},
        }
    }
}

/// A detection pass depends on nothing of the bodies and of the colliders
/// but what their slots hold.
pub proof fn lemma_detected_reads_slots<H: PhysicsHooks>(
    entries: Seq<ContactPair>,
    a: ColliderSet,
    b: ColliderSet,
    bodies_a: RigidBodySet,
    bodies_b: RigidBodySet,
    margin: u64,
    hooks: H,
    changes: Seq<BroadPhasePairEvent>,
    user_changes: bool,
)
    requires
        a.slots@ == b.slots@,
        bodies_a.slots@ == bodies_b.slots@,
    ensures
        detected(entries, a, bodies_a, margin, hooks, changes, user_changes) == detected(
            entries,
            b,
            bodies_b,
            margin,
            hooks,
            changes,
            user_changes,
        ),
{
    reveal(detected);
    reveal(touching);
    reveal(overlapping);
    lemma_kept_reads_slots(entries, Removal::Orphans, a, b);
    lemma_registered_reads_slots(pruned(entries, a, user_changes), a, b, changes);
    assert(detected(entries, a, bodies_a, margin, hooks, changes, user_changes) =~= detected(
        entries,
        b,
        bodies_b,
        margin,
        hooks,
        changes,
        user_changes,
    ));
}

/// What is reported for the entries that a removal takes away depends on
/// nothing of the colliders but what their slots hold.
pub proof fn lemma_farewells_read_slots(entries: Seq<ContactPair>, removal: Removal, a: ColliderSet, b: ColliderSet)
    requires
        a.slots@ == b.slots@,
    ensures
        farewells(entries, removal, a) == farewells(entries, removal, b),
    decreases entries.len(),
{
    if entries.len() > 0 {
        lemma_farewells_read_slots(entries.drop_last(), removal, a, b);
    }
}

/// What is reported while the events of the broad phase are taken in
/// depends on nothing of the colliders but what their slots hold.
pub proof fn lemma_registration_news_read_slots(
    entries: Seq<ContactPair>,
    a: ColliderSet,
    b: ColliderSet,
    changes: Seq<BroadPhasePairEvent>,
)
    requires
        a.slots@ == b.slots@,
    ensures
        registration_news(entries, a, changes) == registration_news(entries, b, changes),
    decreases changes.len(),
{
    if changes.len() > 0 {
        lemma_registration_news_read_slots(entries, a, b, changes.drop_last());
        lemma_registered_reads_slots(entries, a, b, changes.drop_last());
        match changes.last() {
            BroadPhasePairEvent::DeletePair(p) => {
                lemma_farewells_read_slots(registered(entries, a, changes.drop_last()), Removal::Pair(p), a, b);
            },
            BroadPhasePairEvent::AddPair(p) => {},
        }
    }
}

/// What is reported when contacts are computed anew depends on nothing of
/// the bodies and of the colliders but what their slots hold.
pub proof fn lemma_contact_news_read_slots<H: PhysicsHooks>(
    entries: Seq<ContactPair>,
    a: ColliderSet,
    b: ColliderSet,
    bodies_a: RigidBodySet,
    bodies_b: RigidBodySet,
    margin: u64,
    hooks: H,
)
    requires
        a.slots@ == b.slots@,
        bodies_a.slots@ == bodies_b.slots@,
    ensures
        all_contact_news(entries, a, bodies_a, margin, hooks) == all_contact_news(
            entries,
            b,
            bodies_b,
            margin,
            hooks,
        ),
    decreases entries.len(),
{
    reveal(touching);
    if entries.len() > 0 {
        lemma_contact_news_read_slots(entries.drop_last(), a, b, bodies_a, bodies_b, margin, hooks);
    }
}

/// What is reported when overlaps are computed anew depends on nothing of
/// the colliders but what their slots hold.
pub proof fn lemma_overlap_news_read_slots<H: PhysicsHooks>(
    entries: Seq<ContactPair>,
    a: ColliderSet,
    b: ColliderSet,
    hooks: H,
)
    requires
        a.slots@ == b.slots@,
    ensures
        all_overlap_news(entries, a, hooks) == all_overlap_news(entries, b, hooks),
    decreases entries.len(),
{
    reveal(overlapping);
    if entries.len() > 0 {
        lemma_overlap_news_read_slots(entries.drop_last(), a, b, hooks);
    }
}

/// What a detection pass reports depends on nothing of the bodies and of
/// the colliders but what their slots hold.
pub proof fn lemma_news_read_slots<H: PhysicsHooks>(
    entries: Seq<ContactPair>,
    a: ColliderSet,
    b: ColliderSet,
    bodies_a: RigidBodySet,
    bodies_b: RigidBodySet,
    margin: u64,
    hooks: H,
    changes: Seq<BroadPhasePairEvent>,
    user_changes: bool,
)
    requires
        a.slots@ == b.slots@,
        bodies_a.slots@ == bodies_b.slots@,
    ensures
        detection_news(entries, a, bodies_a, margin, hooks, changes, user_changes) == detection_news(
            entries,
            b,
            bodies_b,
            margin,
            hooks,
            changes,
            user_changes,
        ),
{
    reveal(detection_news);
    reveal(touching);
    lemma_kept_reads_slots(entries, Removal::Orphans, a, b);
    lemma_farewells_read_slots(entries, Removal::Orphans, a, b);
    let start = pruned(entries, a, user_changes);
    lemma_registered_reads_slots(start, a, b, changes);
    lemma_registration_news_read_slots(start, a, b, changes);
    let taken_in = registered(start, a, changes);
    lemma_contact_news_read_slots(taken_in, a, b, bodies_a, bodies_b, margin, hooks);
    let touched_a = Seq::new(taken_in.len(), |k: int| with_contact(taken_in[k], a, bodies_a, margin, hooks));
    let touched_b = Seq::new(taken_in.len(), |k: int| with_contact(taken_in[k], b, bodies_b, margin, hooks));
    assert(touched_a =~= touched_b);
    lemma_overlap_news_read_slots(touched_a, a, b, hooks);
}

/// Which events the broad phase owes depends on nothing of the colliders
/// but what their slots hold.
pub proof fn lemma_changes_read_slots(
    events: Seq<BroadPhasePairEvent>,
    known: Seq<ColliderPair>,
    a: ColliderSet,
    b: ColliderSet,
    margin: u64,
)
    requires
        a.slots@ == b.slots@,
        reports_changes(events, known, a, margin),
    ensures
        reports_changes(events, known, b, margin),
{
    assert forall|e: BroadPhasePairEvent| #[trigger]
        events.contains(e) <==> crate::geometry::broad_phase::event_due(known, b, margin, e) by {
        assert(crate::geometry::broad_phase::event_due(known, a, margin, e)
            == crate::geometry::broad_phase::event_due(known, b, margin, e));
    }
}

/// One substep, phase by phase: the bodies are moved, the colliders of the
/// bodies that move are carried along, the broad phase reports `changes`,
/// and the narrow phase takes them in and computes contacts and overlaps
/// anew, from the entries that the solve left; what it notices is reported.
pub open spec fn substep_chain<H: PhysicsHooks>(
    before: Moment,
    after: Moment,
    solved_entries: Seq<ContactPair>,
    changes: Seq<BroadPhasePairEvent>,
    joints: Seq<Option<Joint>>,
    gravity: Vector,
    parameters: IntegrationParameters,
    clamp: bool,
    hooks: H,
) -> bool {
    &&& moved_through(
        before.bodies,
        after.bodies,
        before.colliders,
        before.entries,
        solved_entries,
        joints,
        gravity,
        parameters,
        clamp,
    )
    &&& after.bodies.modified_inactive_set@.len() == 0
    &&& after.colliders.slots@ == before.colliders.carried_by_moving(after.bodies)
    &&& after.colliders.modified_colliders@.len() == 0
    &&& lists_near_pairs(after.near, after.colliders, parameters.prediction_distance)
    &&& reports_changes(changes, before.near, after.colliders, parameters.prediction_distance)
    &&& after.entries == detected(
        solved_entries,
        after.colliders,
        after.bodies,
        parameters.prediction_distance,
        hooks,
        changes,
        false,
    )
    &&& after.events == before.events + detection_news(
        solved_entries,
        after.colliders,
        after.bodies,
        parameters.prediction_distance,
        hooks,
        changes,
        false,
    )
}

/// Whether a substep of `parameters.dt` ticks makes `after` of `before`.
#[verifier::opaque]
pub open spec fn follows<H: PhysicsHooks>(
    before: Moment,
    after: Moment,
    joints: Seq<Option<Joint>>,
    gravity: Vector,
    parameters: IntegrationParameters,
    clamp: bool,
    hooks: H,
) -> bool {
    exists|solved_entries: Seq<ContactPair>, changes: Seq<BroadPhasePairEvent>| #[trigger]
        substep_chain(before, after, solved_entries, changes, joints, gravity, parameters, clamp, hooks)
}

/// A substep follows when its phases have led from one world to the next.
pub proof fn lemma_follows<H: PhysicsHooks>(
    before: Moment,
    moved: RigidBodySet,
    carried: ColliderSet,
    after: Moment,
    solved_entries: Seq<ContactPair>,
    changes: Seq<BroadPhasePairEvent>,
    joints: Seq<Option<Joint>>,
    gravity: Vector,
    parameters: IntegrationParameters,
    clamp: bool,
    hooks: H,
)
    requires
        moved_through(
            before.bodies,
            moved,
            before.colliders,
            before.entries,
            solved_entries,
            joints,
            gravity,
            parameters,
            clamp,
        ),
        carried.slots@ == before.colliders.carried_by_moving(moved),
        lists_near_pairs(after.near, carried, parameters.prediction_distance),
        reports_changes(changes, before.near, carried, parameters.prediction_distance),
        after.entries == detected(
            solved_entries,
            carried,
            moved,
            parameters.prediction_distance,
            hooks,
            changes,
            false,
        ),
        after.events == before.events + detection_news(
            solved_entries,
            carried,
            moved,
            parameters.prediction_distance,
            hooks,
            changes,
            false,
        ),
        after.bodies.slots@ == moved.slots@,
        after.bodies.active_dynamic_set@ == moved.active_dynamic_set@,
        after.bodies.active_islands@ == moved.active_islands@,
        after.bodies.modified_inactive_set@.len() == 0,
        after.colliders.slots@ == carried.slots@,
        after.colliders.modified_colliders@.len() == 0,
    ensures
        follows(before, after, joints, gravity, parameters, clamp, hooks),
{
    reveal(follows);
    lemma_moved_reads_islands(
        before.bodies,
        moved,
        after.bodies,
        before.colliders,
        before.entries,
        solved_entries,
        joints,
        gravity,
        parameters,
        clamp,
    );
    assert(after.colliders.slots@ =~= before.colliders.carried_by_moving(after.bodies));
    crate::pipeline::physics_pipeline::lemma_near_reads_slots(
        after.near,
        carried,
        after.colliders,
        parameters.prediction_distance,
    );
    lemma_changes_read_slots(changes, before.near, carried, after.colliders, parameters.prediction_distance);
    lemma_detected_reads_slots(
        solved_entries,
        carried,
        after.colliders,
        moved,
        after.bodies,
        parameters.prediction_distance,
        hooks,
        changes,
        false,
    );
    lemma_news_read_slots(
        solved_entries,
        carried,
        after.colliders,
        moved,
        after.bodies,
        parameters.prediction_distance,
        hooks,
        changes,
        false,
    );
    assert(substep_chain(before, after, solved_entries, changes, joints, gravity, parameters, clamp, hooks));
}

/// The start of a step, phase by phase. What the user changed is taken in:
/// `settled` lists the dynamic bodies that are awake, every collider whose
/// body is gone is dropped and every other is carried to its body. The
/// broad phase reports `changes`, and the narrow phase drops the entries of
/// the colliders that are gone, takes the changes in and computes contacts
/// and overlaps anew; what it notices is reported. Last, the bodies that
/// are fast enough are marked as watched.
pub open spec fn start_chain<H: PhysicsHooks>(
    start: Moment,
    first: Moment,
    settled: RigidBodySet,
    changes: Seq<BroadPhasePairEvent>,
    parameters: IntegrationParameters,
    hooks: H,
) -> bool {
    &&& settled.settles(start.bodies)
    &&& first.bodies.slots@.len() == settled.slots@.len()
    &&& forall|i: int|
        0 <= i < settled.slots@.len() ==> #[trigger] first.bodies.slots@[i] == flagged_slot(
            settled,
            parameters.dt,
            i,
        )
    &&& first.bodies.same_sets(settled)
    &&& first.colliders.slots@.len() == start.colliders.slots@.len()
    &&& forall|c: int|
        0 <= c < start.colliders.slots@.len() ==> #[trigger] first.colliders.slots@[c] == synced_collider(
            start.colliders,
            start.bodies,
            first.bodies,
            c,
        )
    &&& first.colliders.modified_colliders@.len() == 0
    &&& lists_near_pairs(first.near, first.colliders, parameters.prediction_distance)
    &&& reports_changes(changes, start.near, first.colliders, parameters.prediction_distance)
    &&& first.entries == detected(
        start.entries,
        first.colliders,
        settled,
        parameters.prediction_distance,
        hooks,
        changes,
        true,
    )
    &&& first.events == start.events + detection_news(
        start.entries,
        first.colliders,
        settled,
        parameters.prediction_distance,
        hooks,
        changes,
        true,
    )
}

/// Whether `first` is the world in which the first substep of a step
/// starts, when the step itself starts in `start`.
#[verifier::opaque]
pub open spec fn begins<H: PhysicsHooks>(
    start: Moment,
    first: Moment,
    parameters: IntegrationParameters,
    hooks: H,
) -> bool {
    exists|settled: RigidBodySet, changes: Seq<BroadPhasePairEvent>| #[trigger]
        start_chain(start, first, settled, changes, parameters, hooks)
}

/// A step begins when its first phases have led to the world of the first
/// substep.
pub proof fn lemma_begins<H: PhysicsHooks>(
    start: Moment,
    first: Moment,
    settled: RigidBodySet,
    carried: ColliderSet,
    changes: Seq<BroadPhasePairEvent>,
    parameters: IntegrationParameters,
    hooks: H,
)
    requires
        settled.settles(start.bodies),
        first.bodies.slots@.len() == settled.slots@.len(),
        forall|i: int|
            0 <= i < settled.slots@.len() ==> #[trigger] first.bodies.slots@[i] == flagged_slot(
                settled,
                parameters.dt,
                i,
            ),
        first.bodies.same_sets(settled),
        first.colliders.slots@.len() == start.colliders.slots@.len(),
        forall|c: int|
            0 <= c < start.colliders.slots@.len() ==> #[trigger] first.colliders.slots@[c] == synced_collider(
                start.colliders,
                start.bodies,
                first.bodies,
                c,
            ),
        first.colliders.modified_colliders@.len() == 0,
        first.colliders.slots@ == carried.slots@,
        lists_near_pairs(first.near, carried, parameters.prediction_distance),
        reports_changes(changes, start.near, carried, parameters.prediction_distance),
        first.entries == detected(
            start.entries,
            carried,
            settled,
            parameters.prediction_distance,
            hooks,
            changes,
            true,
        ),
        first.events == start.events + detection_news(
            start.entries,
            carried,
            settled,
            parameters.prediction_distance,
            hooks,
            changes,
            true,
        ),
    ensures
        begins(start, first, parameters, hooks),
{
    reveal(begins);
    crate::pipeline::physics_pipeline::lemma_near_reads_slots(
        first.near,
        carried,
        first.colliders,
        parameters.prediction_distance,
    );
    lemma_changes_read_slots(changes, start.near, carried, first.colliders, parameters.prediction_distance);
    lemma_detected_reads_slots(
        start.entries,
        carried,
        first.colliders,
        settled,
        settled,
        parameters.prediction_distance,
        hooks,
        changes,
        true,
    );
    lemma_news_read_slots(
        start.entries,
        carried,
        first.colliders,
        settled,
        settled,
        parameters.prediction_distance,
        hooks,
        changes,
        true,
    );
    assert(start_chain(start, first, settled, changes, parameters, hooks));
}

/// Whether `answer` is what the search for the earliest impact answers in
/// the world `moment`: the earliest time, in what is left of the step, at
/// which a watched body meets another, if the next substep may be cut short;
/// nothing, without a search, if it may not.
pub open spec fn answered(moment: Moment, budget: SubstepBudget, ccd_active: bool, answer: Option<u64>) -> bool {
    if budget.splits(ccd_active) {
        is_earliest_impact(answer, moment.bodies, moment.colliders, None, budget.remaining_time)
    } else {
        answer is None
    }
}

/// Whether substep `k` of a run leads from world `k` to the next: the
/// search for an impact in world `k` answered `answers[k]`, the substep was
/// given the length that the budget plans on that answer, and it made the
/// next world of world `k`. Bodies are held back whenever the step watches
/// a body.
pub open spec fn substep_taken<H: PhysicsHooks>(
    run: Seq<Moment>,
    answers: Seq<Option<u64>>,
    k: int,
    ccd_active: bool,
    joints: Seq<Option<Joint>>,
    gravity: Vector,
    parameters: IntegrationParameters,
    hooks: H,
) -> bool {
    let budget = budget_after(first_budget(parameters), ccd_active, answers.take(k), parameters.min_ccd_dt);
    &&& answered(run[k], budget, ccd_active, answers[k])
    &&& follows(
        run[k],
        run[k + 1],
        joints,
        gravity,
        parameters.with_dt(budget.next_length(ccd_active, answers[k], parameters.min_ccd_dt)),
        ccd_active,
        hooks,
    )
}

/// Whether `run` are the worlds of a step that starts in `start`: the first
/// is the world in which the first substep starts, and each substep leads
/// to the next.
#[verifier::opaque]
pub open spec fn runs<H: PhysicsHooks>(
    start: Moment,
    run: Seq<Moment>,
    answers: Seq<Option<u64>>,
    ccd_active: bool,
    joints: Seq<Option<Joint>>,
    gravity: Vector,
    parameters: IntegrationParameters,
    hooks: H,
) -> bool {
    &&& run.len() == answers.len() + 1
    &&& begins(start, run[0], parameters, hooks)
    &&& forall|k: int|
        0 <= k < answers.len() ==> #[trigger] substep_taken(
            run,
            answers,
            k,
            ccd_active,
            joints,
            gravity,
            parameters,
            hooks,
        )
}

/// A run of one world is a run.
pub proof fn lemma_run_begins<H: PhysicsHooks>(
    start: Moment,
    first: Moment,
    ccd_active: bool,
    joints: Seq<Option<Joint>>,
    gravity: Vector,
    parameters: IntegrationParameters,
    hooks: H,
)
    requires
        begins(start, first, parameters, hooks),
    ensures
        runs(start, seq![first], Seq::<Option<u64>>::empty(), ccd_active, joints, gravity, parameters, hooks),
{
    reveal(runs);
}

/// A substep more makes a longer run.
pub proof fn lemma_run_extends<H: PhysicsHooks>(
    start: Moment,
    run: Seq<Moment>,
    answers: Seq<Option<u64>>,
    next: Moment,
    answer: Option<u64>,
    ccd_active: bool,
    joints: Seq<Option<Joint>>,
    gravity: Vector,
    parameters: IntegrationParameters,
    hooks: H,
)
    requires
        runs(start, run, answers, ccd_active, joints, gravity, parameters, hooks),
        answered(
            run.last(),
            budget_after(first_budget(parameters), ccd_active, answers, parameters.min_ccd_dt),
            ccd_active,
            answer,
        ),
        follows(
            run.last(),
            next,
            joints,
            gravity,
            parameters.with_dt(
                budget_after(first_budget(parameters), ccd_active, answers, parameters.min_ccd_dt).next_length(
                    ccd_active,
                    answer,
                    parameters.min_ccd_dt,
                ),
            ),
            ccd_active,
            hooks,
        ),
    ensures
        runs(start, run.push(next), answers.push(answer), ccd_active, joints, gravity, parameters, hooks),
{
    reveal(runs);
    let longer = run.push(next);
    let more = answers.push(answer);
    assert forall|k: int| 0 <= k < more.len() implies #[trigger] substep_taken(
        longer,
        more,
        k,
        ccd_active,
        joints,
        gravity,
        parameters,
        hooks,
    ) by {
        if k < answers.len() {
            assert(substep_taken(run, answers, k, ccd_active, joints, gravity, parameters, hooks));
            assert(more.take(k) =~= answers.take(k));
        } else {
            assert(more.take(k) =~= answers);
        }
    }
}

/// What the stepping loop knows of its plan after some substeps: the
/// lengths taken and the budget left are those planned on `answers`, the
/// loop has gone on after every substep but, if it is `done`, the last.
#[verifier::opaque]
pub open spec fn planning(
    parameters: IntegrationParameters,
    ccd_active: bool,
    answers: Seq<Option<u64>>,
    lengths: Seq<u64>,
    budget: SubstepBudget,
    done: bool,
) -> bool {
    let initial = first_budget(parameters);
    &&& lengths == lengths_of(initial, ccd_active, answers, parameters.min_ccd_dt)
    &&& lengths.len() == answers.len()
    &&& budget == budget_after(initial, ccd_active, answers, parameters.min_ccd_dt)
    &&& forall|k: int| 1 <= k < answers.len() ==> #[trigger] goes_on(initial, ccd_active, answers, parameters.min_ccd_dt, k)
    &&& answers.len() == 0 ==> !done
    &&& answers.len() >= 1 ==> done == budget.exhausted(ccd_active)
    &&& !done ==> budget.remaining_substeps + answers.len() == parameters.max_ccd_substeps
}

/// Before the first substep nothing has been planned.
pub proof fn lemma_planning_begins(parameters: IntegrationParameters, ccd_active: bool)
    ensures
        planning(
            parameters,
            ccd_active,
            Seq::<Option<u64>>::empty(),
            Seq::<u64>::empty(),
            first_budget(parameters),
            false,
        ),
{
    reveal(planning);
}

/// What the loop knows at its head.
pub proof fn lemma_planning_means(
    parameters: IntegrationParameters,
    ccd_active: bool,
    answers: Seq<Option<u64>>,
    lengths: Seq<u64>,
    budget: SubstepBudget,
    done: bool,
)
    requires
        planning(parameters, ccd_active, answers, lengths, budget, done),
    ensures
        lengths.len() == answers.len(),
        budget == budget_after(first_budget(parameters), ccd_active, answers, parameters.min_ccd_dt),
        !done ==> budget.remaining_substeps + answers.len() == parameters.max_ccd_substeps,
        lengths == lengths_of(first_budget(parameters), ccd_active, answers, parameters.min_ccd_dt),
        done ==> whole_step(first_budget(parameters), ccd_active, answers, parameters.min_ccd_dt),
{
    reveal(planning);
}

/// Planning one substep more carries the plan on.
pub proof fn lemma_planning_extends(
    parameters: IntegrationParameters,
    ccd_active: bool,
    answers: Seq<Option<u64>>,
    lengths: Seq<u64>,
    budget: SubstepBudget,
    answer: Option<u64>,
)
    requires
        planning(parameters, ccd_active, answers, lengths, budget, false),
    ensures
        planning(
            parameters,
            ccd_active,
            answers.push(answer),
            lengths.push(budget.next_length(ccd_active, answer, parameters.min_ccd_dt)),
            budget.after(ccd_active, answer, parameters.min_ccd_dt),
            budget.after(ccd_active, answer, parameters.min_ccd_dt).exhausted(ccd_active),
        ),
{
    reveal(planning);
    let initial = first_budget(parameters);
    let min = parameters.min_ccd_dt;
    let more = answers.push(answer);
    assert(more.drop_last() =~= answers);
    assert forall|k: int| 1 <= k < more.len() implies #[trigger] goes_on(initial, ccd_active, more, min, k) by {
        if k < answers.len() {
            assert(goes_on(initial, ccd_active, answers, min, k));
            assert(more.take(k) =~= answers.take(k));
        } else {
            assert(more.take(k) =~= answers);
        }
    }
    crate::pipeline::substep::lemma_slice_fits(budget, ccd_active, answer);
}

/// One query more is counted.
pub proof fn lemma_queries_counted(queries: usize, n: nat)
    ensures
        counted(queries_after(queries, n)) == queries_after(queries, n + 1),
{
}

/// Holding bodies back, one impact for each body at most, leaves the body
/// of each impact where that impact holds it.
pub proof fn lemma_clamped_at(slots: Seq<Option<RigidBody>>, impacts: Seq<Impact>, k: int)
    requires
        0 <= k < impacts.len(),
        forall|j: int, l: int| 0 <= j < l < impacts.len() ==> impacts[j].body.0 < impacts[l].body.0,
        impacts[k].body.0 < slots.len(),
        slots[impacts[k].body.0 as int] is Some,
    ensures
        clamped(slots, impacts).len() == slots.len(),
        clamped(slots, impacts)[impacts[k].body.0 as int] == Some(
            held_back(slots[impacts[k].body.0 as int]->Some_0, impacts[k].toi),
        ),
    decreases impacts.len(),
{
    let i = impacts[k].body.0 as int;
    let rest = impacts.drop_last();
    lemma_clamped_frame(slots, rest, i);
    if k == impacts.len() - 1 {
        assert forall|j: int| 0 <= j < rest.len() implies (#[trigger] rest[j]).body.0 != i by {
            assert(rest[j] == impacts[j]);
        }
    } else {
        assert(rest[k] == impacts[k]);
        lemma_clamped_at(slots, rest, k);
        assert(impacts.last() == impacts[impacts.len() - 1]);
    }
}

/// What a substep commits for a body that is held back. In a substep that
/// holds bodies back, a body for which an impact is predicted ends the
/// substep where the impact holds it: where the velocity that the solve
/// left it takes it in the time to the impact, and no farther.
pub proof fn lemma_held_body_is_committed_at_impact(
    before: RigidBodySet,
    interpolated: RigidBodySet,
    mid: RigidBodySet,
    ready: RigidBodySet,
    solved: RigidBodySet,
    held: RigidBodySet,
    after: RigidBodySet,
    colliders: ColliderSet,
    entries_before: Seq<ContactPair>,
    entries_after: Seq<ContactPair>,
    joints: Seq<Option<Joint>>,
    solvers: Seq<IslandSolver>,
    manifold_lists: Seq<Vec<usize>>,
    joint_lists: Seq<Vec<usize>>,
    impacts: Seq<Impact>,
    gravity: Vector,
    parameters: IntegrationParameters,
    k: int,
)
    requires
        moved_chain(
            before,
            interpolated,
            mid,
            ready,
            solved,
            held,
            after,
            colliders,
            entries_before,
            entries_after,
            joints,
            solvers,
            manifold_lists,
            joint_lists,
            impacts,
            gravity,
            parameters,
            true,
        ),
        watch_is_sound(before),
        0 <= k < impacts.len(),
    ensures
        solved.live(impacts[k].body.0 as int),
        after.live(impacts[k].body.0 as int),
        after.at(impacts[k].body.0 as int).position == held_back(
            solved.at(impacts[k].body.0 as int),
            impacts[k].toi,
        ).next_position,
        is_earliest_impact(Some(impacts[k].toi), solved, colliders, Some(impacts[k].body.0), parameters.dt),
{
    reveal(predicted);
    let i = impacts[k].body.0 as int;
    lemma_solve_frames(
        interpolated,
        mid,
        ready,
        solved,
        entries_before,
        entries_after,
        joints,
        solvers,
        manifold_lists,
        joint_lists,
        gravity,
        parameters,
    );
    assert(solved.live(i) && solved.at(i).ccd_active);
    assert(solve_frame(interpolated, solved, i));
    assert(interpolated.slots@[i] == interpolated_slot(before, parameters.dt, i));
    assert(before.live(i) && before.at(i).ccd_active);
    assert(solved.active(i));
    lemma_clamped_at(solved.slots@, impacts, k);
    assert(held.active(i));
    assert(after.slots@[i] == committed_slot(held, i));
}

/// Whether the narrow phase holds an entry for each pair that the broad
/// phase lists.
pub open spec fn covers(entries: Seq<ContactPair>, near: Seq<ColliderPair>) -> bool {
    forall|p: ColliderPair| #[trigger] near.contains(p) ==> listed(entries, p)
}

/// Whether `removal` spares every entry of `pair`.
pub open spec fn spared(removal: Removal, colliders: ColliderSet, pair: ColliderPair) -> bool {
    match removal {
        Removal::Orphans => alive(colliders, pair),
        Removal::Pair(p) => p != pair,
    }
}

/// A removal that spares a pair leaves it an entry.
pub proof fn lemma_kept_lists(entries: Seq<ContactPair>, removal: Removal, colliders: ColliderSet, pair: ColliderPair)
    requires
        listed(entries, pair),
        spared(removal, colliders, pair),
    ensures
        listed(kept(entries, removal, colliders), pair),
    decreases entries.len(),
{
    let k = choose|k: int| 0 <= k < entries.len() && (#[trigger] entries[k]).pair == pair;
    let rest = kept(entries.drop_last(), removal, colliders);
    if entries.last().pair == pair {
        assert(kept(entries, removal, colliders) == rest.push(entries.last()));
        assert(rest.push(entries.last())[rest.len() as int].pair == pair);
    } else {
        assert(entries.drop_last()[k].pair == pair);
        lemma_kept_lists(entries.drop_last(), removal, colliders, pair);
        let j = choose|j: int| 0 <= j < rest.len() && (#[trigger] rest[j]).pair == pair;
        if kept(entries, removal, colliders) != rest {
            assert(rest.push(entries.last())[j].pair == pair);
        }
    }
}

/// Once the events of the broad phase have been taken in, a pair has an
/// entry if it had one or was added, unless it was deleted.
pub proof fn lemma_registered_lists(
    entries: Seq<ContactPair>,
    colliders: ColliderSet,
    changes: Seq<BroadPhasePairEvent>,
    pair: ColliderPair,
)
    requires
        !changes.contains(BroadPhasePairEvent::DeletePair(pair)),
        listed(entries, pair) || changes.contains(BroadPhasePairEvent::AddPair(pair)),
    ensures
        listed(registered(entries, colliders, changes), pair),
    decreases changes.len(),
{
    if changes.len() > 0 {
        let rest = changes.drop_last();
        let last = changes.last();
        let before = registered(entries, colliders, rest);
        assert(changes[changes.len() - 1] == last);
        assert forall|e: BroadPhasePairEvent| rest.contains(e) implies changes.contains(e) by {
            let i = choose|i: int| 0 <= i < rest.len() && rest[i] == e;
            assert(changes[i] == e);
        }
        if listed(entries, pair) || rest.contains(BroadPhasePairEvent::AddPair(pair)) {
            lemma_registered_lists(entries, colliders, rest, pair);
            let j = choose|j: int| 0 <= j < before.len() && (#[trigger] before[j]).pair == pair;
            match last {
                BroadPhasePairEvent::AddPair(q) => {
                    if !listed(before, q) {
                        assert(before.push(crate::geometry::narrow_phase::fresh_entry(colliders, q))[j].pair == pair);
                    }
                },
                BroadPhasePairEvent::DeletePair(q) => {
                    lemma_kept_lists(before, Removal::Pair(q), colliders, pair);
                },
            }
        } else {
            let i = choose|i: int| 0 <= i < changes.len() && changes[i] == BroadPhasePairEvent::AddPair(pair);
            if i < rest.len() {
                assert(rest[i] == BroadPhasePairEvent::AddPair(pair));
            }
            assert(last == BroadPhasePairEvent::AddPair(pair));
            if !listed(before, pair) {
                assert(before.push(crate::geometry::narrow_phase::fresh_entry(colliders, pair))[before.len() as int].pair
                    == pair);
            }
        }
    }
}

/// A detection pass leaves the narrow phase an entry for each pair that the
/// broad phase lists, if it had one for each pair that the broad phase
/// listed before.
pub proof fn lemma_detection_covers<H: PhysicsHooks>(
    entries: Seq<ContactPair>,
    known: Seq<ColliderPair>,
    near: Seq<ColliderPair>,
    colliders: ColliderSet,
    bodies: RigidBodySet,
    margin: u64,
    hooks: H,
    changes: Seq<BroadPhasePairEvent>,
    user_changes: bool,
)
    requires
        covers(entries, known),
        lists_near_pairs(near, colliders, margin),
        reports_changes(changes, known, colliders, margin),
    ensures
        covers(detected(entries, colliders, bodies, margin, hooks, changes, user_changes), near),
{
    reveal(detected);
    let found = detected(entries, colliders, bodies, margin, hooks, changes, user_changes);
    let start = pruned(entries, colliders, user_changes);
    let taken_in = registered(start, colliders, changes);
    assert forall|p: ColliderPair| #[trigger] near.contains(p) implies listed(found, p) by {
        assert(pair_near(colliders, margin, p));
        assert(alive(colliders, p));
        if changes.contains(BroadPhasePairEvent::DeletePair(p)) {
            assert(event_due(known, colliders, margin, BroadPhasePairEvent::DeletePair(p)));
        }
        if known.contains(p) {
            assert(listed(entries, p));
            if user_changes {
                lemma_kept_lists(entries, Removal::Orphans, colliders, p);
            }
        } else {
            assert(event_due(known, colliders, margin, BroadPhasePairEvent::AddPair(p)));
            assert(changes.contains(BroadPhasePairEvent::AddPair(p)));
        }
        lemma_registered_lists(start, colliders, changes, p);
        let k = choose|k: int| 0 <= k < taken_in.len() && (#[trigger] taken_in[k]).pair == p;
        assert(found[k].pair == p);
    }
}

/// A substep leaves the narrow phase an entry for each pair that the broad
/// phase lists, if it had one for each before.
pub proof fn lemma_follows_covers<H: PhysicsHooks>(
    before: Moment,
    after: Moment,
    joints: Seq<Option<Joint>>,
    gravity: Vector,
    parameters: IntegrationParameters,
    clamp: bool,
    hooks: H,
)
    requires
        follows(before, after, joints, gravity, parameters, clamp, hooks),
        covers(before.entries, before.near),
    ensures
        covers(after.entries, after.near),
{
    reveal(follows);
    let (solved_entries, changes) = choose|solved_entries: Seq<ContactPair>, changes: Seq<BroadPhasePairEvent>| #[trigger]
        substep_chain(before, after, solved_entries, changes, joints, gravity, parameters, clamp, hooks);
    reveal(moved_through);
    reveal(solved_through);
    assert forall|p: ColliderPair| #[trigger] before.near.contains(p) implies listed(solved_entries, p) by {
        let k = choose|k: int| 0 <= k < before.entries.len() && (#[trigger] before.entries[k]).pair == p;
        assert(solved_entries[k].pair == p);
    }
    lemma_detection_covers(
        solved_entries,
        before.near,
        after.near,
        after.colliders,
        after.bodies,
        parameters.prediction_distance,
        hooks,
        changes,
        false,
    );
}

/// The start of a step leaves the narrow phase an entry for each pair that
/// the broad phase lists, if it had one for each before.
pub proof fn lemma_begins_covers<H: PhysicsHooks>(
    start: Moment,
    first: Moment,
    parameters: IntegrationParameters,
    hooks: H,
)
    requires
        begins(start, first, parameters, hooks),
        covers(start.entries, start.near),
    ensures
        covers(first.entries, first.near),
{
    reveal(begins);
    let (settled, changes) = choose|settled: RigidBodySet, changes: Seq<BroadPhasePairEvent>| #[trigger]
        start_chain(start, first, settled, changes, parameters, hooks);
    lemma_detection_covers(
        start.entries,
        start.near,
        first.near,
        first.colliders,
        settled,
        parameters.prediction_distance,
        hooks,
        changes,
        true,
    );
}

/// The two phases stay in step. If the narrow phase holds an entry for each
/// pair that the broad phase lists when a step starts, it does so in every
/// world of the step.
pub proof fn lemma_run_covers<H: PhysicsHooks>(
    start: Moment,
    run: Seq<Moment>,
    answers: Seq<Option<u64>>,
    ccd_active: bool,
    joints: Seq<Option<Joint>>,
    gravity: Vector,
    parameters: IntegrationParameters,
    hooks: H,
    k: int,
)
    requires
        runs(start, run, answers, ccd_active, joints, gravity, parameters, hooks),
        covers(start.entries, start.near),
        0 <= k < run.len(),
    ensures
        covers(run[k].entries, run[k].near),
    decreases k,
{
    reveal(runs);
    if k == 0 {
        lemma_begins_covers(start, run[0], parameters, hooks);
    } else {
        lemma_run_covers(start, run, answers, ccd_active, joints, gravity, parameters, hooks, k - 1);
        assert(substep_taken(run, answers, k - 1, ccd_active, joints, gravity, parameters, hooks));
        let budget = budget_after(
            first_budget(parameters),
            ccd_active,
            answers.take(k - 1),
            parameters.min_ccd_dt,
        );
        lemma_follows_covers(
            run[k - 1],
            run[k],
            joints,
            gravity,
            parameters.with_dt(budget.next_length(ccd_active, answers[k - 1], parameters.min_ccd_dt)),
            ccd_active,
            hooks,
        );
    }
}

} // verus!
