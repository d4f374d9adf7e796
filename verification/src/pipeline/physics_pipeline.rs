//! Physics pipeline structures.

use crate::counters::Counters;
use crate::dynamics::ccd_solver::{clamped, counted, predicted, watched_at, CCDSolver, Impact};
use crate::dynamics::integration_parameters::IntegrationParameters;
use crate::dynamics::island_dispatcher::{holds_same, solve_islands, DispatchStrategy};
use crate::dynamics::island_solver::{
    lemma_solved_keeps_identity, same_identity, solved_bodies, solved_contacts, IslandSolver, SolverContact,
};
use crate::dynamics::islands::interaction_graph;
use crate::dynamics::joint::joint_set::{island_joints, Joint, JointSet};
use crate::dynamics::rigid_body::RigidBody;
use crate::dynamics::rigid_body_set::RigidBodySet;
use crate::geometry::active_contacts::{
    active_manifolds,
    island_indices,
    lemma_island_indices,
    with_impulse,
};
use crate::geometry::broad_phase::{
    lists_near_pairs,
    reports_changes,
    BroadPhase,
    BroadPhasePairEvent,
};
use crate::geometry::collider::ColliderSet;
use crate::geometry::shape::larger;
use crate::geometry::narrow_phase::{
    all_contact_news,
    all_overlap_news,
    farewells,
    kept,
    overlapping,
    registered,
    registration_news,
    touching,
    with_contact,
    with_overlap,
    ContactManifold,
    ContactPair,
    NarrowPhase,
    Removal,
};
use crate::math::Vector;
use crate::pipeline::event_handler::PhysicsEvent;
use crate::pipeline::physics_hooks::PhysicsHooks;
use crate::pipeline::step_laws::{
    lemma_detection_settles,
    lemma_moved,
    lemma_solve_frames,
    lemma_stepping_begins,
    lemma_stepping_extends,
    lemma_stepping_means,
    lemma_stepping_sound,
    step_frame,
    stepping,
    substep_frame,
    synced_collider,
    up_to_date,
    watch_is_sound,
};
use crate::pipeline::substep::{lemma_slice_fits, lengths_of, total, whole_step, SubstepBudget};
use crate::pipeline::step_run::{
    any_watched,
    covers,
    lemma_detection_covers,
    lemma_run_covers,
    first_budget,
    follows,
    lemma_begins,
    lemma_follows,
    lemma_planning_begins,
    lemma_planning_extends,
    lemma_planning_means,
    lemma_queries_counted,
    lemma_run_begins,
    lemma_run_extends,
    moved_chain,
    moved_through,
    planning,
    queries_after,
    queries_made,
    runs,
    world,
    Moment,
};
use vstd::prelude::*;

verus! {

/// The physics pipeline, responsible for stepping the whole physics simulation.
///
/// This structure only contains temporary data buffers. It can be dropped and
/// replaced by a fresh copy at any time. For performance reasons it is
/// recommended to reuse the same physics pipeline instance to benefit from
/// the cached data. A pipeline must not be shared between two steps that run
/// at the same time.
pub struct PhysicsPipeline {
    /// Counters used for benchmarking only.
    pub counters: Counters,
    /// For each island, the indices of its contacts among those that took
    /// part in the last solve.
    pub manifold_indices: Vec<Vec<usize>>,
    /// For each island, the slots of its joints at the last solve.
    pub joint_constraint_indices: Vec<Vec<usize>>,
    /// What the broad phase reported at the last detection pass.
    pub broad_phase_events: Vec<BroadPhasePairEvent>,
    /// One solver for each island that a step has had to solve so far.
    pub solvers: Vec<IslandSolver>,
    /// How the islands are solved.
    pub strategy: DispatchStrategy,
}

impl Default for PhysicsPipeline {
    fn default() -> (pipeline: PhysicsPipeline)
        ensures
            pipeline.counters.enabled == false,
            !pipeline.counters.completed,
            pipeline.counters.at_rest(),
            pipeline.counters.zeroed(),
            pipeline.counters.substeps().len() == 0,
            pipeline.solver_slots().len() == 0,
            pipeline.manifold_lists().len() == 0,
            pipeline.joint_lists().len() == 0,
            pipeline.pair_events().len() == 0,
            pipeline.dispatch() == DispatchStrategy::Sequential,
    {
        PhysicsPipeline::new()
    }
}

/// The entries that a detection pass starts from: those of which both
/// colliders still exist, when the pass takes in what the user removed.
pub open spec fn pruned(entries: Seq<ContactPair>, colliders: ColliderSet, user_changes: bool) -> Seq<ContactPair> {
    if user_changes {
        kept(entries, Removal::Orphans, colliders)
    } else {
        entries
    }
}

/// The entries of the narrow phase after a detection pass in which the broad
/// phase reported `changes`: the changes are taken in, then contacts and
/// overlaps are computed anew.
#[verifier::opaque]
pub open spec fn detected<H: PhysicsHooks>(
    entries: Seq<ContactPair>,
    colliders: ColliderSet,
    bodies: RigidBodySet,
    margin: u64,
    hooks: H,
    changes: Seq<BroadPhasePairEvent>,
    user_changes: bool,
) -> Seq<ContactPair> {
    let taken_in = registered(pruned(entries, colliders, user_changes), colliders, changes);
    Seq::new(
        taken_in.len(),
        |k: int| with_overlap(with_contact(taken_in[k], colliders, bodies, margin, hooks), colliders, hooks),
    )
}

/// What a detection pass reports, in this order: the pairs that end because
/// a collider is gone, the pairs that end because their colliders are near no
/// longer, the contacts that start or stop, the overlaps that start or stop.
#[verifier::opaque]
pub open spec fn detection_news<H: PhysicsHooks>(
    entries: Seq<ContactPair>,
    colliders: ColliderSet,
    bodies: RigidBodySet,
    margin: u64,
    hooks: H,
    changes: Seq<BroadPhasePairEvent>,
    user_changes: bool,
) -> Seq<PhysicsEvent> {
    let start = pruned(entries, colliders, user_changes);
    let taken_in = registered(start, colliders, changes);
    let touched = Seq::new(taken_in.len(), |k: int| with_contact(taken_in[k], colliders, bodies, margin, hooks));
    (if user_changes {
        farewells(entries, Removal::Orphans, colliders)
    } else {
        Seq::empty()
    }) + registration_news(start, colliders, changes) + all_contact_news(
        taken_in,
        colliders,
        bodies,
        margin,
        hooks,
    ) + all_overlap_news(touched, colliders, hooks)
}

/// What slot `i` holds once the kinematic bodies have been given the
/// velocities that take them to their next positions in `dt` ticks.
pub open spec fn interpolated_slot(bodies: RigidBodySet, dt: u64, i: int) -> Option<RigidBody> {
    if bodies.kinematic_at(i) {
        Some(bodies.at(i).interpolated(dt))
    } else {
        bodies.slots@[i]
    }
}

/// Whether the body in slot `i` moves in a substep: it is a dynamic body of
/// the active set, or a kinematic body.
pub open spec fn moves(bodies: RigidBodySet, i: int) -> bool {
    bodies.active(i) || bodies.kinematic_at(i)
}

/// What slot `i` holds once the substep has been committed.
pub open spec fn committed_slot(bodies: RigidBodySet, i: int) -> Option<RigidBody> {
    if moves(bodies, i) {
        Some(bodies.at(i).committed())
    } else {
        bodies.slots@[i]
    }
}

/// Whether `ready` is `mid` with its active bodies made ready for a solve:
/// each has its centre of mass placed in the world and its weight under
/// `gravity` added to its force.
pub open spec fn readies(ready: RigidBodySet, mid: RigidBodySet, gravity: Vector) -> bool {
    &&& ready.slots@.len() == mid.slots@.len()
    &&& forall|i: int|
        0 <= i < mid.slots@.len() ==> #[trigger] ready.slots@[i] == mid.readied_slot(gravity, i)
    &&& ready.same_sets(mid)
}

/// The contacts that the solver of island `island` is given: those among
/// `entries` that the island solves, in the order of the pairs.
pub open spec fn contacts_given(ready: RigidBodySet, entries: Seq<ContactPair>, island: int) -> Seq<
    SolverContact,
> {
    ready.island_contacts(
        island,
        active_manifolds(entries, ready),
        island_indices(active_manifolds(entries, ready), ready, island),
    )
}

/// Whether `solver` holds island `island` of `ready` as a solve of `dt` ticks
/// leaves it.
pub open spec fn island_solved(
    solver: IslandSolver,
    ready: RigidBodySet,
    entries: Seq<ContactPair>,
    joints: Seq<Option<Joint>>,
    island: int,
    dt: u64,
) -> bool {
    &&& solver.bodies@ == solved_bodies(ready.island_bodies(island), contacts_given(ready, entries, island), dt)
    &&& solver.contacts@ == solved_contacts(
        ready.island_bodies(island),
        contacts_given(ready, entries, island),
        dt,
    )
    &&& solver.joints@ == island_joints(joints, ready, island)
}

/// What building the islands and solving them makes of a world. `mid` is
/// the world once the islands are built, `ready` the world once its active
/// bodies are ready for the solve; every island of `ready` is solved by the
/// solver of its number, the bodies are taken back from the solvers, and
/// each contact is given the impulse that its solver found. The lists hold,
/// for each island, the indices of its contacts and the slots of its joints.
#[verifier::opaque]
pub open spec fn solved_through(
    before: RigidBodySet,
    mid: RigidBodySet,
    ready: RigidBodySet,
    after: RigidBodySet,
    entries_before: Seq<ContactPair>,
    entries_after: Seq<ContactPair>,
    joints: Seq<Option<Joint>>,
    solvers: Seq<IslandSolver>,
    manifold_lists: Seq<Vec<usize>>,
    joint_lists: Seq<Vec<usize>>,
    gravity: Vector,
    parameters: IntegrationParameters,
) -> bool {
    &&& forall|i: int|
        0 <= i < manifold_lists.len() ==> (#[trigger] manifold_lists[i])@ == island_indices(
            active_manifolds(entries_before, ready),
            ready,
            i,
        )
    &&& forall|i: int|
        0 <= i < joint_lists.len() ==> (#[trigger] joint_lists[i])@ == island_joints(joints, ready, i)
    &&& mid.partitions(before, interaction_graph(entries_before, joints), parameters.min_island_size)
    &&& readies(ready, mid, gravity)
    &&& ready.islands_wf()
    &&& ready.island_count() <= solvers.len()
    &&& forall|i: int|
        0 <= i < ready.island_count() ==> island_solved(
            #[trigger] solvers[i],
            ready,
            entries_before,
            joints,
            i,
            parameters.dt,
        )
    &&& after.slots@.len() == ready.slots@.len()
    &&& forall|i: int|
        0 <= i < ready.slots@.len() ==> #[trigger] after.slots@[i] == ready.stored_slot(solvers, i)
    &&& after.same_sets(ready)
    &&& entries_after.len() == entries_before.len()
    &&& forall|p: int|
        0 <= p < entries_before.len() ==> #[trigger] entries_after[p] == with_impulse(
            entries_before,
            ready,
            solvers,
            p,
        )
}

/// Whether the two slots hold bodies of the same status at the same place of
/// the active set, or both hold nothing.
pub open spec fn same_place(a: Option<RigidBody>, b: Option<RigidBody>) -> bool {
    match (a, b) {
        (Some(x), Some(y)) => x.placement == y.placement && x.status == y.status,
        (None, None) => true,
        _ => false,
    }
}

/// A world whose bodies keep their status and their places keeps its islands.
pub proof fn lemma_islands_wf_kept(a: RigidBodySet, b: RigidBodySet)
    requires
        a.islands_wf(),
        b.active_dynamic_set@ == a.active_dynamic_set@,
        b.active_islands@ == a.active_islands@,
        b.slots@.len() == a.slots@.len(),
        forall|i: int| 0 <= i < a.slots@.len() ==> same_place(a.slots@[i], #[trigger] b.slots@[i]),
    ensures
        b.islands_wf(),
        forall|i: int| a.active(i) == b.active(i),
        forall|h1: crate::dynamics::rigid_body_set::RigidBodyHandle, h2: crate::dynamics::rigid_body_set::RigidBodyHandle|
            a.island_holding(h1, h2) == b.island_holding(h1, h2),
{
    assert forall|i: int| a.active(i) == b.active(i) by {
        if 0 <= i < a.slots@.len() {
            assert(same_place(a.slots@[i], b.slots@[i]));
        }
    }
    assert forall|k: int| 0 <= k < b.active_dynamic_set@.len() implies {
        &&& b.active(#[trigger] b.active_dynamic_set@[k] as int)
        &&& b.at(b.active_dynamic_set@[k] as int).dynamic()
        &&& b.at(b.active_dynamic_set@[k] as int).placement->Some_0.offset == k
        &&& b.island_covers(b.island_of(b.active_dynamic_set@[k] as int), k)
    } by {
        let i = a.active_dynamic_set@[k] as int;
        assert(a.active(i));
        assert(same_place(a.slots@[i], b.slots@[i]));
    }
    assert forall|i: int| #[trigger] b.active(i) implies {
        &&& b.at(i).placement->Some_0.offset < b.active_dynamic_set@.len()
        &&& b.active_dynamic_set@[b.at(i).placement->Some_0.offset as int] == i
    } by {
        assert(a.active(i));
        assert(same_place(a.slots@[i], b.slots@[i]));
    }
    assert forall|h1: crate::dynamics::rigid_body_set::RigidBodyHandle, h2: crate::dynamics::rigid_body_set::RigidBodyHandle|
        a.island_holding(h1, h2) == b.island_holding(h1, h2) by {
        if a.active(h1.0 as int) {
            assert(same_place(a.slots@[h1.0 as int], b.slots@[h1.0 as int]));
        }
        if a.active(h2.0 as int) {
            assert(same_place(a.slots@[h2.0 as int], b.slots@[h2.0 as int]));
        }
    }
}

/// Taking the solved bodies back leaves every body its status and its place
/// in the active set.
pub proof fn lemma_store_keeps_places(
    ready: RigidBodySet,
    after: RigidBodySet,
    entries: Seq<ContactPair>,
    joints: Seq<Option<Joint>>,
    solvers: Seq<IslandSolver>,
    dt: u64,
)
    requires
        ready.islands_wf(),
        ready.island_count() <= solvers.len(),
        forall|i: int|
            0 <= i < ready.island_count() ==> island_solved(#[trigger] solvers[i], ready, entries, joints, i, dt),
        after.slots@.len() == ready.slots@.len(),
        forall|i: int|
            0 <= i < ready.slots@.len() ==> #[trigger] after.slots@[i] == ready.stored_slot(solvers, i),
    ensures
        forall|i: int|
            0 <= i < ready.slots@.len() ==> same_place(ready.slots@[i], #[trigger] after.slots@[i]) && (
            ready.slots@[i] is Some ==> same_identity(after.slots@[i]->Some_0, ready.slots@[i]->Some_0)),
{
    assert forall|i: int| 0 <= i < ready.slots@.len() implies same_place(
        ready.slots@[i],
        #[trigger] after.slots@[i],
    ) && (ready.slots@[i] is Some ==> same_identity(after.slots@[i]->Some_0, ready.slots@[i]->Some_0)) by {
        assert(after.slots@[i] == ready.stored_slot(solvers, i));
        if ready.active(i) {
            let p = ready.at(i).placement->Some_0;
            let k = p.offset as int;
            assert(ready.active_dynamic_set@[k] == i);
            assert(ready.active(ready.active_dynamic_set@[k] as int));
            assert(ready.island_covers(ready.island_of(ready.active_dynamic_set@[k] as int), k));
            let island = p.island as int;
            let c = k - ready.active_islands@[island];
            assert(island_solved(solvers[island], ready, entries, joints, island, dt));
            lemma_solved_keeps_identity(
                ready.island_bodies(island),
                contacts_given(ready, entries, island),
                dt,
                c,
            );
            assert(ready.island_bodies(island)[c] == ready.at(i));
        }
    }
}

/// Holding bodies back neither adds nor removes a slot.
pub proof fn lemma_clamped_len(slots: Seq<Option<RigidBody>>, impacts: Seq<Impact>)
    ensures
        clamped(slots, impacts).len() == slots.len(),
    decreases impacts.len(),
{
    if impacts.len() > 0 {
        lemma_clamped_len(slots, impacts.drop_last());
    }
}

/// Whether an entry is up to date depends on nothing of the bodies and of
/// the colliders but what their slots hold.
pub proof fn lemma_detection_reads_slots<H: PhysicsHooks>(
    entry: ContactPair,
    colliders: ColliderSet,
    colliders2: ColliderSet,
    a: RigidBodySet,
    b: RigidBodySet,
    margin: u64,
    hooks: H,
)
    requires
        a.slots@ == b.slots@,
        colliders.slots@ == colliders2.slots@,
    ensures
        up_to_date(entry, colliders, a, margin, hooks) == up_to_date(entry, colliders2, b, margin, hooks),
{
    reveal(touching);
    reveal(overlapping);
}

/// Which pairs are near depends on nothing of the colliders but what their
/// slots hold.
pub proof fn lemma_near_reads_slots(
    pairs: Seq<crate::geometry::broad_phase::ColliderPair>,
    a: ColliderSet,
    b: ColliderSet,
    margin: u64,
)
    requires
        a.slots@ == b.slots@,
        lists_near_pairs(pairs, a, margin),
    ensures
        lists_near_pairs(pairs, b, margin),
{
    assert forall|p: crate::geometry::broad_phase::ColliderPair| #[trigger]
        pairs.contains(p) <==> crate::geometry::broad_phase::pair_near(b, margin, p) by {
        assert(crate::geometry::broad_phase::pair_near(a, margin, p) == crate::geometry::broad_phase::pair_near(
            b,
            margin,
            p,
        ));
    }
}

/// After a detection pass every entry of the narrow phase is up to date.
pub proof fn lemma_detected_up_to_date<H: PhysicsHooks>(
    entries: Seq<ContactPair>,
    colliders: ColliderSet,
    bodies: RigidBodySet,
    margin: u64,
    hooks: H,
    changes: Seq<BroadPhasePairEvent>,
    user_changes: bool,
    k: int,
)
    requires
        0 <= k < detected(entries, colliders, bodies, margin, hooks, changes, user_changes).len(),
    ensures
        up_to_date(
            detected(entries, colliders, bodies, margin, hooks, changes, user_changes)[k],
            colliders,
            bodies,
            margin,
            hooks,
        ),
{
    reveal(detected);
    let taken_in = registered(pruned(entries, colliders, user_changes), colliders, changes);
    lemma_detection_settles(taken_in[k], colliders, bodies, margin, hooks);
}

/// What is appended to a list leaves the list as its start.
pub proof fn lemma_news_extend(before: Seq<PhysicsEvent>, news: Seq<PhysicsEvent>)
    ensures
        (before + news).len() >= before.len(),
        (before + news).subrange(0, before.len() as int) == before,
{
    assert((before + news).subrange(0, before.len() as int) =~= before);
}

/// What a step has made of the colliders depends on nothing of them but
/// what their slots hold.
pub proof fn lemma_stepping_reads_slots(
    start: RigidBodySet,
    start_colliders: ColliderSet,
    now: RigidBodySet,
    a: ColliderSet,
    b: ColliderSet,
    dt: u64,
    stepped: bool,
)
    requires
        stepping(start, start_colliders, now, a, dt, stepped),
        a.slots@ == b.slots@,
    ensures
        stepping(start, start_colliders, now, b, dt, stepped),
{
    reveal(stepping);
}

/// Makes sure that there is a list for each of `count` islands. Lists are
/// added, never taken away.
pub fn grow_lists(lists: &mut Vec<Vec<usize>>, count: usize)
    ensures
        final(lists)@.len() == if old(lists)@.len() < count {
            count as nat
        } else {
            old(lists)@.len()
        },
        forall|i: int| 0 <= i < old(lists)@.len() ==> #[trigger] final(lists)@[i] == old(lists)@[i],
{
    while lists.len() < count
        invariant
            old(lists)@.len() <= lists@.len(),
            lists@.len() <= count || lists@.len() == old(lists)@.len(),
            forall|i: int| 0 <= i < old(lists)@.len() ==> #[trigger] lists@[i] == old(lists)@[i],
        decreases count - lists@.len(),
    {
        lists.push(Vec::new());
    }
}

/// Makes sure that there is a solver for each of `count` islands. Solvers
/// are added, never taken away.
pub fn grow_solvers(solvers: &mut Vec<IslandSolver>, count: usize)
    ensures
        final(solvers)@.len() == if old(solvers)@.len() < count {
            count as nat
        } else {
            old(solvers)@.len()
        },
        forall|i: int| 0 <= i < old(solvers)@.len() ==> #[trigger] final(solvers)@[i] == old(solvers)@[i],
{
    while solvers.len() < count
        invariant
            old(solvers)@.len() <= solvers@.len(),
            solvers@.len() <= count || solvers@.len() == old(solvers)@.len(),
            forall|i: int| 0 <= i < old(solvers)@.len() ==> #[trigger] solvers@[i] == old(solvers)@[i],
        decreases count - solvers@.len(),
    {
        solvers.push(IslandSolver::new());
    }
}

/// Makes the active bodies ready for a solve: each has its centre of mass
/// placed in the world and its weight under `gravity` added to its force.
pub fn ready_active_bodies(bodies: &mut RigidBodySet, gravity: &Vector)
    ensures
        readies(*final(bodies), *old(bodies), *gravity),
{
    let n: usize = bodies.slots.len();
    let mut i: usize = 0;
    while i < n
        invariant
            i <= n,
            n == bodies.slots@.len(),
            n == old(bodies).slots@.len(),
            bodies.same_sets(*old(bodies)),
            forall|k: int| 0 <= k < i ==> #[trigger] bodies.slots@[k] == old(bodies).readied_slot(*gravity, k),
            forall|k: int| i <= k < n ==> bodies.slots@[k] == old(bodies).slots@[k],
        decreases n - i,
    {
        match bodies.slots[i] {
            Some(body) => {
                if body.placement.is_some() {
                    let mut b = body;
                    b.update_world_mass_properties();
                    b.add_gravity(*gravity);
                    bodies.slots.set(i, Some(b));
                }
            },
            None => {},
        }
        i = i + 1;
    }
}

/// Hands each of the first `count` islands to the solver of its number.
pub fn load_islands(
    solvers: &mut Vec<IslandSolver>,
    count: usize,
    bodies: &RigidBodySet,
    manifolds: &Vec<ContactManifold>,
    manifold_indices: &Vec<Vec<usize>>,
    joint_indices: &Vec<Vec<usize>>,
)
    requires
        bodies.islands_wf(),
        count == bodies.island_count(),
        count <= old(solvers)@.len(),
        count <= manifold_indices@.len(),
        count <= joint_indices@.len(),
        forall|i: int, c: int|
            0 <= i < count && 0 <= c < manifold_indices@[i]@.len() ==> #[trigger] manifold_indices@[i]@[c]
                < manifolds@.len(),
    ensures
        final(solvers)@.len() == old(solvers)@.len(),
        forall|i: int|
            0 <= i < count ==> {
                &&& (#[trigger] final(solvers)@[i]).bodies@ == bodies.island_bodies(i)
                &&& final(solvers)@[i].contacts@ == bodies.island_contacts(i, manifolds@, manifold_indices@[i]@)
                &&& final(solvers)@[i].joints@ == joint_indices@[i]@
            },
        forall|i: int| count <= i < old(solvers)@.len() ==> #[trigger] final(solvers)@[i] == old(solvers)@[i],
{
    let mut i: usize = 0;
    while i < count
        invariant
            i <= count,
            bodies.islands_wf(),
            count == bodies.island_count(),
            count <= solvers@.len(),
            solvers@.len() == old(solvers)@.len(),
            count <= manifold_indices@.len(),
            count <= joint_indices@.len(),
            forall|k: int, c: int|
                0 <= k < count && 0 <= c < manifold_indices@[k]@.len() ==> #[trigger] manifold_indices@[k]@[c]
                    < manifolds@.len(),
            forall|k: int|
                0 <= k < i ==> {
                    &&& (#[trigger] solvers@[k]).bodies@ == bodies.island_bodies(k)
                    &&& solvers@[k].contacts@ == bodies.island_contacts(k, manifolds@, manifold_indices@[k]@)
                    &&& solvers@[k].joints@ == joint_indices@[k]@
                },
            forall|k: int| i <= k < solvers@.len() ==> #[trigger] solvers@[k] == old(solvers)@[k],
        decreases count - i,
    {
        assert forall|c: int| 0 <= c < manifold_indices@[i as int]@.len() implies manifold_indices@[i as int]@[c]
            < manifolds@.len() by {
            assert(manifold_indices@[i as int]@[c] < manifolds@.len());
        }
        solvers[i].load(i, bodies, manifolds, &manifold_indices[i], &joint_indices[i]);
        i = i + 1;
    }
}

/// Takes in what the broad phase reported: pairs of which a collider is gone
/// are dropped if `user_changes` is set, then pairs that have come near are
/// added and pairs that are near no longer are dropped.
pub fn take_in_changes(
    narrow_phase: &mut NarrowPhase,
    colliders: &ColliderSet,
    changes: &Vec<BroadPhasePairEvent>,
    events: &mut Vec<PhysicsEvent>,
    user_changes: bool,
)
    ensures
        final(narrow_phase).pairs@ == registered(
            pruned(old(narrow_phase).pairs@, *colliders, user_changes),
            *colliders,
            changes@,
        ),
        final(events)@ == old(events)@ + ((if user_changes {
            farewells(old(narrow_phase).pairs@, Removal::Orphans, *colliders)
        } else {
            Seq::empty()
        }) + registration_news(
            pruned(old(narrow_phase).pairs@, *colliders, user_changes),
            *colliders,
            changes@,
        )),
{
    let ghost news0 = if user_changes {
        farewells(old(narrow_phase).pairs@, Removal::Orphans, *colliders)
    } else {
        Seq::<PhysicsEvent>::empty()
    };
    if user_changes {
        narrow_phase.handle_user_changes(colliders, events);
    } else {
        assert(events@ =~= old(events)@ + news0);
    }
    let ghost start = narrow_phase.pairs@;
    narrow_phase.register_pairs(colliders, changes, events);
    assert(events@ =~= old(events)@ + (news0 + registration_news(start, *colliders, changes@)));
}

/// Computes anew the contacts and the overlaps of every pair.
pub fn compute_interactions<H: PhysicsHooks>(
    narrow_phase: &mut NarrowPhase,
    prediction_distance: u64,
    bodies: &RigidBodySet,
    colliders: &ColliderSet,
    hooks: &H,
    events: &mut Vec<PhysicsEvent>,
)
    ensures
        final(narrow_phase).pairs@ == Seq::new(
            old(narrow_phase).pairs@.len(),
            |k: int|
                with_overlap(
                    with_contact(old(narrow_phase).pairs@[k], *colliders, *bodies, prediction_distance, *hooks),
                    *colliders,
                    *hooks,
                ),
        ),
        final(events)@ == old(events)@ + (all_contact_news(
            old(narrow_phase).pairs@,
            *colliders,
            *bodies,
            prediction_distance,
            *hooks,
        ) + all_overlap_news(
            Seq::new(
                old(narrow_phase).pairs@.len(),
                |k: int| with_contact(old(narrow_phase).pairs@[k], *colliders, *bodies, prediction_distance, *hooks),
            ),
            *colliders,
            *hooks,
        )),
{
    let ghost taken_in = narrow_phase.pairs@;
    narrow_phase.compute_contacts(prediction_distance, bodies, colliders, hooks, events);
    let ghost touched = narrow_phase.pairs@;
    let ghost news2 = all_contact_news(taken_in, *colliders, *bodies, prediction_distance, *hooks);
    assert(touched =~= Seq::new(
        taken_in.len(),
        |k: int| with_contact(taken_in[k], *colliders, *bodies, prediction_distance, *hooks),
    ));
    narrow_phase.compute_intersections(colliders, hooks, events);
    assert(events@ =~= old(events)@ + (news2 + all_overlap_news(touched, *colliders, *hooks)));
    assert(narrow_phase.pairs@ =~= Seq::new(
        taken_in.len(),
        |k: int|
            with_overlap(
                with_contact(taken_in[k], *colliders, *bodies, prediction_distance, *hooks),
                *colliders,
                *hooks,
            ),
    ));
}

/// Brings the narrow phase up to date with what the broad phase reported:
/// pairs of which a collider is gone are dropped if `user_changes` is set,
/// the changes are taken in, and contacts and overlaps are computed anew.
pub fn refresh_narrow_phase<H: PhysicsHooks>(
    narrow_phase: &mut NarrowPhase,
    prediction_distance: u64,
    bodies: &RigidBodySet,
    colliders: &ColliderSet,
    hooks: &H,
    changes: &Vec<BroadPhasePairEvent>,
    events: &mut Vec<PhysicsEvent>,
    user_changes: bool,
)
    ensures
        final(narrow_phase).pairs@ == detected(
            old(narrow_phase).pairs@,
            *colliders,
            *bodies,
            prediction_distance,
            *hooks,
            changes@,
            user_changes,
        ),
        final(events)@ == old(events)@ + detection_news(
            old(narrow_phase).pairs@,
            *colliders,
            *bodies,
            prediction_distance,
            *hooks,
            changes@,
            user_changes,
        ),
{
    reveal(detected);
    reveal(detection_news);
    take_in_changes(narrow_phase, colliders, changes, events, user_changes);
    compute_interactions(narrow_phase, prediction_distance, bodies, colliders, hooks, events);
    assert(events@ =~= old(events)@ + detection_news(
        old(narrow_phase).pairs@,
        *colliders,
        *bodies,
        prediction_distance,
        *hooks,
        changes@,
        user_changes,
    ));
}

impl PhysicsPipeline {
    /// The solvers of the pipeline, one for each island that a step has had
    /// to solve so far.
    pub open spec fn solver_slots(self) -> Seq<IslandSolver> {
        self.solvers@
    }

    /// For each island, the indices of its contacts among those that took
    /// part in the last solve.
    pub open spec fn manifold_lists(self) -> Seq<Vec<usize>> {
        self.manifold_indices@
    }

    /// For each island, the slots of its joints at the last solve.
    pub open spec fn joint_lists(self) -> Seq<Vec<usize>> {
        self.joint_constraint_indices@
    }

    /// What the broad phase reported at the last detection pass.
    pub open spec fn pair_events(self) -> Seq<BroadPhasePairEvent> {
        self.broad_phase_events@
    }

    /// How the pipeline has its islands solved.
    pub open spec fn dispatch(self) -> DispatchStrategy {
        self.strategy
    }

    /// Whether the two pipelines agree on everything but their counters and
    /// what the broad phase last reported.
    pub open spec fn same_workspace(self, other: PhysicsPipeline) -> bool {
        &&& self.solvers@ == other.solvers@
        &&& self.manifold_indices@ == other.manifold_indices@
        &&& self.joint_constraint_indices@ == other.joint_constraint_indices@
        &&& self.strategy == other.strategy
    }

    /// Initializes a new physics pipeline. Its islands are solved one after
    /// the other.
    pub fn new() -> (pipeline: PhysicsPipeline)
        ensures
            pipeline.counters.enabled == false,
            !pipeline.counters.completed,
            pipeline.counters.at_rest(),
            pipeline.counters.zeroed(),
            pipeline.counters.substeps().len() == 0,
            pipeline.solver_slots().len() == 0,
            pipeline.manifold_lists().len() == 0,
            pipeline.joint_lists().len() == 0,
            pipeline.pair_events().len() == 0,
            pipeline.dispatch() == DispatchStrategy::Sequential,
    {
        PhysicsPipeline {
            counters: Counters::new(false),
            solvers: Vec::new(),
            manifold_indices: Vec::new(),
            joint_constraint_indices: Vec::new(),
            broad_phase_events: Vec::new(),
            strategy: DispatchStrategy::Sequential,
        }
    }

    /// Initializes a new physics pipeline that has its islands solved the
    /// given way.
    pub fn with_strategy(strategy: DispatchStrategy) -> (pipeline: PhysicsPipeline)
        ensures
            pipeline.counters.enabled == false,
            !pipeline.counters.completed,
            pipeline.counters.at_rest(),
            pipeline.counters.zeroed(),
            pipeline.counters.substeps().len() == 0,
            pipeline.solver_slots().len() == 0,
            pipeline.manifold_lists().len() == 0,
            pipeline.joint_lists().len() == 0,
            pipeline.pair_events().len() == 0,
            pipeline.dispatch() == strategy,
    {
        PhysicsPipeline {
            counters: Counters::new(false),
            solvers: Vec::new(),
            manifold_indices: Vec::new(),
            joint_constraint_indices: Vec::new(),
            broad_phase_events: Vec::new(),
            strategy,
        }
    }

    /// How the pipeline has its islands solved.
    pub fn strategy(&self) -> (strategy: DispatchStrategy)
        ensures
            strategy == self.dispatch(),
    {
        self.strategy
    }

    /// Number of solvers that the pipeline holds: the largest number of
    /// islands that a step has had to solve so far.
    pub fn num_solvers(&self) -> (n: usize)
        ensures
            n == self.solver_slots().len(),
    {
        self.solvers.len()
    }

    /// One pass of collision detection: the broad phase finds the pairs that
    /// are near, the narrow phase takes in what changed, and contacts and
    /// overlaps are computed anew.
    fn detect_collisions<H: PhysicsHooks>(
        &mut self,
        integration_parameters: &IntegrationParameters,
        broad_phase: &mut BroadPhase,
        narrow_phase: &mut NarrowPhase,
        bodies: &RigidBodySet,
        colliders: &mut ColliderSet,
        hooks: &H,
        events: &mut Vec<PhysicsEvent>,
        user_changes: bool,
    )
        ensures
            lists_near_pairs(
                final(broad_phase).pairs@,
                *old(colliders),
                integration_parameters.prediction_distance,
            ),
            reports_changes(
                final(self).pair_events(),
                old(broad_phase).pairs@,
                *old(colliders),
                integration_parameters.prediction_distance,
            ),
            final(narrow_phase).pairs@ == detected(
                old(narrow_phase).pairs@,
                *old(colliders),
                *bodies,
                integration_parameters.prediction_distance,
                *hooks,
                final(self).pair_events(),
                user_changes,
            ),
            final(events)@ == old(events)@ + detection_news(
                old(narrow_phase).pairs@,
                *old(colliders),
                *bodies,
                integration_parameters.prediction_distance,
                *hooks,
                final(self).pair_events(),
                user_changes,
            ),
            final(colliders).slots@ == old(colliders).slots@,
            final(colliders).modified_colliders@.len() == 0,
            final(self).same_workspace(*old(self)),
            final(self).counters.progress() == old(self).counters.progress(),
            old(self).counters.stages_at_rest() ==> final(self).counters.stages_at_rest(),
    {
        self.counters.stages.collision_detection_time.resume();
        self.counters.cd.broad_phase_time.resume();

        // Update broad-phase.
        self.broad_phase_events.clear();
        broad_phase.update(
            integration_parameters.prediction_distance,
            colliders,
            &mut self.broad_phase_events,
        );
        assert(self.broad_phase_events@.subrange(0, self.broad_phase_events@.len() as int)
            =~= self.broad_phase_events@);

        self.counters.cd.broad_phase_time.pause();
        self.counters.cd.narrow_phase_time.resume();

        // Update narrow-phase.
        refresh_narrow_phase(
            narrow_phase,
            integration_parameters.prediction_distance,
            bodies,
            colliders,
            hooks,
            &self.broad_phase_events,
            events,
            user_changes,
        );

        // Clear colliders modification flags.
        colliders.clear_modified_colliders();

        self.counters.cd.narrow_phase_time.pause();
        self.counters.stages.collision_detection_time.pause();
    }

    /// Detects the collisions at the start of a step, once the stores have
    /// taken in what the user changed: pairs of which a collider has been
    /// removed are dropped first.
    pub fn detect_collisions_after_user_modifications<H: PhysicsHooks>(
        &mut self,
        integration_parameters: &IntegrationParameters,
        broad_phase: &mut BroadPhase,
        narrow_phase: &mut NarrowPhase,
        bodies: &RigidBodySet,
        colliders: &mut ColliderSet,
        hooks: &H,
        events: &mut Vec<PhysicsEvent>,
    )
        ensures
            lists_near_pairs(
                final(broad_phase).pairs@,
                *old(colliders),
                integration_parameters.prediction_distance,
            ),
            reports_changes(
                final(self).pair_events(),
                old(broad_phase).pairs@,
                *old(colliders),
                integration_parameters.prediction_distance,
            ),
            final(narrow_phase).pairs@ == detected(
                old(narrow_phase).pairs@,
                *old(colliders),
                *bodies,
                integration_parameters.prediction_distance,
                *hooks,
                final(self).pair_events(),
                true,
            ),
            final(events)@ == old(events)@ + detection_news(
                old(narrow_phase).pairs@,
                *old(colliders),
                *bodies,
                integration_parameters.prediction_distance,
                *hooks,
                final(self).pair_events(),
                true,
            ),
            covers(old(narrow_phase).pairs@, old(broad_phase).pairs@) ==> covers(
                final(narrow_phase).pairs@,
                final(broad_phase).pairs@,
            ),
            final(colliders).slots@ == old(colliders).slots@,
            final(colliders).modified_colliders@.len() == 0,
            final(self).same_workspace(*old(self)),
            final(self).counters.progress() == old(self).counters.progress(),
            old(self).counters.stages_at_rest() ==> final(self).counters.stages_at_rest(),
    {
        self.detect_collisions(
            integration_parameters,
            broad_phase,
            narrow_phase,
            bodies,
            colliders,
            hooks,
            events,
            true,
        );
        proof {
            if covers(old(narrow_phase).pairs@, old(broad_phase).pairs@) {
                lemma_detection_covers(
                    old(narrow_phase).pairs@,
                    old(broad_phase).pairs@,
                    broad_phase.pairs@,
                    *old(colliders),
                    *bodies,
                    integration_parameters.prediction_distance,
                    *hooks,
                    self.pair_events(),
                    true,
                );
            }
        }
    }

    /// Detects the collisions at the end of a substep, at the positions that
    /// were just committed. What the user removed has been taken in at the
    /// start of the step, so no pair is dropped for want of a collider.
    pub fn detect_collisions_after_integration<H: PhysicsHooks>(
        &mut self,
        integration_parameters: &IntegrationParameters,
        broad_phase: &mut BroadPhase,
        narrow_phase: &mut NarrowPhase,
        bodies: &RigidBodySet,
        colliders: &mut ColliderSet,
        hooks: &H,
        events: &mut Vec<PhysicsEvent>,
    )
        ensures
            lists_near_pairs(
                final(broad_phase).pairs@,
                *old(colliders),
                integration_parameters.prediction_distance,
            ),
            reports_changes(
                final(self).pair_events(),
                old(broad_phase).pairs@,
                *old(colliders),
                integration_parameters.prediction_distance,
            ),
            final(narrow_phase).pairs@ == detected(
                old(narrow_phase).pairs@,
                *old(colliders),
                *bodies,
                integration_parameters.prediction_distance,
                *hooks,
                final(self).pair_events(),
                false,
            ),
            final(events)@ == old(events)@ + detection_news(
                old(narrow_phase).pairs@,
                *old(colliders),
                *bodies,
                integration_parameters.prediction_distance,
                *hooks,
                final(self).pair_events(),
                false,
            ),
            covers(old(narrow_phase).pairs@, old(broad_phase).pairs@) ==> covers(
                final(narrow_phase).pairs@,
                final(broad_phase).pairs@,
            ),
            final(colliders).slots@ == old(colliders).slots@,
            final(colliders).modified_colliders@.len() == 0,
            final(self).same_workspace(*old(self)),
            final(self).counters.progress() == old(self).counters.progress(),
            old(self).counters.stages_at_rest() ==> final(self).counters.stages_at_rest(),
    {
        self.detect_collisions(
            integration_parameters,
            broad_phase,
            narrow_phase,
            bodies,
            colliders,
            hooks,
            events,
            false,
        );
        proof {
            if covers(old(narrow_phase).pairs@, old(broad_phase).pairs@) {
                lemma_detection_covers(
                    old(narrow_phase).pairs@,
                    old(broad_phase).pairs@,
                    broad_phase.pairs@,
                    *old(colliders),
                    *bodies,
                    integration_parameters.prediction_distance,
                    *hooks,
                    self.pair_events(),
                    false,
                );
            }
        }
    }

    /// Builds the islands of the world and solves each of them for the
    /// substep. The dynamic bodies that are to move are laid out in islands
    /// over the graph of contacts and joints; the lists of contacts and of
    /// joints and the solvers grow to the number of islands; every active
    /// body is made ready, with gravity added to its force; then each island
    /// is handed to the solver of its number, the islands are solved the way
    /// the pipeline was told to, and the bodies and the impulses are taken
    /// back.
    pub fn build_islands_and_solve_constraints(
        &mut self,
        gravity: &Vector,
        integration_parameters: &IntegrationParameters,
        narrow_phase: &mut NarrowPhase,
        bodies: &mut RigidBodySet,
        joints: &JointSet,
    )
        ensures
            exists|mid: RigidBodySet, ready: RigidBodySet| #[trigger]
                solved_through(
                    *old(bodies),
                    mid,
                    ready,
                    *final(bodies),
                    old(narrow_phase).pairs@,
                    final(narrow_phase).pairs@,
                    joints.slots@,
                    final(self).solver_slots(),
                    final(self).manifold_lists(),
                    final(self).joint_lists(),
                    *gravity,
                    *integration_parameters,
                ),
            final(bodies).islands_wf(),
            final(self).solver_slots().len() >= old(self).solver_slots().len(),
            final(self).solver_slots().len() >= final(bodies).island_count(),
            final(self).solver_slots().len() == old(self).solver_slots().len() || final(self).solver_slots().len() == final(bodies).island_count(),
            forall|i: int|
                final(bodies).island_count() <= i < old(self).solver_slots().len() ==> holds_same(
                    old(self).solver_slots()[i],
                    #[trigger] final(self).solver_slots()[i],
                ),
            final(self).manifold_lists().len() >= old(self).manifold_lists().len(),
            final(self).manifold_lists().len() >= final(bodies).island_count(),
            final(self).manifold_lists().len() == old(self).manifold_lists().len() || final(self).manifold_lists().len() == final(bodies).island_count(),
            final(self).joint_lists().len() >= old(self).joint_lists().len(),
            final(self).joint_lists().len() >= final(bodies).island_count(),
            final(self).joint_lists().len() == old(self).joint_lists().len() || final(self).joint_lists().len() == final(bodies).island_count(),
            final(bodies).island_count() >= 1,
            final(bodies).modified_inactive_set@ == old(bodies).modified_inactive_set@,
            final(narrow_phase).pairs@.len() == old(narrow_phase).pairs@.len(),
            final(self).pair_events() == old(self).pair_events(),
            final(self).dispatch() == old(self).dispatch(),
            final(self).counters.progress() == old(self).counters.progress(),
            old(self).counters.stages_at_rest() ==> final(self).counters.stages_at_rest(),
    {
        self.counters.stages.island_construction_time.resume();
        bodies.update_active_set_with_contacts(
            narrow_phase,
            joints.joint_graph(),
            integration_parameters.min_island_size,
        );
        self.counters.stages.island_construction_time.pause();
        let ghost mid = *bodies;
        let count: usize = bodies.num_islands();

        grow_lists(&mut self.manifold_indices, count);
        grow_lists(&mut self.joint_constraint_indices, count);

        self.counters.stages.update_time.resume();
        ready_active_bodies(bodies, gravity);
        self.counters.stages.update_time.pause();
        let ghost ready = *bodies;
        proof {
            assert forall|i: int| 0 <= i < mid.slots@.len() implies same_place(
                mid.slots@[i],
                #[trigger] ready.slots@[i],
            ) by {
                assert(ready.slots@[i] == mid.readied_slot(*gravity, i));
            }
            lemma_islands_wf_kept(mid, ready);
        }

        let mut manifolds: Vec<ContactManifold> = Vec::new();
        narrow_phase.select_active_contacts(bodies, &mut manifolds, &mut self.manifold_indices);
        joints.select_active_interactions(bodies, &mut self.joint_constraint_indices);

        self.counters.stages.solver_time.resume();
        grow_solvers(&mut self.solvers, count);
        proof {
            let n = manifolds.len();
            assert forall|i: int, c: int|
                0 <= i < count && 0 <= c < self.manifold_indices@[i]@.len() implies #[trigger] self.manifold_indices@[i]@[c]
                < manifolds@.len() by {
                lemma_island_indices(manifolds@, ready, i);
                assert(self.manifold_indices@[i]@ == island_indices(manifolds@, ready, i));
            }
        }
        load_islands(
            &mut self.solvers,
            count,
            bodies,
            &manifolds,
            &self.manifold_indices,
            &self.joint_constraint_indices,
        );
        let ghost loaded = self.solvers@;
        solve_islands(&mut self.solvers, count, integration_parameters.dt, self.strategy);
        proof {
            assert forall|i: int| 0 <= i < ready.island_count() implies island_solved(
                #[trigger] self.solvers@[i],
                ready,
                old(narrow_phase).pairs@,
                joints.slots@,
                i,
                integration_parameters.dt,
            ) by {
                assert(crate::dynamics::island_dispatcher::solves(
                    loaded[i],
                    self.solvers@[i],
                    integration_parameters.dt,
                ));
                assert(loaded[i].bodies@ == ready.island_bodies(i));
                assert(self.manifold_indices@[i]@ == island_indices(manifolds@, ready, i));
                assert(self.joint_constraint_indices@[i]@ == island_joints(joints.slots@, ready, i));
            }
        }
        narrow_phase.store_impulses(bodies, &self.solvers);
        bodies.store_solved(&self.solvers);
        self.counters.stages.solver_time.pause();
        proof {
            lemma_store_keeps_places(
                ready,
                *bodies,
                old(narrow_phase).pairs@,
                joints.slots@,
                self.solvers@,
                integration_parameters.dt,
            );
            lemma_islands_wf_kept(ready, *bodies);
            reveal(solved_through);
            assert(solved_through(
                *old(bodies),
                mid,
                ready,
                *bodies,
                old(narrow_phase).pairs@,
                narrow_phase.pairs@,
                joints.slots@,
                self.solver_slots(),
                self.manifold_lists(),
                self.joint_lists(),
                *gravity,
                *integration_parameters,
            ));
        }
    }

    /// The part of a substep that moves the bodies: kinematic velocities,
    /// islands and solve, motion clamping if `clamp` is set, and commit.
    fn move_bodies(
        &mut self,
        gravity: &Vector,
        integration_parameters: &IntegrationParameters,
        narrow_phase: &mut NarrowPhase,
        bodies: &mut RigidBodySet,
        colliders: &mut ColliderSet,
        joints: &JointSet,
        ccd_solver: &mut CCDSolver,
        clamp: bool,
    )
        requires
            watch_is_sound(*old(bodies)),
        ensures
            final(bodies).slots@.len() == old(bodies).slots@.len(),
            forall|i: int|
                0 <= i < old(bodies).slots@.len() ==> #[trigger] substep_frame(*old(bodies), *final(bodies), i),
            final(bodies).islands_wf(),
            final(bodies).modified_inactive_set@ == old(bodies).modified_inactive_set@,
            moved_through(
                *old(bodies),
                *final(bodies),
                *old(colliders),
                old(narrow_phase).pairs@,
                final(narrow_phase).pairs@,
                joints.slots@,
                *gravity,
                *integration_parameters,
                clamp,
            ),
            final(ccd_solver).queries == if clamp {
                counted(old(ccd_solver).queries)
            } else {
                old(ccd_solver).queries
            },
            final(colliders).slots@ == old(colliders).carried_by_moving(*final(bodies)),
            final(colliders).modified_colliders@ == old(colliders).modified_colliders@,
            final(narrow_phase).pairs@.len() == old(narrow_phase).pairs@.len(),
            final(self).solver_slots().len() >= old(self).solver_slots().len(),
            final(self).solver_slots().len() >= final(bodies).island_count(),
            final(self).manifold_lists().len() >= old(self).manifold_lists().len(),
            final(self).manifold_lists().len() >= final(bodies).island_count(),
            final(self).joint_lists().len() >= old(self).joint_lists().len(),
            final(self).joint_lists().len() >= final(bodies).island_count(),
            final(self).pair_events() == old(self).pair_events(),
            final(self).dispatch() == old(self).dispatch(),
            final(self).counters.progress() == old(self).counters.progress(),
            old(self).counters.stages_at_rest() ==> final(self).counters.stages_at_rest(),
    {
        let ghost b0 = *bodies;
        self.interpolate_kinematic_velocities(integration_parameters, bodies);
        let ghost b1 = *bodies;
        let ghost entries1 = narrow_phase.pairs@;
        self.build_islands_and_solve_constraints(gravity, integration_parameters, narrow_phase, bodies, joints);
        let ghost b2 = *bodies;
        let ghost mut mid = b1;
        let ghost mut ready = b1;
        proof {
            let (built, readied) = choose|mid: RigidBodySet, ready: RigidBodySet| #[trigger]
                solved_through(
                    b1,
                    mid,
                    ready,
                    b2,
                    entries1,
                    narrow_phase.pairs@,
                    joints.slots@,
                    self.solver_slots(),
                    self.manifold_lists(),
                    self.joint_lists(),
                    *gravity,
                    *integration_parameters,
                );
            mid = built;
            ready = readied;
            lemma_solve_frames(
                b1,
                mid,
                ready,
                b2,
                entries1,
                narrow_phase.pairs@,
                joints.slots@,
                self.solver_slots(),
                self.manifold_lists(),
                self.joint_lists(),
                *gravity,
                *integration_parameters,
            );
        }

        // If CCD is enabled, execute the CCD motion clamping.
        let ghost mut impacts: Seq<Impact> = Seq::empty();
        if clamp {
            self.counters.stages.ccd_time.resume();
            self.run_ccd_motion_clamping(integration_parameters, bodies, colliders, ccd_solver);
            self.counters.stages.ccd_time.pause();
            proof {
                impacts = choose|impacts: Seq<Impact>|
                    #![trigger predicted(b2, *colliders, integration_parameters.dt, impacts, b2.slots@.len() as int)]
                    {
                        &&& predicted(b2, *colliders, integration_parameters.dt, impacts, b2.slots@.len() as int)
                        &&& bodies.slots@ == clamped(b2.slots@, impacts)
                    };
                lemma_clamped_len(b2.slots@, impacts);
            }
        }
        let ghost b3 = *bodies;
        let ghost colliders3 = *colliders;

        self.advance_to_final_positions(bodies, colliders);

        proof {
            lemma_moved(b0, b1, b2, b3, *bodies, colliders3, integration_parameters.dt, clamp, impacts);
            reveal(moved_through);
            assert(moved_chain(
                b0,
                b1,
                mid,
                ready,
                b2,
                b3,
                *bodies,
                *old(colliders),
                entries1,
                narrow_phase.pairs@,
                joints.slots@,
                self.solver_slots(),
                self.manifold_lists(),
                self.joint_lists(),
                impacts,
                *gravity,
                *integration_parameters,
                clamp,
            ));
        }
    }

    /// One substep: the bodies are moved, then collisions are detected at
    /// their new positions.
    fn substep<H: PhysicsHooks>(
        &mut self,
        gravity: &Vector,
        integration_parameters: &IntegrationParameters,
        broad_phase: &mut BroadPhase,
        narrow_phase: &mut NarrowPhase,
        bodies: &mut RigidBodySet,
        colliders: &mut ColliderSet,
        joints: &JointSet,
        ccd_solver: &mut CCDSolver,
        hooks: &H,
        events: &mut Vec<PhysicsEvent>,
        clamp: bool,
    )
        requires
            watch_is_sound(*old(bodies)),
        ensures
            final(bodies).slots@.len() == old(bodies).slots@.len(),
            forall|i: int|
                0 <= i < old(bodies).slots@.len() ==> #[trigger] substep_frame(*old(bodies), *final(bodies), i),
            final(bodies).islands_wf(),
            final(bodies).modified_inactive_set@.len() == 0,
            follows(
                world(*old(bodies), *old(colliders), *old(broad_phase), *old(narrow_phase), old(events)@),
                world(*final(bodies), *final(colliders), *final(broad_phase), *final(narrow_phase), final(events)@),
                joints.slots@,
                *gravity,
                *integration_parameters,
                clamp,
                *hooks,
            ),
            final(ccd_solver).queries == if clamp {
                counted(old(ccd_solver).queries)
            } else {
                old(ccd_solver).queries
            },
            final(colliders).slots@ == old(colliders).carried_by_moving(*final(bodies)),
            final(colliders).modified_colliders@.len() == 0,
            lists_near_pairs(
                final(broad_phase).pairs@,
                *final(colliders),
                integration_parameters.prediction_distance,
            ),
            forall|k: int|
                0 <= k < final(narrow_phase).pairs@.len() ==> up_to_date(
                    #[trigger] final(narrow_phase).pairs@[k],
                    *final(colliders),
                    *final(bodies),
                    integration_parameters.prediction_distance,
                    *hooks,
                ),
            final(events)@.len() >= old(events)@.len(),
            final(events)@.subrange(0, old(events)@.len() as int) == old(events)@,
            final(self).solver_slots().len() >= old(self).solver_slots().len(),
            final(self).solver_slots().len() >= final(bodies).island_count(),
            final(self).manifold_lists().len() >= old(self).manifold_lists().len(),
            final(self).manifold_lists().len() >= final(bodies).island_count(),
            final(self).joint_lists().len() >= old(self).joint_lists().len(),
            final(self).joint_lists().len() >= final(bodies).island_count(),
            final(self).dispatch() == old(self).dispatch(),
            final(self).counters.progress() == old(self).counters.progress(),
            old(self).counters.stages_at_rest() ==> final(self).counters.stages_at_rest(),
    {
        self.move_bodies(gravity, integration_parameters, narrow_phase, bodies, colliders, joints, ccd_solver, clamp);
        let ghost b4 = *bodies;
        let ghost colliders4 = *colliders;
        let ghost entries4 = narrow_phase.pairs@;
        self.detect_collisions_after_integration(
            integration_parameters,
            broad_phase,
            narrow_phase,
            bodies,
            colliders,
            hooks,
            events,
        );
        bodies.clear_modified_inactive_set();

        proof {
            assert forall|i: int| 0 <= i < b4.slots@.len() implies same_place(
                b4.slots@[i],
                #[trigger] bodies.slots@[i],
            ) by {}
            lemma_islands_wf_kept(b4, *bodies);
            assert forall|i: int| 0 <= i < old(bodies).slots@.len() implies #[trigger] substep_frame(
                *old(bodies),
                *bodies,
                i,
            ) by {
                assert(substep_frame(*old(bodies), b4, i));
            }
            assert(colliders.slots@ =~= old(colliders).carried_by_moving(*bodies));
            lemma_near_reads_slots(broad_phase.pairs@, colliders4, *colliders, integration_parameters.prediction_distance);
            assert forall|k: int| 0 <= k < narrow_phase.pairs@.len() implies up_to_date(
                #[trigger] narrow_phase.pairs@[k],
                *colliders,
                *bodies,
                integration_parameters.prediction_distance,
                *hooks,
            ) by {
                lemma_detected_up_to_date(
                    entries4,
                    colliders4,
                    b4,
                    integration_parameters.prediction_distance,
                    *hooks,
                    self.pair_events(),
                    false,
                    k,
                );
                lemma_detection_reads_slots(
                    narrow_phase.pairs@[k],
                    colliders4,
                    *colliders,
                    b4,
                    *bodies,
                    integration_parameters.prediction_distance,
                    *hooks,
                );
            }
            lemma_follows(
                world(*old(bodies), *old(colliders), *old(broad_phase), *old(narrow_phase), old(events)@),
                b4,
                colliders4,
                world(*bodies, *colliders, *broad_phase, *narrow_phase, events@),
                entries4,
                self.pair_events(),
                joints.slots@,
                *gravity,
                *integration_parameters,
                clamp,
                *hooks,
            );
            lemma_news_extend(
                old(events)@,
                detection_news(
                    entries4,
                    colliders4,
                    b4,
                    integration_parameters.prediction_distance,
                    *hooks,
                    self.pair_events(),
                    false,
                ),
            );
        }
    }

    /// Executes one timestep of the physics simulation.
    ///
    /// The stores first take in what the user changed since the last step,
    /// and collisions are detected where the bodies are. Then the step is
    /// advanced: in one substep, or, if a body is fast enough to need
    /// continuous collision detection and more than one substep is allowed,
    /// in several that add up to the duration of the step. Each substep gives
    /// the kinematic bodies their velocities, builds and solves the islands,
    /// holds back the bodies that would run into something, commits the new
    /// positions and detects the collisions there. What the step notices is
    /// appended to `events`.
    ///
    /// The worlds that the step goes through make a run: the world in which
    /// the first substep starts, then the world after each substep, the last
    /// of them the world that the step leaves. The lengths of the substeps
    /// are those planned on what the searches for the earliest impact
    /// answered, one search before each substep that may be cut short; the
    /// solver of continuous collision detection counts these searches and
    /// one prediction of impacts in each substep of a step that watches a
    /// body.
    pub fn step<H: PhysicsHooks>(
        &mut self,
        gravity: &Vector,
        integration_parameters: &IntegrationParameters,
        broad_phase: &mut BroadPhase,
        narrow_phase: &mut NarrowPhase,
        bodies: &mut RigidBodySet,
        colliders: &mut ColliderSet,
        joints: &mut JointSet,
        ccd_solver: &mut CCDSolver,
        hooks: &H,
        events: &mut Vec<PhysicsEvent>,
    )
        ensures
            final(self).counters.progress() == (
                old(self).counters.enabled,
                false,
                true,
                final(self).counters.substeps(),
            ),
            final(self).counters.at_rest(),
            total(final(self).counters.substeps()) == integration_parameters.dt,
            1 <= final(self).counters.substeps().len() <= larger(
                integration_parameters.max_ccd_substeps as int,
                1,
            ),
            (integration_parameters.max_ccd_substeps <= 1 || forall|i: int|
                !#[trigger] watched_at(*old(bodies), integration_parameters.dt, i)) ==> final(self).counters.substeps() =~= seq![integration_parameters.dt],
            exists|run: Seq<Moment>, answers: Seq<Option<u64>>|
                {
                    &&& #[trigger] runs(
                        world(*old(bodies), *old(colliders), *old(broad_phase), *old(narrow_phase), old(events)@),
                        run,
                        answers,
                        any_watched(*old(bodies), integration_parameters.dt),
                        old(joints).slots@,
                        *gravity,
                        *integration_parameters,
                        *hooks,
                    )
                    &&& whole_step(
                        first_budget(*integration_parameters),
                        any_watched(*old(bodies), integration_parameters.dt),
                        answers,
                        integration_parameters.min_ccd_dt,
                    )
                    &&& final(self).counters.substeps() == lengths_of(
                        first_budget(*integration_parameters),
                        any_watched(*old(bodies), integration_parameters.dt),
                        answers,
                        integration_parameters.min_ccd_dt,
                    )
                    &&& run.len() == answers.len() + 1
                    &&& run.last() == world(
                        *final(bodies),
                        *final(colliders),
                        *final(broad_phase),
                        *final(narrow_phase),
                        final(events)@,
                    )
                },
            final(ccd_solver).queries == queries_after(
                old(ccd_solver).queries,
                queries_made(
                    any_watched(*old(bodies), integration_parameters.dt),
                    integration_parameters.max_ccd_substeps,
                    final(self).counters.substeps().len(),
                ),
            ),
            final(bodies).slots@.len() == old(bodies).slots@.len(),
            forall|i: int|
                0 <= i < old(bodies).slots@.len() ==> #[trigger] step_frame(
                    *old(bodies),
                    *final(bodies),
                    integration_parameters.dt,
                    i,
                    true,
                ),
            final(bodies).islands_wf(),
            final(bodies).modified_inactive_set@.len() == 0,
            final(colliders).slots@.len() == old(colliders).slots@.len(),
            forall|c: int|
                0 <= c < old(colliders).slots@.len() ==> #[trigger] final(colliders).slots@[c] == synced_collider(
                    *old(colliders),
                    *old(bodies),
                    *final(bodies),
                    c,
                ),
            final(colliders).modified_colliders@.len() == 0,
            lists_near_pairs(
                final(broad_phase).pairs@,
                *final(colliders),
                integration_parameters.prediction_distance,
            ),
            forall|k: int|
                0 <= k < final(narrow_phase).pairs@.len() ==> up_to_date(
                    #[trigger] final(narrow_phase).pairs@[k],
                    *final(colliders),
                    *final(bodies),
                    integration_parameters.prediction_distance,
                    *hooks,
                ),
            covers(old(narrow_phase).pairs@, old(broad_phase).pairs@) ==> covers(
                final(narrow_phase).pairs@,
                final(broad_phase).pairs@,
            ),
            final(events)@.len() >= old(events)@.len(),
            final(events)@.subrange(0, old(events)@.len() as int) == old(events)@,
            final(joints).slots@ == old(joints).slots@,
            final(self).solver_slots().len() >= old(self).solver_slots().len(),
            final(self).solver_slots().len() >= final(bodies).island_count(),
            final(self).manifold_lists().len() >= old(self).manifold_lists().len(),
            final(self).manifold_lists().len() >= final(bodies).island_count(),
            final(self).joint_lists().len() >= old(self).joint_lists().len(),
            final(self).joint_lists().len() >= final(bodies).island_count(),
            final(self).dispatch() == old(self).dispatch(),
    {
        let ghost start = world(*old(bodies), *old(colliders), *old(broad_phase), *old(narrow_phase), old(events)@);
        self.counters.reset();
        self.counters.step_started();
        colliders.handle_user_changes(bodies);
        let ghost pruned_colliders = *colliders;
        bodies.handle_user_changes(colliders);
        let ghost settled = *bodies;
        let ghost carried_colliders = *colliders;

        let ghost events0 = events@;
        self.detect_collisions_after_user_modifications(
            integration_parameters,
            broad_phase,
            narrow_phase,
            bodies,
            colliders,
            hooks,
            events,
        );
        proof {
            lemma_news_extend(
                events0,
                detection_news(
                    old(narrow_phase).pairs@,
                    carried_colliders,
                    settled,
                    integration_parameters.prediction_distance,
                    *hooks,
                    self.pair_events(),
                    true,
                ),
            );
        }

        let total_dt: u64 = integration_parameters.dt;
        let mut budget = SubstepBudget::new(total_dt, integration_parameters.max_ccd_substeps);
        let mut substep_parameters = *integration_parameters;

        let ccd_active: bool = ccd_solver.update_ccd_active_flags(bodies, total_dt);
        proof {
            lemma_stepping_begins(
                *old(bodies),
                *old(colliders),
                pruned_colliders,
                settled,
                carried_colliders,
                *bodies,
                total_dt,
            );
            lemma_stepping_reads_slots(
                *old(bodies),
                *old(colliders),
                *bodies,
                carried_colliders,
                *colliders,
                total_dt,
                false,
            );
            if ccd_active {
                let w = choose|i: int| #[trigger] watched_at(settled, total_dt, i);
                assert(crate::dynamics::rigid_body_set::same_body(settled.slots@[w], old(bodies).slots@[w]));
                assert(watched_at(*old(bodies), total_dt, w));
            }
            if any_watched(*old(bodies), total_dt) {
                let w = choose|i: int| #[trigger] watched_at(*old(bodies), total_dt, i);
                assert(crate::dynamics::rigid_body_set::same_body(settled.slots@[w], old(bodies).slots@[w]));
                assert(watched_at(settled, total_dt, w));
            }
            lemma_stepping_means(*old(bodies), *old(colliders), *bodies, *colliders, total_dt, false);
            lemma_begins(
                start,
                world(*bodies, *colliders, *broad_phase, *narrow_phase, events@),
                settled,
                carried_colliders,
                self.pair_events(),
                *integration_parameters,
                *hooks,
            );
            lemma_run_begins(
                start,
                world(*bodies, *colliders, *broad_phase, *narrow_phase, events@),
                ccd_active,
                joints.slots@,
                *gravity,
                *integration_parameters,
                *hooks,
            );
            lemma_planning_begins(*integration_parameters, ccd_active);
            assert(self.counters.substeps() =~= Seq::<u64>::empty());
        }
        let ghost mut run: Seq<Moment> = seq![world(*bodies, *colliders, *broad_phase, *narrow_phase, events@)];
        let ghost mut answers: Seq<Option<u64>> = Seq::empty();

        let mut done: bool = false;
        while !done
            invariant
                self.counters.progress() == (
                    old(self).counters.enabled,
                    old(self).counters.enabled,
                    false,
                    self.counters.substeps(),
                ),
                self.counters.stages_at_rest(),
                total_dt == integration_parameters.dt,
                total(self.counters.substeps()) + budget.remaining_time == total_dt,
                done ==> budget.remaining_time == 0 && self.counters.substeps().len() >= 1,
                self.counters.substeps().len() + (if done {
                    0
                } else {
                    larger(budget.remaining_substeps as int, 1)
                }) <= larger(integration_parameters.max_ccd_substeps as int, 1),
                self.counters.substeps().len() == 0 ==> !done && budget == (SubstepBudget {
                    remaining_time: total_dt,
                    remaining_substeps: integration_parameters.max_ccd_substeps,
                }),
                self.counters.substeps().len() > 0 && !done ==> ccd_active
                    && integration_parameters.max_ccd_substeps > 1,
                self.counters.substeps().len() >= 1 && (!ccd_active || integration_parameters.max_ccd_substeps
                    <= 1) ==> self.counters.substeps() == seq![total_dt],
                ccd_active ==> exists|i: int| #[trigger] watched_at(*old(bodies), total_dt, i),
                ccd_active == any_watched(*old(bodies), total_dt),
                start == world(*old(bodies), *old(colliders), *old(broad_phase), *old(narrow_phase), old(events)@),
                planning(*integration_parameters, ccd_active, answers, self.counters.substeps(), budget, done),
                runs(start, run, answers, ccd_active, joints.slots@, *gravity, *integration_parameters, *hooks),
                run.len() == answers.len() + 1,
                run.last() == world(*bodies, *colliders, *broad_phase, *narrow_phase, events@),
                ccd_solver.queries == queries_after(
                    old(ccd_solver).queries,
                    queries_made(
                        ccd_active,
                        integration_parameters.max_ccd_substeps,
                        self.counters.substeps().len(),
                    ),
                ),
                stepping(
                    *old(bodies),
                    *old(colliders),
                    *bodies,
                    *colliders,
                    total_dt,
                    self.counters.substeps().len() > 0,
                ),
                bodies.islands_wf(),
                colliders.modified_colliders@.len() == 0,
                self.counters.substeps().len() > 0 ==> {
                    &&& bodies.modified_inactive_set@.len() == 0
                    &&& lists_near_pairs(
                        broad_phase.pairs@,
                        *colliders,
                        integration_parameters.prediction_distance,
                    )
                    &&& forall|k: int|
                        0 <= k < narrow_phase.pairs@.len() ==> up_to_date(
                            #[trigger] narrow_phase.pairs@[k],
                            *colliders,
                            *bodies,
                            integration_parameters.prediction_distance,
                            *hooks,
                        )
                    &&& self.solver_slots().len() >= bodies.island_count()
                    &&& self.manifold_lists().len() >= bodies.island_count()
                    &&& self.joint_lists().len() >= bodies.island_count()
                },
                events@.len() >= old(events)@.len(),
                events@.subrange(0, old(events)@.len() as int) == old(events)@,
                joints.slots@ == old(joints).slots@,
                self.solver_slots().len() >= old(self).solver_slots().len(),
                self.manifold_lists().len() >= old(self).manifold_lists().len(),
                self.joint_lists().len() >= old(self).joint_lists().len(),
                self.dispatch() == old(self).dispatch(),
                substep_parameters == integration_parameters.with_dt(substep_parameters.dt),
            decreases
                    if done {
                        0
                    } else {
                        budget.remaining_substeps + 1
                    },
        {
            proof {
                lemma_planning_means(
                    *integration_parameters,
                    ccd_active,
                    answers,
                    self.counters.substeps(),
                    budget,
                    false,
                );
            }
            let ghost queries_before = ccd_solver.queries;
            // If there is more than one substep left, the rest of the step
            // is cut at the first impact; else it is taken in one piece.
            let toi: Option<u64> = if budget.needs_impact(ccd_active) {
                ccd_solver.find_first_impact(budget.remaining_time, bodies, colliders)
            } else {
                None
            };
            let ghost budget_before = budget;
            let ghost lengths_before = self.counters.substeps();
            let ghost bodies_before = *bodies;
            let ghost colliders_before = *colliders;
            let ghost events_before = events@;
            let dt: u64 = budget.plan(ccd_active, toi, integration_parameters.min_ccd_dt);
            substep_parameters.dt = dt;
            self.counters.substep_taken(dt);
            proof {
                lemma_slice_fits(budget_before, ccd_active, toi);
                lemma_stepping_sound(
                    *old(bodies),
                    *old(colliders),
                    *bodies,
                    *colliders,
                    total_dt,
                    lengths_before.len() > 0,
                );
                if lengths_before.len() == 0 {
                    assert(self.counters.substeps() =~= seq![dt]);
                }
            }

            self.substep(
                gravity,
                &substep_parameters,
                broad_phase,
                narrow_phase,
                bodies,
                colliders,
                joints,
                ccd_solver,
                hooks,
                events,
                // If CCD is enabled, execute the CCD motion clamping.
                ccd_active && budget.remaining_substeps > 0,
            );
            proof {
                let made = queries_made(
                    ccd_active,
                    integration_parameters.max_ccd_substeps,
                    lengths_before.len(),
                );
                lemma_queries_counted(old(ccd_solver).queries, made);
                lemma_queries_counted(old(ccd_solver).queries, made + 1);
                lemma_planning_extends(
                    *integration_parameters,
                    ccd_active,
                    answers,
                    lengths_before,
                    budget_before,
                    toi,
                );
                lemma_run_extends(
                    start,
                    run,
                    answers,
                    world(*bodies, *colliders, *broad_phase, *narrow_phase, events@),
                    toi,
                    ccd_active,
                    joints.slots@,
                    *gravity,
                    *integration_parameters,
                    *hooks,
                );
                run = run.push(world(*bodies, *colliders, *broad_phase, *narrow_phase, events@));
                answers = answers.push(toi);
                lemma_stepping_extends(
                    *old(bodies),
                    *old(colliders),
                    bodies_before,
                    colliders_before,
                    *bodies,
                    *colliders,
                    total_dt,
                    lengths_before.len() > 0,
                );
                assert(events@.subrange(0, old(events)@.len() as int) =~= old(events)@) by {
                    assert(events@.subrange(0, events_before.len() as int) == events_before);
                    assert(events_before.subrange(0, old(events)@.len() as int) == old(events)@);
                }
            }

            done = budget.is_exhausted(ccd_active);
        }
        self.counters.step_completed();
        proof {
            lemma_stepping_means(*old(bodies), *old(colliders), *bodies, *colliders, total_dt, true);
            lemma_planning_means(
                *integration_parameters,
                ccd_active,
                answers,
                self.counters.substeps(),
                budget,
                true,
            );
            if covers(start.entries, start.near) {
                lemma_run_covers(
                    start,
                    run,
                    answers,
                    ccd_active,
                    joints.slots@,
                    *gravity,
                    *integration_parameters,
                    *hooks,
                    run.len() - 1,
                );
            }
        }
    }

    /// Holds back the bodies that would run into something on their way to
    /// their next positions: each goes no farther than where it is at the
    /// time of its first impact within the substep.
    pub fn run_ccd_motion_clamping(
        &mut self,
        integration_parameters: &IntegrationParameters,
        bodies: &mut RigidBodySet,
        colliders: &ColliderSet,
        ccd_solver: &mut CCDSolver,
    )
        ensures
            exists|impacts: Seq<Impact>|
                #![trigger predicted(*old(bodies), *colliders, integration_parameters.dt, impacts, old(bodies).slots@.len() as int)]
                {
                    &&& predicted(
                        *old(bodies),
                        *colliders,
                        integration_parameters.dt,
                        impacts,
                        old(bodies).slots@.len() as int,
                    )
                    &&& final(bodies).slots@ == clamped(old(bodies).slots@, impacts)
                },
            final(bodies).same_sets(*old(bodies)),
            final(ccd_solver).queries == counted(old(ccd_solver).queries),
            *final(self) == *old(self),
    {
        // Handle CCD
        let impacts = ccd_solver.predict_impacts_at_next_positions(
            integration_parameters.dt,
            bodies,
            colliders,
        );
        ccd_solver.clamp_motions(bodies, &impacts);
    }

    /// Ends the substep: every body that moves takes its next position, a
    /// kinematic body comes to rest, and the colliders of the bodies that
    /// move are carried to where their bodies are. Nothing else changes.
    pub fn advance_to_final_positions(&mut self, bodies: &mut RigidBodySet, colliders: &mut ColliderSet)
        ensures
            final(bodies).slots@.len() == old(bodies).slots@.len(),
            forall|i: int|
                0 <= i < old(bodies).slots@.len() ==> #[trigger] final(bodies).slots@[i] == committed_slot(
                    *old(bodies),
                    i,
                ),
            final(bodies).same_sets(*old(bodies)),
            final(colliders).slots@ == old(colliders).carried_by_moving(*final(bodies)),
            final(colliders).modified_colliders@ == old(colliders).modified_colliders@,
            *final(self) == *old(self),
    {
        // Set the rigid-bodies and kinematic bodies to their final position.
        let n: usize = bodies.slots.len();
        let mut i: usize = 0;
        while i < n
            invariant
                i <= n,
                n == bodies.slots@.len(),
                n == old(bodies).slots@.len(),
                bodies.same_sets(*old(bodies)),
                forall|k: int|
                    0 <= k < i ==> #[trigger] bodies.slots@[k] == committed_slot(*old(bodies), k),
                forall|k: int| i <= k < n ==> bodies.slots@[k] == old(bodies).slots@[k],
            decreases n - i,
        {
            match bodies.slots[i] {
                Some(body) => {
                    if body.placement.is_some() || body.is_kinematic() {
                        let mut rb = body;
                        rb.commit();
                        bodies.slots.set(i, Some(rb));
                    }
                },
                None => {},
            }
            i = i + 1;
        }
        colliders.update_positions_of_moving(bodies);
    }

    /// Gives every kinematic body the velocity that takes it from its
    /// position to its next position in the time of the substep. This comes
    /// before island construction, which looks at that velocity to tell
    /// whether a kinematic body wakes the dynamic bodies that it touches.
    pub fn interpolate_kinematic_velocities(
        &mut self,
        integration_parameters: &IntegrationParameters,
        bodies: &mut RigidBodySet,
    )
        ensures
            final(bodies).slots@.len() == old(bodies).slots@.len(),
            forall|i: int|
                0 <= i < old(bodies).slots@.len() ==> #[trigger] final(bodies).slots@[i] == interpolated_slot(
                    *old(bodies),
                    integration_parameters.dt,
                    i,
                ),
            final(bodies).same_sets(*old(bodies)),
            *final(self) == *old(self),
    {
        let n: usize = bodies.slots.len();
        let mut i: usize = 0;
        while i < n
            invariant
                i <= n,
                n == bodies.slots@.len(),
                n == old(bodies).slots@.len(),
                bodies.same_sets(*old(bodies)),
                forall|k: int|
                    0 <= k < i ==> #[trigger] bodies.slots@[k] == interpolated_slot(
                        *old(bodies),
                        integration_parameters.dt,
                        k,
                    ),
                forall|k: int| i <= k < n ==> bodies.slots@[k] == old(bodies).slots@[k],
            decreases n - i,
        {
            match bodies.slots[i] {
                Some(body) => {
                    if body.is_kinematic() {
                        let mut rb = body;
                        rb.compute_velocity_from_next_position(integration_parameters.dt);
                        bodies.slots.set(i, Some(rb));
                    }
                },
                None => {},
            }
            i = i + 1;
        }
    }
}

} // verus!
