//! The island dispatcher: hands each island to a solver of its own, has all
//! of them solved, one after the other or at the same time, and takes the
//! results back.
//!
//! A solver works on its own copy of its island. Islands share no body, so
//! the order in which they are solved has no bearing on the result.

use crate::dynamics::island_solver::{
    solved_bodies,
    solved_contacts,
    IslandSolver,
    Partner,
    SolverContact,
};
use crate::dynamics::rigid_body::RigidBody;
use crate::dynamics::rigid_body_set::{RigidBodyHandle, RigidBodySet};
use crate::geometry::narrow_phase::ContactManifold;
use crate::math::Vector;
use rayon::iter::{IntoParallelRefMutIterator, ParallelIterator};
use vstd::prelude::*;

verus! {

/// How the islands of a world are solved.
#[derive(Copy, Clone, Debug, PartialEq, Eq, Structural)]
pub enum DispatchStrategy {
    /// One island after the other, in ascending order.
    Sequential,
    /// All islands at the same time, on a pool of worker threads.
    Concurrent,
}

impl RigidBodySet {
    /// Where island `island` starts in the active set.
    pub open spec fn island_start(self, island: int) -> int {
        self.active_islands@[island] as int
    }

    /// How many bodies island `island` holds.
    pub open spec fn island_len(self, island: int) -> int {
        self.active_islands@[island + 1] - self.active_islands@[island]
    }

    /// The bodies of island `island`, in the order of the active set.
    pub open spec fn island_bodies(self, island: int) -> Seq<RigidBody> {
        Seq::new(
            self.island_len(island) as nat,
            |c: int| self.at(self.active_dynamic_set@[self.island_start(island) + c] as int),
        )
    }

    /// One side of a contact as the solver of island `island` sees it: a
    /// member of the island by its index in the island, any other body as a
    /// body that does not yield, with its velocity.
    pub open spec fn partner_in(self, island: int, body: RigidBodyHandle) -> Partner {
        if self.active(body.0 as int) && self.island_of(body.0 as int) == island && island < self.active_islands@.len()
            && self.at(body.0 as int).placement->Some_0.offset >= self.active_islands@[island] {
            Partner::Member(
                (self.at(body.0 as int).placement->Some_0.offset - self.active_islands@[island]) as usize,
            )
        } else if self.contains(body) {
            Partner::Fixed(self.body(body).linvel)
        } else {
            Partner::Fixed(Vector { x: 0, y: 0, z: 0 })
        }
    }

    /// A contact as the solver of island `island` sees it.
    pub open spec fn contact_in(self, island: int, manifold: ContactManifold) -> SolverContact {
        SolverContact {
            first: self.partner_in(island, manifold.body1),
            second: self.partner_in(island, manifold.body2),
            axis: manifold.axis,
            positive: manifold.positive,
            distance: manifold.distance,
            impulse: manifold.impulse,
        }
    }

    /// The contacts of island `island`: those of `manifolds` that `indices`
    /// names, in that order.
    pub open spec fn island_contacts(self, island: int, manifolds: Seq<ContactManifold>, indices: Seq<usize>) -> Seq<
        SolverContact,
    > {
        Seq::new(indices.len(), |c: int| self.contact_in(island, manifolds[indices[c] as int]))
    }

    /// One side of a contact as the solver of island `island` sees it.
    pub fn partner(&self, island: usize, body: RigidBodyHandle) -> (partner: Partner)
        ensures
            partner == self.partner_in(island as int, body),
    {
        match self.get(body) {
            Some(found) => {
                match found.placement {
                    Some(p) => {
                        if p.island == island && island < self.active_islands.len() && p.offset
                            >= self.active_islands[island] {
                            Partner::Member(p.offset - self.active_islands[island])
                        } else {
                            Partner::Fixed(found.linvel)
                        }
                    },
                    None => Partner::Fixed(found.linvel),
                }
            },
            None => Partner::Fixed(Vector::zeros()),
        }
    }

    /// What slot `i` holds once the solvers have handed their bodies back: an
    /// active body is replaced by the body at its place in the solver of its
    /// island, if the solver holds one there.
    pub open spec fn stored_slot(self, solvers: Seq<IslandSolver>, i: int) -> Option<RigidBody> {
        if self.active(i) {
            let p = self.at(i).placement->Some_0;
            if p.island < solvers.len() && p.island < self.active_islands@.len() && p.offset
                >= self.active_islands@[p.island as int] && p.offset - self.active_islands@[p.island as int]
                < solvers[p.island as int].bodies@.len() {
                Some(solvers[p.island as int].bodies@[p.offset - self.active_islands@[p.island as int]])
            } else {
                self.slots@[i]
            }
        } else {
            self.slots@[i]
        }
    }

    /// Takes back from the solvers the bodies of their islands.
    pub fn store_solved(&mut self, solvers: &Vec<IslandSolver>)
        ensures
            final(self).slots@.len() == old(self).slots@.len(),
            forall|i: int|
                0 <= i < old(self).slots@.len() ==> #[trigger] final(self).slots@[i] == old(self).stored_slot(
                    solvers@,
                    i,
                ),
            final(self).same_sets(*old(self)),
    {
        let n: usize = self.slots.len();
        let mut i: usize = 0;
        while i < n
            invariant
                i <= n,
                n == self.slots@.len(),
                n == old(self).slots@.len(),
                self.same_sets(*old(self)),
                forall|k: int|
                    0 <= k < i ==> #[trigger] self.slots@[k] == old(self).stored_slot(solvers@, k),
                forall|k: int| i <= k < n ==> self.slots@[k] == old(self).slots@[k],
            decreases n - i,
        {
            match self.slots[i] {
                Some(body) => {
                    match body.placement {
                        Some(p) => {
                            if p.island < solvers.len() && p.island < self.active_islands.len() && p.offset
                                >= self.active_islands[p.island] {
                                let c: usize = p.offset - self.active_islands[p.island];
                                if c < solvers[p.island].bodies.len() {
                                    let solved = solvers[p.island].bodies[c];
                                    self.slots.set(i, Some(solved));
                                }
                            }
                        },
                        None => {},
                    }
                },
                None => {},
            }
            i = i + 1;
        }
    }

    /// What slot `i` holds once the active bodies have been made ready for a
    /// solve: an active body has its centre of mass placed in the world and
    /// its weight added to its force.
    pub open spec fn readied_slot(self, gravity: Vector, i: int) -> Option<RigidBody> {
        if self.active(i) {
            Some(self.at(i).with_world_mass_properties().with_gravity(gravity))
        } else {
            self.slots@[i]
        }
    }
}

impl IslandSolver {
    /// Takes a copy of island `island_id`: its bodies, the contacts that
    /// `manifold_indices` names among `manifolds`, and its joints.
    pub fn load(
        &mut self,
        island_id: usize,
        bodies: &RigidBodySet,
        manifolds: &Vec<ContactManifold>,
        manifold_indices: &Vec<usize>,
        joint_indices: &Vec<usize>,
    )
        requires
            bodies.islands_wf(),
            island_id < bodies.island_count(),
            forall|c: int| 0 <= c < manifold_indices@.len() ==> manifold_indices@[c] < manifolds@.len(),
        ensures
            final(self).bodies@ == bodies.island_bodies(island_id as int),
            final(self).contacts@ == bodies.island_contacts(island_id as int, manifolds@, manifold_indices@),
            final(self).joints@ == joint_indices@,
    {
        self.bodies.clear();
        self.contacts.clear();
        self.joints.clear();
        let _starts: usize = bodies.active_islands.len();
        let _active: usize = bodies.active_dynamic_set.len();
        let start: usize = bodies.active_islands[island_id];
        let end: usize = bodies.active_islands[island_id + 1];
        let mut k: usize = start;
        while k < end
            invariant
                bodies.islands_wf(),
                island_id < bodies.island_count(),
                start == bodies.active_islands@[island_id as int],
                end == bodies.active_islands@[island_id + 1],
                start <= k <= end,
                end <= bodies.active_dynamic_set@.len(),
                self.contacts@.len() == 0,
                self.joints@.len() == 0,
                self.bodies@.len() == k - start,
                forall|c: int|
                    0 <= c < k - start ==> self.bodies@[c] == bodies.at(
                        bodies.active_dynamic_set@[start + c] as int,
                    ),
            decreases end - k,
        {
            let slot: usize = bodies.active_dynamic_set[k];
            proof {
                assert(bodies.active(bodies.active_dynamic_set@[k as int] as int));
            }
            match bodies.slots[slot] {
                Some(body) => {
                    self.bodies.push(body);
                },
                None => {},
            }
            k = k + 1;
        }
        assert(self.bodies@ =~= bodies.island_bodies(island_id as int));
        let mut c: usize = 0;
        while c < manifold_indices.len()
            invariant
                c <= manifold_indices@.len(),
                forall|d: int| 0 <= d < manifold_indices@.len() ==> manifold_indices@[d] < manifolds@.len(),
                self.bodies@ == bodies.island_bodies(island_id as int),
                self.joints@.len() == 0,
                self.contacts@.len() == c,
                forall|d: int|
                    0 <= d < c ==> self.contacts@[d] == bodies.contact_in(
                        island_id as int,
                        manifolds@[manifold_indices@[d] as int],
                    ),
            decreases manifold_indices@.len() - c,
        {
            let m = manifolds[manifold_indices[c]];
            self.contacts.push(
                SolverContact {
                    first: bodies.partner(island_id, m.body1),
                    second: bodies.partner(island_id, m.body2),
                    axis: m.axis,
                    positive: m.positive,
                    distance: m.distance,
                    impulse: m.impulse,
                },
            );
            c = c + 1;
        }
        assert(self.contacts@ =~= bodies.island_contacts(island_id as int, manifolds@, manifold_indices@));
        let mut j: usize = 0;
        while j < joint_indices.len()
            invariant
                j <= joint_indices@.len(),
                self.bodies@ == bodies.island_bodies(island_id as int),
                self.contacts@ == bodies.island_contacts(island_id as int, manifolds@, manifold_indices@),
                self.joints@ == joint_indices@.take(j as int),
            decreases joint_indices@.len() - j,
        {
            self.joints.push(joint_indices[j]);
            assert(self.joints@ =~= joint_indices@.take(j + 1));
            j = j + 1;
        }
        assert(joint_indices@.take(joint_indices@.len() as int) =~= joint_indices@);
    }
}

/// Whether the solver `after` holds what solving `before` for `dt` ticks gives.
pub open spec fn solves(before: IslandSolver, after: IslandSolver, dt: u64) -> bool {
    &&& after.bodies@ == solved_bodies(before.bodies@, before.contacts@, dt)
    &&& after.contacts@ == solved_contacts(before.bodies@, before.contacts@, dt)
    &&& after.joints@ == before.joints@
}

/// Whether the two solvers hold the same.
pub open spec fn holds_same(a: IslandSolver, b: IslandSolver) -> bool {
    &&& a.bodies@ == b.bodies@
    &&& a.contacts@ == b.contacts@
    &&& a.joints@ == b.joints@
}

/// Whether `after` is `before` with the first `count` solvers solved for `dt`
/// ticks, each for itself, and the others left as they were.
pub open spec fn dispatched(before: Seq<IslandSolver>, after: Seq<IslandSolver>, count: int, dt: u64) -> bool {
    &&& after.len() == before.len()
    &&& forall|i: int| 0 <= i < count && i < before.len() ==> solves(before[i], #[trigger] after[i], dt)
    &&& forall|i: int| count <= i < before.len() ==> holds_same(before[i], #[trigger] after[i])
}

/// Solves the first `count` solvers, or all of them if there are fewer, one
/// after the other, in ascending order.
pub fn solve_sequentially(solvers: &mut Vec<IslandSolver>, count: usize, dt: u64)
    ensures
        dispatched(old(solvers)@, final(solvers)@, count as int, dt),
{
    let count: usize = if count < solvers.len() {
        count
    } else {
        solvers.len()
    };
    let mut i: usize = 0;
    while i < count
        invariant
            i <= count,
            count <= solvers@.len(),
            solvers@.len() == old(solvers)@.len(),
            forall|k: int| 0 <= k < i ==> solves(old(solvers)@[k], #[trigger] solvers@[k], dt),
            forall|k: int| i <= k < solvers@.len() ==> #[trigger] solvers@[k] == old(solvers)@[k],
        decreases count - i,
    {
        solvers[i].solve(dt);
        i = i + 1;
    }
}

/// Solves the first `count` solvers on rayon's pool of worker threads, and
/// returns once all of them are done. `par_iter_mut` hands each solver to
/// exactly one call of the closure, and `for_each` returns when every call
/// has; so each of the first `count` solvers has been solved once, for
/// itself, and the others are untouched.
#[verifier::external_body]
fn solve_concurrently(solvers: &mut Vec<IslandSolver>, count: usize, dt: u64)
    requires
        count <= old(solvers)@.len(),
    ensures
        dispatched(old(solvers)@, final(solvers)@, count as int, dt),
{
    solvers[..count].par_iter_mut().for_each(|solver| solver.solve(dt));
}

/// Solves the first `count` solvers, or all of them if there are fewer, for
/// a substep of `dt` ticks, each for itself: one after the other, or all at
/// the same time.
pub fn solve_islands(solvers: &mut Vec<IslandSolver>, count: usize, dt: u64, strategy: DispatchStrategy)
    ensures
        dispatched(old(solvers)@, final(solvers)@, count as int, dt),
{
    match strategy {
        DispatchStrategy::Sequential => solve_sequentially(solvers, count, dt),
        DispatchStrategy::Concurrent => {
            let within: usize = if count < solvers.len() {
                count
            } else {
                solvers.len()
            };
            solve_concurrently(solvers, within, dt);
        },
    }
}

/// The two strategies are interchangeable: whatever way the islands were
/// solved, every solver holds the same bodies and the same contacts.
pub proof fn lemma_strategies_agree(
    before: Seq<IslandSolver>,
    one_by_one: Seq<IslandSolver>,
    at_once: Seq<IslandSolver>,
    count: int,
    dt: u64,
)
    requires
        dispatched(before, one_by_one, count, dt),
        dispatched(before, at_once, count, dt),
    ensures
        one_by_one.len() == at_once.len(),
        forall|i: int| 0 <= i < one_by_one.len() ==> holds_same(#[trigger] one_by_one[i], at_once[i]),
{
    assert forall|i: int| 0 <= i < one_by_one.len() implies holds_same(
        #[trigger] one_by_one[i],
        at_once[i],
    ) by {
        if i < count {
            assert(solves(before[i], one_by_one[i], dt));
            assert(solves(before[i], at_once[i], dt));
        } else {
            assert(holds_same(before[i], one_by_one[i]));
            assert(holds_same(before[i], at_once[i]));
        }
    }
}

} // verus!
