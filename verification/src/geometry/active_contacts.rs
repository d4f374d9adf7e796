//! The contacts that take part in a solve, island by island.

use crate::dynamics::island_solver::IslandSolver;
use crate::dynamics::rigid_body_set::RigidBodySet;
use crate::geometry::narrow_phase::{ContactManifold, ContactPair, NarrowPhase};
use crate::sequences::{lemma_take_all, lemma_take_step};
use vstd::prelude::*;

verus! {

/// Whether the colliders of `entry` touch and one of their bodies is being
/// simulated.
pub open spec fn takes_part(entry: ContactPair, bodies: RigidBodySet) -> bool {
    entry.manifold is Some && bodies.island_holding(
        entry.manifold->Some_0.body1,
        entry.manifold->Some_0.body2,
    ) is Some
}

/// The contacts that take part in the solve, in the order of their pairs.
pub open spec fn active_manifolds(entries: Seq<ContactPair>, bodies: RigidBodySet) -> Seq<ContactManifold>
    decreases entries.len(),
{
    if entries.len() == 0 {
        Seq::empty()
    } else if takes_part(entries.last(), bodies) {
        active_manifolds(entries.drop_last(), bodies).push(entries.last().manifold->Some_0)
    } else {
        active_manifolds(entries.drop_last(), bodies)
    }
}

/// The indices, in ascending order, of the contacts among `manifolds` that
/// island `island` solves.
pub open spec fn island_indices(manifolds: Seq<ContactManifold>, bodies: RigidBodySet, island: int) -> Seq<
    usize,
>
    decreases manifolds.len(),
{
    if manifolds.len() == 0 {
        Seq::empty()
    } else if bodies.island_holding(manifolds.last().body1, manifolds.last().body2) == Some(island) {
        island_indices(manifolds.drop_last(), bodies, island).push((manifolds.len() - 1) as usize)
    } else {
        island_indices(manifolds.drop_last(), bodies, island)
    }
}

/// How many of `entries` hold a contact that island `island` solves.
pub open spec fn island_rank(entries: Seq<ContactPair>, bodies: RigidBodySet, island: int) -> nat {
    island_indices(active_manifolds(entries, bodies), bodies, island).len()
}

/// Every index of an island's list names one of the contacts, one that the
/// island solves, and the list is in ascending order.
pub proof fn lemma_island_indices(manifolds: Seq<ContactManifold>, bodies: RigidBodySet, island: int)
    requires
        manifolds.len() <= usize::MAX,
    ensures
        island_indices(manifolds, bodies, island).len() <= manifolds.len(),
        forall|c: int|
            0 <= c < island_indices(manifolds, bodies, island).len() ==> {
                &&& (#[trigger] island_indices(manifolds, bodies, island)[c]) < manifolds.len()
                &&& bodies.island_holding(
                    manifolds[island_indices(manifolds, bodies, island)[c] as int].body1,
                    manifolds[island_indices(manifolds, bodies, island)[c] as int].body2,
                ) == Some(island)
            },
        forall|c: int, d: int|
            0 <= c < d < island_indices(manifolds, bodies, island).len() ==> island_indices(
                manifolds,
                bodies,
                island,
            )[c] < island_indices(manifolds, bodies, island)[d],
    decreases manifolds.len(),
{
    if manifolds.len() > 0 {
        let rest = manifolds.drop_last();
        let indices = island_indices(manifolds, bodies, island);
        let earlier = island_indices(rest, bodies, island);
        lemma_island_indices(rest, bodies, island);
        assert forall|c: int| 0 <= c < indices.len() implies {
            &&& (#[trigger] indices[c]) < manifolds.len()
            &&& bodies.island_holding(manifolds[indices[c] as int].body1, manifolds[indices[c] as int].body2)
                == Some(island)
        } by {
            if c < earlier.len() {
                assert(indices[c] == earlier[c]);
                assert(earlier[c] < rest.len());
                assert(manifolds[earlier[c] as int] == rest[earlier[c] as int]);
            }
        }
        assert forall|c: int, d: int| 0 <= c < d < indices.len() implies indices[c] < indices[d] by {
            assert(indices[c] == earlier[c]);
            assert(earlier[c] < rest.len());
            if d < earlier.len() {
                assert(indices[d] == earlier[d]);
            }
        }
    }
}

/// The contacts that take part are no more than the pairs.
pub proof fn lemma_active_manifolds_len(entries: Seq<ContactPair>, bodies: RigidBodySet)
    ensures
        active_manifolds(entries, bodies).len() <= entries.len(),
    decreases entries.len(),
{
    if entries.len() > 0 {
        lemma_active_manifolds_len(entries.drop_last(), bodies);
    }
}

/// No contact is on the lists of two islands: the lists of indices of
/// different islands are disjoint.
pub proof fn lemma_island_lists_disjoint(
    manifolds: Seq<ContactManifold>,
    bodies: RigidBodySet,
    first: int,
    second: int,
    c: int,
    d: int,
)
    requires
        manifolds.len() <= usize::MAX,
        first != second,
        0 <= c < island_indices(manifolds, bodies, first).len(),
        0 <= d < island_indices(manifolds, bodies, second).len(),
    ensures
        island_indices(manifolds, bodies, first)[c] != island_indices(manifolds, bodies, second)[d],
{
    lemma_island_indices(manifolds, bodies, first);
    lemma_island_indices(manifolds, bodies, second);
}

/// The entry with the impulse that the solver of its island found for it:
/// the solver's contacts stand in the order of the pairs, so the contact of
/// this entry is the one at the entry's rank among those of its island.
pub open spec fn with_impulse(
    entries: Seq<ContactPair>,
    bodies: RigidBodySet,
    solvers: Seq<IslandSolver>,
    p: int,
) -> ContactPair {
    let entry = entries[p];
    if takes_part(entry, bodies) {
        let island = bodies.island_holding(entry.manifold->Some_0.body1, entry.manifold->Some_0.body2)->Some_0;
        let rank = island_rank(entries.take(p), bodies, island) as int;
        if island < solvers.len() && rank < solvers[island].contacts@.len() {
            ContactPair {
                manifold: Some(
                    ContactManifold {
                        impulse: solvers[island].contacts@[rank].impulse,
                        ..entry.manifold->Some_0
                    },
                ),
                ..entry
            }
        } else {
            entry
        }
    } else {
        entry
    }
}

impl NarrowPhase {
    /// Collects the contacts that take part in the solve into `out_manifolds`
    /// and, for each island that has a list, the indices of its contacts.
    pub fn select_active_contacts(
        &self,
        bodies: &RigidBodySet,
        out_manifolds: &mut Vec<ContactManifold>,
        out: &mut Vec<Vec<usize>>,
    )
        ensures
            final(out_manifolds)@ == active_manifolds(self.pairs@, *bodies),
            final(out)@.len() == old(out)@.len(),
            forall|i: int|
                0 <= i < final(out)@.len() ==> (#[trigger] final(out)@[i])@ == island_indices(
                    final(out_manifolds)@,
                    *bodies,
                    i,
                ),
    {
        out_manifolds.clear();
        let lists: usize = out.len();
        let mut l: usize = 0;
        while l < lists
            invariant
                l <= lists,
                lists == out@.len(),
                lists == old(out)@.len(),
                out_manifolds@.len() == 0,
                forall|i: int| 0 <= i < l ==> (#[trigger] out@[i])@.len() == 0,
            decreases lists - l,
        {
            out[l].clear();
            l = l + 1;
        }
        let n: usize = self.pairs.len();
        let mut p: usize = 0;
        assert(out_manifolds@ =~= active_manifolds(self.pairs@.take(0), *bodies));
        assert forall|i: int| 0 <= i < out@.len() implies (#[trigger] out@[i])@ == island_indices(
            out_manifolds@,
            *bodies,
            i,
        ) by {
            assert(out@[i]@ =~= island_indices(out_manifolds@, *bodies, i));
        }
        while p < n
            invariant
                p <= n,
                n == self.pairs@.len(),
                lists == out@.len(),
                out_manifolds@ == active_manifolds(self.pairs@.take(p as int), *bodies),
                forall|i: int|
                    0 <= i < out@.len() ==> (#[trigger] out@[i])@ == island_indices(
                        out_manifolds@,
                        *bodies,
                        i,
                    ),
            decreases n - p,
        {
            proof {
                lemma_take_step(self.pairs@, p as int);
            }
            match self.pairs[p].manifold {
                Some(m) => {
                    match bodies.island_of_interaction(m.body1, m.body2) {
                        Some(island) => {
                            let ghost before = out_manifolds@;
                            let ghost lists_before = out@;
                            let index: usize = out_manifolds.len();
                            out_manifolds.push(m);
                            if island < lists {
                                out[island].push(index);
                            }
                            proof {
                                assert(out_manifolds@.drop_last() =~= before);
                                assert forall|i: int| 0 <= i < out@.len() implies (#[trigger] out@[i])@
                                    == island_indices(out_manifolds@, *bodies, i) by {
                                    assert(lists_before[i]@ == island_indices(before, *bodies, i));
                                }
                            }
                        },
                        None => {},
                    }
                },
                None => {},
            }
            p = p + 1;
        }
        proof {
            lemma_take_all(self.pairs@);
        }
    }

    /// Records in each contact the impulse that the solver of its island
    /// found for it.
    pub fn store_impulses(&mut self, bodies: &RigidBodySet, solvers: &Vec<IslandSolver>)
        ensures
            final(self).pairs@.len() == old(self).pairs@.len(),
            forall|p: int|
                0 <= p < old(self).pairs@.len() ==> #[trigger] final(self).pairs@[p] == with_impulse(
                    old(self).pairs@,
                    *bodies,
                    solvers@,
                    p,
                ),
    {
        let islands: usize = solvers.len();
        let mut cursors: Vec<usize> = Vec::new();
        let mut l: usize = 0;
        while l < islands
            invariant
                l <= islands,
                cursors@.len() == l,
                forall|i: int| 0 <= i < l ==> cursors@[i] == 0,
            decreases islands - l,
        {
            cursors.push(0);
            l = l + 1;
        }
        let n: usize = self.pairs.len();
        let mut p: usize = 0;
        assert(old(self).pairs@.take(0) =~= Seq::<ContactPair>::empty());
        while p < n
            invariant
                p <= n,
                n == self.pairs@.len(),
                n == old(self).pairs@.len(),
                islands == solvers@.len(),
                cursors@.len() == islands,
                forall|i: int|
                    0 <= i < islands ==> #[trigger] cursors@[i] == island_rank(
                        old(self).pairs@.take(p as int),
                        *bodies,
                        i,
                    ),
                forall|k: int|
                    0 <= k < p ==> #[trigger] self.pairs@[k] == with_impulse(
                        old(self).pairs@,
                        *bodies,
                        solvers@,
                        k,
                    ),
                forall|k: int| p <= k < n ==> self.pairs@[k] == old(self).pairs@[k],
            decreases n - p,
        {
            proof {
                lemma_take_step(old(self).pairs@, p as int);
            }
            let entry = self.pairs[p];
            let ghost ranks = cursors@;
            match entry.manifold {
                Some(m) => {
                    match bodies.island_of_interaction(m.body1, m.body2) {
                        Some(island) => {
                            proof {
                                let before = active_manifolds(old(self).pairs@.take(p as int), *bodies);
                                let after = active_manifolds(old(self).pairs@.take(p + 1), *bodies);
                                assert(after == before.push(m));
                                assert(after.drop_last() =~= before);
                                lemma_active_manifolds_len(old(self).pairs@.take(p as int), *bodies);
                                lemma_island_indices(before, *bodies, island as int);
                            }
                            if island < islands {
                                let rank: usize = cursors[island];
                                if rank < solvers[island].contacts.len() {
                                    let mut updated = m;
                                    updated.impulse = solvers[island].contacts[rank].impulse;
                                    let mut changed = entry;
                                    changed.manifold = Some(updated);
                                    self.pairs.set(p, changed);
                                }
                                proof {
                                    assert(rank < old(self).pairs@.len());
                                }
                                cursors.set(island, rank + 1);
                            }
                        },
                        None => {},
                    }
                },
                None => {},
            }
            assert forall|i: int| 0 <= i < islands implies #[trigger] cursors@[i] == island_rank(
                old(self).pairs@.take(p + 1),
                *bodies,
                i,
            ) by {
                assert(ranks[i] == island_rank(old(self).pairs@.take(p as int), *bodies, i));
            }
            p = p + 1;
        }
    }
}

} // verus!
