//! Island construction: which dynamic bodies are simulated, and in which
//! groups they are solved.
//!
//! Bodies are tied by contacts and by joints. Starting from the dynamic bodies
//! that are awake, the construction follows these ties through dynamic bodies,
//! wakes the sleeping bodies that it reaches, and lays the bodies out in the
//! active set so that no tie crosses from one island to another.

use crate::dynamics::joint::joint_set::Joint;
use crate::dynamics::rigid_body::{Placement, RigidBody};
use crate::dynamics::rigid_body_set::{RigidBodyHandle, RigidBodySet};
use crate::geometry::narrow_phase::{ContactPair, NarrowPhase};
use vstd::prelude::*;

verus! {

/// A tie between the bodies in two slots: a contact or a joint.
#[derive(Copy, Clone, Debug, PartialEq, Eq, Structural)]
pub struct Edge {
    pub body1: usize,
    pub body2: usize,
}

impl Edge {
    /// Whether the edge ties the bodies in slots `a` and `b`.
    pub open spec fn links(self, a: int, b: int) -> bool {
        (self.body1 == a && self.body2 == b) || (self.body1 == b && self.body2 == a)
    }
}

/// The tie that a pair of colliders makes between their bodies: one when the
/// colliders touch.
pub open spec fn edge_of_contact(entry: ContactPair) -> Option<Edge> {
    match entry.manifold {
        Some(m) => Some(Edge { body1: m.body1.0, body2: m.body2.0 }),
        None => None,
    }
}

/// The tie that a joint makes between the bodies that it holds.
pub open spec fn edge_of_joint(slot: Option<Joint>) -> Option<Edge> {
    match slot {
        Some(j) => Some(Edge { body1: j.body1.0, body2: j.body2.0 }),
        None => None,
    }
}

/// The graph of contacts and joints: one entry for each pair of colliders,
/// then one for each slot of the joint set.
pub open spec fn interaction_graph(contacts: Seq<ContactPair>, joints: Seq<Option<Joint>>) -> Seq<
    Option<Edge>,
> {
    Seq::new(
        contacts.len() + joints.len(),
        |k: int|
            if k < contacts.len() {
                edge_of_contact(contacts[k])
            } else {
                edge_of_joint(joints[k - contacts.len()])
            },
    )
}

/// Collects the graph of contacts and joints.
pub fn collect_interactions(narrow_phase: &NarrowPhase, joint_graph: &Vec<Option<Joint>>) -> (edges: Vec<
    Option<Edge>,
>)
    ensures
        edges@ == interaction_graph(narrow_phase.pairs@, joint_graph@),
{
    let mut edges: Vec<Option<Edge>> = Vec::new();
    let mut i: usize = 0;
    while i < narrow_phase.pairs.len()
        invariant
            i <= narrow_phase.pairs@.len(),
            edges@.len() == i,
            forall|k: int| 0 <= k < i ==> edges@[k] == edge_of_contact(narrow_phase.pairs@[k]),
        decreases narrow_phase.pairs@.len() - i,
    {
        let edge = match narrow_phase.pairs[i].manifold {
            Some(m) => Some(Edge { body1: m.body1.0, body2: m.body2.0 }),
            None => None,
        };
        edges.push(edge);
        i = i + 1;
    }
    let mut j: usize = 0;
    while j < joint_graph.len()
        invariant
            j <= joint_graph@.len(),
            edges@.len() == narrow_phase.pairs@.len() + j,
            forall|k: int|
                0 <= k < narrow_phase.pairs@.len() ==> edges@[k] == edge_of_contact(
                    narrow_phase.pairs@[k],
                ),
            forall|k: int| 0 <= k < j ==> edges@[narrow_phase.pairs@.len() + k] == edge_of_joint(joint_graph@[k]),
        decreases joint_graph@.len() - j,
    {
        let edge = match joint_graph[j] {
            Some(joint) => Some(Edge { body1: joint.body1.0, body2: joint.body2.0 }),
            None => None,
        };
        edges.push(edge);
        j = j + 1;
    }
    assert(edges@ =~= interaction_graph(narrow_phase.pairs@, joint_graph@));
    edges
}

impl RigidBodySet {
    /// Whether slot `i` holds a dynamic body.
    pub open spec fn dynamic_at(self, i: int) -> bool {
        self.live(i) && self.at(i).dynamic()
    }

    /// Whether slot `i` holds a kinematic body that has a velocity.
    pub open spec fn pusher_at(self, i: int) -> bool {
        self.live(i) && self.at(i).kinematic() && self.at(i).moving()
    }

    /// Whether the dynamic body in slot `i` is tied to a kinematic body that
    /// has a velocity.
    pub open spec fn roused(self, edges: Seq<Option<Edge>>, i: int) -> bool {
        exists|k: int, o: int|
            0 <= k < edges.len() && (#[trigger] edges[k]) is Some && self.pusher_at(o)
                && #[trigger] edges[k]->Some_0.links(i, o)
    }

    /// Whether the construction starts from the body in slot `i`: a dynamic
    /// body that is awake, or that a moving kinematic body is tied to.
    pub open spec fn seed(self, edges: Seq<Option<Edge>>, i: int) -> bool {
        self.dynamic_at(i) && (!self.at(i).sleeping || self.roused(edges, i))
    }

    /// Whether the two bodies, where both are dynamic, are simulated together
    /// or not at all: both active and in one island, or both inactive.
    pub open spec fn tied(self, a: int, b: int) -> bool {
        self.dynamic_at(a) && self.dynamic_at(b) ==> {
            &&& self.active(a) <==> self.active(b)
            &&& self.active(a) ==> self.island_of(a) == self.island_of(b)
        }
    }

    /// Whether the tie at index `k` of the graph, if there is one, holds
    /// bodies that are simulated together or not at all.
    pub open spec fn respects(self, edges: Seq<Option<Edge>>, k: int) -> bool {
        edges[k] is Some ==> self.tied(edges[k]->Some_0.body1 as int, edges[k]->Some_0.body2 as int)
    }

    /// Whether no tie crosses from one island to another, or from an active
    /// body to a dynamic body that is left out.
    pub open spec fn closed_under(self, edges: Seq<Option<Edge>>) -> bool {
        forall|k: int| 0 <= k < edges.len() ==> #[trigger] self.respects(edges, k)
    }

    /// Whether the body at index `p` of the active set was reached from a
    /// body that stands before it in the set, along a tie.
    pub open spec fn reached(self, edges: Seq<Option<Edge>>, p: int) -> bool {
        exists|k: int, q: int|
            0 <= k < edges.len() && 0 <= q < p && (#[trigger] edges[k]) is Some && edges[k]->Some_0.links(
                self.active_dynamic_set@[p] as int,
                #[trigger] self.active_dynamic_set@[q] as int,
            )
    }

    /// Whether the body at index `p` of the active set is one that the
    /// construction started from in `before`, or was reached from a body that
    /// stands before it.
    pub open spec fn rooted(self, before: RigidBodySet, edges: Seq<Option<Edge>>, p: int) -> bool {
        before.seed(edges, self.active_dynamic_set@[p] as int) || self.reached(edges, p)
    }

    /// Whether every active body is one that the construction started from, or
    /// was reached from an active body that stands before it.
    pub open spec fn grown_from(self, before: RigidBodySet, edges: Seq<Option<Edge>>) -> bool {
        forall|p: int| 0 <= p < self.active_dynamic_set@.len() ==> #[trigger] self.rooted(before, edges, p)
    }

    /// Whether the body at index `p` of the active set is the first of its
    /// island, or was reached from a body that stands before it.
    pub open spec fn founded(self, edges: Seq<Option<Edge>>, p: int) -> bool {
        p == self.active_islands@[self.island_of(self.active_dynamic_set@[p] as int)] || self.reached(edges, p)
    }

    /// Whether every island is one group of tied bodies: each of its bodies
    /// but the first was reached, along a tie, from a body that stands before
    /// it. With no tie crossing from one island to another, the bodies of an
    /// island are then tied to its first, directly or through each other.
    pub open spec fn islands_are_groups(self, edges: Seq<Option<Edge>>) -> bool {
        forall|p: int| 0 <= p < self.active_dynamic_set@.len() ==> #[trigger] self.founded(edges, p)
    }

    /// Whether the last island holds a body, unless there is no active body
    /// at all: only then is there an island that holds nothing.
    pub open spec fn last_island_holds(self) -> bool {
        self.active_dynamic_set@.len() > 0 && self.island_count() >= 1 ==> self.active_islands@[self.island_count()
            - 1] < self.active_dynamic_set@.len()
    }

    /// Whether island `i` holds at least `min_island_size` bodies, and at
    /// least one.
    pub open spec fn filled(self, min_island_size: usize, i: int) -> bool {
        &&& self.active_islands@[i] < self.active_islands@[i + 1]
        &&& self.active_islands@[i] + min_island_size <= self.active_islands@[i + 1]
    }

    /// Whether every island but the last holds at least `min_island_size`
    /// bodies, and at least one.
    pub open spec fn islands_filled(self, min_island_size: usize) -> bool {
        forall|i: int|
            0 <= i && i + 2 < self.active_islands@.len() ==> #[trigger] self.filled(min_island_size, i)
    }

    /// Whether slot `i` holds in `self` what it holds in `before`, untouched
    /// but for its place in the active set and for being awake: the body
    /// sleeps if it slept before and is not active.
    pub open spec fn woken(self, before: RigidBodySet, i: int) -> bool {
        &&& (self.slots@[i] is Some) == (before.slots@[i] is Some)
        &&& self.slots@[i] is Some ==> self.at(i) == (RigidBody {
            placement: self.at(i).placement,
            sleeping: before.at(i).sleeping && !self.active(i),
            ..before.at(i)
        })
    }

    /// Whether `self` holds the bodies of `before`, untouched but for their
    /// place in the active set and for being awake.
    pub open spec fn wakes(self, before: RigidBodySet) -> bool {
        &&& self.slots@.len() == before.slots@.len()
        &&& forall|i: int| 0 <= i < self.slots@.len() ==> #[trigger] self.woken(before, i)
    }

    /// Whether the body in slot `i`, if the construction starts from it in
    /// `before`, is active.
    pub open spec fn seeded(self, before: RigidBodySet, edges: Seq<Option<Edge>>, i: int) -> bool {
        before.seed(edges, i) ==> self.active(i)
    }

    /// What island construction establishes: `self` is `before` with the
    /// active set built anew over the graph `edges`.
    pub open spec fn partitions(self, before: RigidBodySet, edges: Seq<Option<Edge>>, min_island_size: usize) -> bool {
        &&& self.wakes(before)
        &&& self.islands_wf()
        &&& self.closed_under(edges)
        &&& forall|i: int| 0 <= i < self.slots@.len() ==> #[trigger] self.seeded(before, edges, i)
        &&& self.grown_from(before, edges)
        &&& self.islands_filled(min_island_size)
        &&& min_island_size <= 1 ==> self.islands_are_groups(edges)
        &&& self.island_count() >= 1
        &&& self.last_island_holds()
        &&& self.modified_inactive_set@ == before.modified_inactive_set@
    }

    /// Whether the dynamic body in slot `o`, if there is one, is active and in
    /// the island of the body in slot `h`.
    pub open spec fn settled(self, h: int, o: int) -> bool {
        self.dynamic_at(o) ==> self.active(o) && self.island_of(o) == self.island_of(h)
    }

    /// Whether the construction has followed `edge` from the body in slot `h`.
    pub open spec fn handled(self, h: int, edge: Edge) -> bool {
        &&& edge.body1 == h ==> self.settled(h, edge.body2 as int)
        &&& edge.body2 == h ==> self.settled(h, edge.body1 as int)
    }

    /// Whether the construction has followed the tie at index `k` of the
    /// graph from the body at index `p` of the active set.
    pub open spec fn followed(self, edges: Seq<Option<Edge>>, p: int, k: int) -> bool {
        edges[k] is Some ==> self.handled(self.active_dynamic_set@[p] as int, edges[k]->Some_0)
    }

    /// Whether the place recorded for index `p` of the active set fits the
    /// islands laid out so far, the last of which is still open.
    pub open spec fn placed_well(self, p: int) -> bool {
        let slot = self.active_dynamic_set@[p] as int;
        let starts = self.active_islands@;
        &&& self.active(slot)
        &&& self.at(slot).dynamic()
        &&& self.at(slot).placement->Some_0.offset == p
        &&& 0 <= self.island_of(slot) < starts.len()
        &&& starts[self.island_of(slot)] <= p
        &&& self.island_of(slot) + 1 < starts.len() ==> p < starts[self.island_of(slot) + 1]
        &&& starts.last() <= p ==> self.island_of(slot) == starts.len() - 1
    }

    /// Whether the body in slot `i`, if it is active, stands in the active
    /// set where it says it does.
    pub open spec fn indexed(self, i: int) -> bool {
        self.active(i) ==> {
            &&& self.at(i).placement->Some_0.offset < self.active_dynamic_set@.len()
            &&& self.active_dynamic_set@[self.at(i).placement->Some_0.offset as int] == i
        }
    }

    /// The state of the construction while it runs: the bodies up to index
    /// `head` of the active set have had their ties followed, and the group
    /// of tied bodies that is being collected starts at index `start`.
    pub open spec fn growing(
        self,
        before: RigidBodySet,
        edges: Seq<Option<Edge>>,
        min_island_size: usize,
        start: int,
        head: int,
    ) -> bool {
        let set = self.active_dynamic_set@;
        let starts = self.active_islands@;
        &&& self.wakes(before)
        &&& self.modified_inactive_set@ == before.modified_inactive_set@
        &&& starts.len() >= 1
        &&& starts[0] == 0
        &&& forall|i: int, j: int| 0 <= i <= j < starts.len() ==> starts[i] <= starts[j]
        &&& starts.last() <= start <= head <= set.len()
        &&& forall|i: int| 0 <= i && i + 1 < starts.len() ==> #[trigger] self.filled(min_island_size, i)
        &&& forall|p: int| 0 <= p < set.len() ==> #[trigger] self.placed_well(p)
        &&& forall|i: int| 0 <= i < self.slots@.len() ==> #[trigger] self.indexed(i)
        &&& forall|p: int, k: int|
            0 <= p < head && 0 <= k < edges.len() ==> #[trigger] self.followed(edges, p, k)
        &&& self.grown_from(before, edges)
        &&& min_island_size <= 1 ==> self.islands_are_groups(edges)
    }

    /// The body in `slot` once it has been appended to the active set.
    pub open spec fn placed_body(self, slot: int) -> RigidBody {
        RigidBody {
            sleeping: false,
            placement: Some(
                Placement {
                    island: (self.active_islands@.len() - 1) as usize,
                    offset: self.active_dynamic_set@.len() as usize,
                },
            ),
            ..self.at(slot)
        }
    }

    /// Whether `self` is `pre` with the body in `slot` appended to the active set.
    pub open spec fn follows_placing(self, pre: RigidBodySet, slot: int) -> bool {
        &&& self.slots@ == pre.slots@.update(slot, Some(pre.placed_body(slot)))
        &&& self.active_dynamic_set@ == pre.active_dynamic_set@.push(slot as usize)
        &&& self.active_islands@ == pre.active_islands@
        &&& self.modified_inactive_set@ == pre.modified_inactive_set@
        &&& pre.active_dynamic_set@.len() < usize::MAX
        &&& pre.active_islands@.len() <= usize::MAX
    }

    /// Whether every body that is active in `pre` is active in `self`, at the
    /// same place.
    pub open spec fn keeps_places(self, pre: RigidBodySet) -> bool {
        forall|i: int| #[trigger] pre.active(i) ==> self.active(i) && self.at(i) == pre.at(i)
    }

    /// Appends the body in `slot` to the active set, in the island that is
    /// being filled, and wakes it.
    fn place(&mut self, slot: usize)
        requires
            old(self).live(slot as int),
            old(self).active_islands@.len() >= 1,
        ensures
            final(self).follows_placing(*old(self), slot as int),
    {
        match self.slots[slot] {
            Some(body) => {
                let mut placed = body;
                placed.sleeping = false;
                placed.placement = Some(
                    Placement {
                        island: self.active_islands.len() - 1,
                        offset: self.active_dynamic_set.len(),
                    },
                );
                self.slots.set(slot, Some(placed));
                self.active_dynamic_set.push(slot);
                let _grown: usize = self.active_dynamic_set.len();
                let _islands: usize = self.active_islands.len();
                assert(_grown == old(self).active_dynamic_set@.len() + 1);
            },
            None => {},
        }
    }

    /// Whether slot `i` holds a kinematic body that has a velocity.
    pub fn is_pusher(&self, i: usize) -> (r: bool)
        ensures
            r == self.pusher_at(i as int),
    {
        if i < self.slots.len() {
            match self.slots[i] {
                Some(body) => body.is_kinematic() && body.is_moving(),
                None => false,
            }
        } else {
            false
        }
    }

    /// Whether a moving kinematic body is tied to the body in slot `i`.
    pub fn is_roused(&self, edges: &Vec<Option<Edge>>, i: usize) -> (r: bool)
        ensures
            r == self.roused(edges@, i as int),
    {
        let mut c: usize = 0;
        while c < edges.len()
            invariant
                c <= edges@.len(),
                forall|k: int, o: int|
                    0 <= k < c && (#[trigger] edges@[k]) is Some && self.pusher_at(o) ==> !(
                    #[trigger] edges@[k]->Some_0.links(i as int, o)),
            decreases edges@.len() - c,
        {
            match edges[c] {
                Some(e) => {
                    if e.body1 == i && self.is_pusher(e.body2) {
                        assert(e.links(i as int, e.body2 as int));
                        return true;
                    }
                    if e.body2 == i && self.is_pusher(e.body1) {
                        assert(e.links(i as int, e.body1 as int));
                        return true;
                    }
                },
                None => {},
            }
            c = c + 1;
        }
        false
    }

    /// Whether the construction starts from the body in slot `i`.
    pub fn is_seed(&self, edges: &Vec<Option<Edge>>, i: usize) -> (r: bool)
        ensures
            r == self.seed(edges@, i as int),
    {
        if i < self.slots.len() {
            match self.slots[i] {
                Some(body) => body.is_dynamic() && (!body.sleeping || self.is_roused(edges, i)),
                None => false,
            }
        } else {
            false
        }
    }

    /// The island that solves an interaction between the two bodies: that of
    /// the first if it is active, else that of the second if it is; none when
    /// neither is being simulated.
    pub open spec fn island_holding(self, body1: RigidBodyHandle, body2: RigidBodyHandle) -> Option<int> {
        if self.active(body1.0 as int) {
            Some(self.island_of(body1.0 as int))
        } else if self.active(body2.0 as int) {
            Some(self.island_of(body2.0 as int))
        } else {
            None
        }
    }

    /// The island that solves an interaction between the two bodies.
    pub fn island_of_interaction(&self, body1: RigidBodyHandle, body2: RigidBodyHandle) -> (island: Option<
        usize,
    >)
        ensures
            match island {
                Some(i) => self.island_holding(body1, body2) == Some(i as int),
                None => self.island_holding(body1, body2) is None,
            },
    {
        let first: Option<Placement> = match self.get(body1) {
            Some(body) => body.placement,
            None => None,
        };
        match first {
            Some(p) => Some(p.island),
            None => {
                match self.get(body2) {
                    Some(body) => match body.placement {
                        Some(p) => Some(p.island),
                        None => None,
                    },
                    None => None,
                }
            },
        }
    }

    /// Whether `self` is `pre` after more bodies have joined the active set:
    /// what was active stays where it was, and nothing else has changed.
    pub open spec fn extends(self, pre: RigidBodySet) -> bool {
        &&& self.keeps_places(pre)
        &&& self.slots@.len() == pre.slots@.len()
        &&& self.active_islands@ == pre.active_islands@
        &&& self.active_dynamic_set@.len() >= pre.active_dynamic_set@.len()
        &&& forall|p: int|
            0 <= p < pre.active_dynamic_set@.len() ==> #[trigger] self.active_dynamic_set@[p]
                == pre.active_dynamic_set@[p]
        &&& forall|i: int| self.dynamic_at(i) == pre.dynamic_at(i)
    }

    /// Follows a tie from the body at index `head` of the active set to the
    /// body in slot `o`: a dynamic body that is not active yet joins the set.
    fn reach(
        &mut self,
        o: usize,
        Ghost(before): Ghost<RigidBodySet>,
        Ghost(edges): Ghost<Seq<Option<Edge>>>,
        Ghost(min_island_size): Ghost<usize>,
        Ghost(start): Ghost<int>,
        Ghost(head): Ghost<int>,
        Ghost(via): Ghost<int>,
    )
        requires
            old(self).growing(before, edges, min_island_size, start, head),
            head < old(self).active_dynamic_set@.len(),
            0 <= via < edges.len(),
            edges[via] is Some,
            edges[via]->Some_0.links(o as int, old(self).active_dynamic_set@[head] as int),
        ensures
            final(self).growing(before, edges, min_island_size, start, head),
            final(self).extends(*old(self)),
            final(self).settled(old(self).active_dynamic_set@[head] as int, o as int),
    {
        let ghost h = self.active_dynamic_set@[head] as int;
        proof {
            assert(self.placed_well(head));
        }
        if o < self.slots.len() {
            match self.slots[o] {
                Some(body) => {
                    if body.is_dynamic() {
                        if body.placement.is_none() {
                            let ghost pre = *self;
                            self.place(o);
                            proof {
                                assert(self.active_dynamic_set@[head] == pre.active_dynamic_set@[head]);
                                assert(edges[via]->Some_0.links(
                                    self.active_dynamic_set@[pre.active_dynamic_set@.len() as int] as int,
                                    self.active_dynamic_set@[head] as int,
                                ));
                                assert(self.reached(edges, pre.active_dynamic_set@.len() as int));
                                lemma_place_keeps_growing(
                                    pre,
                                    *self,
                                    before,
                                    edges,
                                    min_island_size,
                                    start,
                                    head,
                                    o as int,
                                );
                                assert(self.at(h) == pre.at(h));
                            }
                        } else {
                            proof {
                                let q = body.placement->Some_0.offset as int;
                                assert(self.indexed(o as int));
                                assert(self.placed_well(q));
                                if q < head {
                                    assert(self.followed(edges, q, via));
                                }
                            }
                        }
                    }
                },
                None => {},
            }
        }
    }

    /// Follows every tie of the body at index `head` of the active set.
    fn follow_ties(
        &mut self,
        edges: &Vec<Option<Edge>>,
        head: usize,
        Ghost(before): Ghost<RigidBodySet>,
        Ghost(min_island_size): Ghost<usize>,
        Ghost(start): Ghost<int>,
    )
        requires
            old(self).growing(before, edges@, min_island_size, start, head as int),
            head < old(self).active_dynamic_set@.len(),
        ensures
            final(self).growing(before, edges@, min_island_size, start, head + 1),
            final(self).extends(*old(self)),
    {
        let h: usize = self.active_dynamic_set[head];
        let mut c: usize = 0;
        proof {
            assert(self.placed_well(head as int));
        }
        while c < edges.len()
            invariant
                c <= edges@.len(),
                head < self.active_dynamic_set@.len(),
                self.active_dynamic_set@[head as int] == h,
                self.active(h as int),
                self.growing(before, edges@, min_island_size, start, head as int),
                self.extends(*old(self)),
                forall|k: int| 0 <= k < c ==> #[trigger] self.followed(edges@, head as int, k),
            decreases edges@.len() - c,
        {
            match edges[c] {
                Some(e) => {
                    if e.body1 == h {
                        let ghost pre = *self;
                        self.reach(
                            e.body2,
                            Ghost(before),
                            Ghost(edges@),
                            Ghost(min_island_size),
                            Ghost(start),
                            Ghost(head as int),
                            Ghost(c as int),
                        );
                        proof {
                            lemma_extends_chain(*old(self), pre, *self);
                            assert forall|k: int| 0 <= k < c implies #[trigger] self.followed(
                                edges@,
                                head as int,
                                k,
                            ) by {
                                assert(pre.followed(edges@, head as int, k));
                                lemma_handled_stays(pre, *self, h as int, edges@, k);
                            }
                        }
                    }
                    if e.body2 == h {
                        let ghost pre = *self;
                        self.reach(
                            e.body1,
                            Ghost(before),
                            Ghost(edges@),
                            Ghost(min_island_size),
                            Ghost(start),
                            Ghost(head as int),
                            Ghost(c as int),
                        );
                        proof {
                            lemma_extends_chain(*old(self), pre, *self);
                            assert forall|k: int| 0 <= k < c implies #[trigger] self.followed(
                                edges@,
                                head as int,
                                k,
                            ) by {
                                assert(pre.followed(edges@, head as int, k));
                                lemma_handled_stays(pre, *self, h as int, edges@, k);
                            }
                            if e.body1 == h {
                                assert(pre.settled(h as int, e.body2 as int));
                                assert(self.settled(h as int, e.body2 as int));
                            }
                        }
                    }
                    assert(self.followed(edges@, head as int, c as int));
                },
                None => {
                    assert(self.followed(edges@, head as int, c as int));
                },
            }
            c = c + 1;
        }
    }

    /// Rebuilds the active set over the graph `edges`: a dynamic body is
    /// simulated when it is awake, when a moving kinematic body is tied to it,
    /// or when it is tied, through dynamic bodies, to one that is. Bodies that
    /// are tied to each other go to one island; an island is closed, and the
    /// next one begun, once it holds at least `min_island_size` bodies and the
    /// bodies tied to them.
    pub fn update_active_set(&mut self, edges: &Vec<Option<Edge>>, min_island_size: usize)
        ensures
            final(self).partitions(*old(self), edges@, min_island_size),
    {
        let n: usize = self.slots.len();
        self.clear_active_set();
        let mut s: usize = 0;
        while s < n
            invariant
                s <= n,
                n == self.slots@.len(),
                self.growing(
                    *old(self),
                    edges@,
                    min_island_size,
                    self.active_dynamic_set@.len() as int,
                    self.active_dynamic_set@.len() as int,
                ),
                forall|i: int|
                    0 <= i < s ==> (#[trigger] old(self).seed(edges@, i) ==> self.active(i)),
                self.active_dynamic_set@.len() == 0 || self.active_islands@.last()
                    < self.active_dynamic_set@.len(),
            decreases n - s,
        {
            let unplaced: bool = match self.slots[s] {
                Some(body) => body.placement.is_none(),
                None => false,
            };
            proof {
                lemma_seed_same(*self, *old(self), edges@, s as int);
            }
            if unplaced && self.is_seed(edges, s) {
                let len: usize = self.active_dynamic_set.len();
                let last: usize = self.active_islands[self.active_islands.len() - 1];
                if len - last >= 1 && len - last >= min_island_size {
                    let ghost pre = *self;
                    self.active_islands.push(len);
                    proof {
                        lemma_new_island(pre, *self, *old(self), edges@, min_island_size);
                    }
                }
                let ghost pre = *self;
                self.place(s);
                proof {
                    lemma_place_keeps_growing(
                        pre,
                        *self,
                        *old(self),
                        edges@,
                        min_island_size,
                        len as int,
                        len as int,
                        s as int,
                    );
                }
                let mut head: usize = len;
                while head < self.active_dynamic_set.len()
                    invariant
                        s < n,
                        n == self.slots@.len(),
                        len <= head <= self.active_dynamic_set@.len(),
                        self.growing(*old(self), edges@, min_island_size, len as int, head as int),
                        self.active(s as int),
                        forall|i: int|
                            0 <= i < s ==> (#[trigger] old(self).seed(edges@, i) ==> self.active(i)),
                        self.active_islands@.last() < self.active_dynamic_set@.len(),
                    decreases n - head,
                {
                    proof {
                        lemma_active_set_bounded(*self);
                    }
                    self.follow_ties(edges, head, Ghost(*old(self)), Ghost(min_island_size), Ghost(len as int));
                    head = head + 1;
                }
            }
            s = s + 1;
        }
        let ghost pre = *self;
        self.active_islands.push(self.active_dynamic_set.len());
        proof {
            assert forall|i: int| 0 <= i < pre.slots@.len() implies #[trigger] pre.seeded(
                *old(self),
                edges@,
                i,
            ) by {}
            lemma_growing_done(pre, *self, *old(self), edges@, min_island_size);
        }
    }

    /// Rebuilds the active set over the contacts of `narrow_phase` and the
    /// joints of `joint_graph`.
    pub fn update_active_set_with_contacts(
        &mut self,
        narrow_phase: &NarrowPhase,
        joint_graph: &Vec<Option<Joint>>,
        min_island_size: usize,
    )
        ensures
            final(self).partitions(
                *old(self),
                interaction_graph(narrow_phase.pairs@, joint_graph@),
                min_island_size,
            ),
    {
        let edges = collect_interactions(narrow_phase, joint_graph);
        self.update_active_set(&edges, min_island_size);
    }

    /// Empties the active set: no body has a place in it.
    fn clear_active_set(&mut self)
        ensures
            final(self).slots@.len() == old(self).slots@.len(),
            final(self).active_dynamic_set@.len() == 0,
            final(self).active_islands@ == seq![0usize],
            final(self).modified_inactive_set@ == old(self).modified_inactive_set@,
            forall|i: int|
                0 <= i < old(self).slots@.len() ==> #[trigger] final(self).slots@[i] == (match old(
                    self,
                ).slots@[i] {
                    Some(body) => Some(RigidBody { placement: None, ..body }),
                    None => None,
                }),
            forall|before: RigidBodySet, edges: Seq<Option<Edge>>, min_island_size: usize|
                before == *old(self) ==> #[trigger] final(self).growing(before, edges, min_island_size, 0, 0),
    {
        let n: usize = self.slots.len();
        let mut i: usize = 0;
        while i < n
            invariant
                i <= n,
                n == self.slots@.len(),
                n == old(self).slots@.len(),
                self.modified_inactive_set@ == old(self).modified_inactive_set@,
                forall|k: int|
                    0 <= k < i ==> #[trigger] self.slots@[k] == (match old(self).slots@[k] {
                        Some(body) => Some(RigidBody { placement: None, ..body }),
                        None => None,
                    }),
                forall|k: int| i <= k < n ==> self.slots@[k] == old(self).slots@[k],
            decreases n - i,
        {
            match self.slots[i] {
                Some(body) => {
                    let mut cleared = body;
                    cleared.placement = None;
                    self.slots.set(i, Some(cleared));
                },
                None => {},
            }
            i = i + 1;
        }
        self.active_dynamic_set.clear();
        self.active_islands.clear();
        self.active_islands.push(0);
        proof {
            assert(self.active_islands@ =~= seq![0usize]);
            assert forall|k: int| 0 <= k < self.slots@.len() implies #[trigger] self.woken(*old(self), k) by {
                assert(self.slots@[k] == (match old(self).slots@[k] {
                    Some(body) => Some(RigidBody { placement: None, ..body }),
                    None => None,
                }));
            }
            assert forall|k: int| 0 <= k < self.slots@.len() implies #[trigger] self.indexed(k) by {
                assert(self.slots@[k] == (match old(self).slots@[k] {
                    Some(body) => Some(RigidBody { placement: None, ..body }),
                    None => None,
                }));
            }
        }
    }
}

/// Joining the active set in two rounds is joining it.
pub proof fn lemma_extends_chain(first: RigidBodySet, second: RigidBodySet, third: RigidBodySet)
    requires
        second.extends(first),
        third.extends(second),
    ensures
        third.extends(first),
{
    assert forall|i: int| #[trigger] first.active(i) implies third.active(i) && third.at(i) == first.at(
        i,
    ) by {
        assert(second.active(i));
    }
    assert forall|p: int| 0 <= p < first.active_dynamic_set@.len() implies #[trigger] third.active_dynamic_set@[p]
        == first.active_dynamic_set@[p] by {
        assert(second.active_dynamic_set@[p] == first.active_dynamic_set@[p]);
    }
}

/// A list of distinct slots of a set is no longer than the set.
pub proof fn lemma_distinct_bounded(s: Seq<usize>, n: int)
    requires
        n >= 0,
        forall|i: int| 0 <= i < s.len() ==> s[i] < n,
        forall|i: int, j: int| 0 <= i < j < s.len() ==> s[i] != s[j],
    ensures
        s.len() <= n,
    decreases n,
{
    if s.len() > 0 {
        assert(s[0] < n);
        if exists|k: int| 0 <= k < s.len() && s[k] == n - 1 {
            let k = choose|k: int| 0 <= k < s.len() && s[k] == n - 1;
            let t = s.remove(k);
            assert forall|i: int| 0 <= i < t.len() implies t[i] < n - 1 by {
                if i < k {
                    assert(t[i] == s[i]);
                } else {
                    assert(t[i] == s[i + 1]);
                }
            }
            assert forall|i: int, j: int| 0 <= i < j < t.len() implies t[i] != t[j] by {
                let a = if i < k {
                    i
                } else {
                    i + 1
                };
                let b = if j < k {
                    j
                } else {
                    j + 1
                };
                assert(t[i] == s[a]);
                assert(t[j] == s[b]);
            }
            lemma_distinct_bounded(t, n - 1);
        } else {
            lemma_distinct_bounded(s, n - 1);
        }
    }
}

/// The active set never lists more bodies than there are slots.
pub proof fn lemma_active_set_bounded(bodies: RigidBodySet)
    requires
        forall|p: int| 0 <= p < bodies.active_dynamic_set@.len() ==> #[trigger] bodies.placed_well(p),
    ensures
        bodies.active_dynamic_set@.len() <= bodies.slots@.len(),
{
    let set = bodies.active_dynamic_set@;
    assert forall|i: int| 0 <= i < set.len() implies set[i] < bodies.slots@.len() by {
        assert(bodies.placed_well(i));
    }
    assert forall|i: int, j: int| 0 <= i < j < set.len() implies set[i] != set[j] by {
        assert(bodies.placed_well(i));
        assert(bodies.placed_well(j));
    }
    lemma_distinct_bounded(set, bodies.slots@.len() as int);
}

/// Whether the construction starts from a body does not change while the
/// body is inactive.
pub proof fn lemma_seed_same(now: RigidBodySet, before: RigidBodySet, edges: Seq<Option<Edge>>, s: int)
    requires
        now.wakes(before),
        0 <= s < now.slots@.len(),
    ensures
        !now.active(s) ==> now.seed(edges, s) == before.seed(edges, s),
{
    assert(now.woken(before, s));
    if now.roused(edges, s) {
        let (k, o) = choose|k: int, o: int|
            0 <= k < edges.len() && (#[trigger] edges[k]) is Some && now.pusher_at(o)
                && #[trigger] edges[k]->Some_0.links(s, o);
        assert(now.woken(before, o));
        assert(before.pusher_at(o));
    }
    if before.roused(edges, s) {
        let (k, o) = choose|k: int, o: int|
            0 <= k < edges.len() && (#[trigger] edges[k]) is Some && before.pusher_at(o)
                && #[trigger] edges[k]->Some_0.links(s, o);
        assert(now.woken(before, o));
        assert(now.pusher_at(o));
    }
}

/// Closing the island that is being filled, once it is full and no group of
/// tied bodies is being collected, keeps the construction in order.
pub proof fn lemma_new_island(
    pre: RigidBodySet,
    post: RigidBodySet,
    before: RigidBodySet,
    edges: Seq<Option<Edge>>,
    min_island_size: usize,
)
    requires
        pre.growing(
            before,
            edges,
            min_island_size,
            pre.active_dynamic_set@.len() as int,
            pre.active_dynamic_set@.len() as int,
        ),
        pre.active_dynamic_set@.len() - pre.active_islands@.last() >= 1,
        pre.active_dynamic_set@.len() - pre.active_islands@.last() >= min_island_size,
        pre.active_dynamic_set@.len() <= usize::MAX,
        post.slots@ == pre.slots@,
        post.active_dynamic_set@ == pre.active_dynamic_set@,
        post.modified_inactive_set@ == pre.modified_inactive_set@,
        post.active_islands@ == pre.active_islands@.push(pre.active_dynamic_set@.len() as usize),
    ensures
        post.growing(
            before,
            edges,
            min_island_size,
            pre.active_dynamic_set@.len() as int,
            pre.active_dynamic_set@.len() as int,
        ),
{
    let len = pre.active_dynamic_set@.len() as int;
    let starts = post.active_islands@;
    assert forall|i: int| 0 <= i < post.slots@.len() implies #[trigger] post.woken(before, i) by {
        assert(pre.woken(before, i));
    }
    assert forall|i: int, j: int| 0 <= i <= j < starts.len() implies starts[i] <= starts[j] by {
        if j == starts.len() - 1 {
            if i < j {
                assert(pre.active_islands@[i] <= pre.active_islands@.last());
            }
        }
    }
    assert forall|i: int| 0 <= i && i + 1 < starts.len() implies #[trigger] post.filled(
        min_island_size,
        i,
    ) by {
        if i + 2 < starts.len() {
            assert(pre.filled(min_island_size, i));
        }
    }
    assert forall|p: int| 0 <= p < len implies #[trigger] post.placed_well(p) by {
        assert(pre.placed_well(p));
    }
    assert forall|i: int| 0 <= i < post.slots@.len() implies #[trigger] post.indexed(i) by {
        assert(pre.indexed(i));
    }
    assert forall|p: int, k: int| 0 <= p < len && 0 <= k < edges.len() implies #[trigger] post.followed(
        edges,
        p,
        k,
    ) by {
        assert(pre.followed(edges, p, k));
    }
    assert forall|p: int| 0 <= p < len implies #[trigger] post.rooted(before, edges, p) by {
        assert(pre.rooted(before, edges, p));
    }
    if min_island_size <= 1 {
        assert forall|p: int| 0 <= p < len implies #[trigger] post.founded(edges, p) by {
            assert(pre.founded(edges, p));
            assert(pre.placed_well(p));
        }
    }
}

/// Once every body that the construction starts from has had its ties
/// followed, closing the last island completes the construction.
pub proof fn lemma_growing_done(
    pre: RigidBodySet,
    post: RigidBodySet,
    before: RigidBodySet,
    edges: Seq<Option<Edge>>,
    min_island_size: usize,
)
    requires
        pre.growing(
            before,
            edges,
            min_island_size,
            pre.active_dynamic_set@.len() as int,
            pre.active_dynamic_set@.len() as int,
        ),
        forall|i: int| 0 <= i < pre.slots@.len() ==> #[trigger] pre.seeded(before, edges, i),
        pre.active_dynamic_set@.len() == 0 || pre.active_islands@.last() < pre.active_dynamic_set@.len(),
        pre.active_dynamic_set@.len() <= usize::MAX,
        post.slots@ == pre.slots@,
        post.active_dynamic_set@ == pre.active_dynamic_set@,
        post.modified_inactive_set@ == pre.modified_inactive_set@,
        post.active_islands@ == pre.active_islands@.push(pre.active_dynamic_set@.len() as usize),
    ensures
        post.partitions(before, edges, min_island_size),
{
    let len = pre.active_dynamic_set@.len() as int;
    let set = post.active_dynamic_set@;
    let starts = post.active_islands@;
    assert forall|i: int| 0 <= i < post.slots@.len() implies #[trigger] post.woken(before, i) by {
        assert(pre.woken(before, i));
    }
    assert forall|i: int| 0 <= i < post.slots@.len() implies #[trigger] post.seeded(before, edges, i) by {
        assert(pre.seeded(before, edges, i));
    }
    assert forall|p: int| 0 <= p < len implies #[trigger] post.rooted(before, edges, p) by {
        assert(pre.rooted(before, edges, p));
    }
    assert forall|i: int| 0 <= i && i + 2 < starts.len() implies #[trigger] post.filled(
        min_island_size,
        i,
    ) by {
        assert(pre.filled(min_island_size, i));
    }
    if min_island_size <= 1 {
        assert forall|p: int| 0 <= p < len implies #[trigger] post.founded(edges, p) by {
            assert(pre.founded(edges, p));
            assert(pre.placed_well(p));
        }
    }
    assert forall|k: int| 0 <= k < edges.len() implies #[trigger] post.respects(edges, k) by {
        if edges[k] is Some {
            let e = edges[k]->Some_0;
            let a = e.body1 as int;
            let b = e.body2 as int;
            if post.dynamic_at(a) && post.dynamic_at(b) {
                if post.active(a) {
                    assert(pre.indexed(a));
                    assert(pre.followed(edges, pre.at(a).placement->Some_0.offset as int, k));
                }
                if post.active(b) {
                    assert(pre.indexed(b));
                    assert(pre.followed(edges, pre.at(b).placement->Some_0.offset as int, k));
                }
            }
        }
    }
    assert forall|i: int, j: int| 0 <= i <= j < starts.len() implies starts[i] <= starts[j] by {
        if j == starts.len() - 1 {
            if i < j {
                assert(pre.active_islands@[i] <= pre.active_islands@.last());
            }
        }
    }
    assert forall|k: int| 0 <= k < set.len() implies {
        &&& post.active(#[trigger] set[k] as int)
        &&& post.at(set[k] as int).dynamic()
        &&& post.at(set[k] as int).placement->Some_0.offset == k
        &&& post.island_covers(post.island_of(set[k] as int), k)
    } by {
        assert(pre.placed_well(k));
    }
    assert forall|i: int| #[trigger] post.active(i) implies {
        &&& post.at(i).placement->Some_0.offset < set.len()
        &&& set[post.at(i).placement->Some_0.offset as int] == i
    } by {
        assert(pre.indexed(i));
    }
    assert(post.islands_wf());
}

/// Appending an inactive dynamic body to the active set keeps the
/// construction in order, provided the body is one that the construction
/// starts from, or was reached along a tie.
pub proof fn lemma_place_keeps_growing(
    pre: RigidBodySet,
    post: RigidBodySet,
    before: RigidBodySet,
    edges: Seq<Option<Edge>>,
    min_island_size: usize,
    start: int,
    head: int,
    slot: int,
)
    requires
        pre.growing(before, edges, min_island_size, start, head),
        pre.dynamic_at(slot),
        !pre.active(slot),
        post.follows_placing(pre, slot),
        post.rooted(before, edges, pre.active_dynamic_set@.len() as int),
        min_island_size <= 1 ==> pre.active_islands@.last() == pre.active_dynamic_set@.len() || post.reached(
            edges,
            pre.active_dynamic_set@.len() as int,
        ),
        slot <= usize::MAX,
    ensures
        post.growing(before, edges, min_island_size, start, head),
        post.keeps_places(pre),
        post.active(slot),
        post.island_of(slot) == pre.active_islands@.len() - 1,
        post.at(slot).placement->Some_0.offset == pre.active_dynamic_set@.len(),
{
    let set = post.active_dynamic_set@;
    let old_set = pre.active_dynamic_set@;
    let len = old_set.len() as int;
    assert(post.keeps_places(pre));
    assert forall|i: int| 0 <= i < post.slots@.len() implies #[trigger] post.woken(before, i) by {
        assert(pre.woken(before, i));
    }
    assert forall|i: int| 0 <= i && i + 1 < post.active_islands@.len() implies #[trigger] post.filled(
        min_island_size,
        i,
    ) by {
        assert(pre.filled(min_island_size, i));
    }
    assert forall|p: int| 0 <= p < set.len() implies #[trigger] post.placed_well(p) by {
        if p < len {
            assert(pre.placed_well(p));
            assert(set[p] == old_set[p]);
        }
    }
    assert forall|i: int| 0 <= i < post.slots@.len() implies #[trigger] post.indexed(i) by {
        if i != slot {
            assert(pre.indexed(i));
            if pre.active(i) {
                assert(set[pre.at(i).placement->Some_0.offset as int] == old_set[pre.at(
                    i,
                ).placement->Some_0.offset as int]);
            }
        }
    }
    assert forall|p: int, k: int| 0 <= p < head && 0 <= k < edges.len() implies #[trigger] post.followed(
        edges,
        p,
        k,
    ) by {
        assert(set[p] == old_set[p]);
        assert(pre.placed_well(p));
        assert(pre.followed(edges, p, k));
        lemma_handled_stays(pre, post, old_set[p] as int, edges, k);
    }
    assert forall|p: int| 0 <= p < set.len() implies #[trigger] post.rooted(before, edges, p) by {
        if p < len {
            assert(pre.rooted(before, edges, p));
            assert(set[p] == old_set[p]);
            if !before.seed(edges, old_set[p] as int) {
                lemma_reached_stays(pre, post, edges, p);
            }
        }
    }
    if min_island_size <= 1 {
        assert forall|p: int| 0 <= p < set.len() implies #[trigger] post.founded(edges, p) by {
            if p < len {
                assert(pre.founded(edges, p));
                assert(pre.placed_well(p));
                assert(set[p] == old_set[p]);
                if pre.reached(edges, p) {
                    lemma_reached_stays(pre, post, edges, p);
                }
            } else {
                assert(post.placed_well(p));
            }
        }
    }
}

/// A body that was reached from a body before it stays so when other bodies
/// join the active set.
pub proof fn lemma_reached_stays(pre: RigidBodySet, post: RigidBodySet, edges: Seq<Option<Edge>>, p: int)
    requires
        0 <= p < pre.active_dynamic_set@.len(),
        post.active_dynamic_set@.len() >= pre.active_dynamic_set@.len(),
        forall|q: int|
            0 <= q < pre.active_dynamic_set@.len() ==> #[trigger] post.active_dynamic_set@[q]
                == pre.active_dynamic_set@[q],
        pre.reached(edges, p),
    ensures
        post.reached(edges, p),
{
    let old_set = pre.active_dynamic_set@;
    let set = post.active_dynamic_set@;
    let (k, q) = choose|k: int, q: int|
        0 <= k < edges.len() && 0 <= q < p && (#[trigger] edges[k]) is Some && edges[k]->Some_0.links(
            old_set[p] as int,
            #[trigger] old_set[q] as int,
        );
    assert(set[q] == old_set[q]);
    assert(set[p] == old_set[p]);
    assert(edges[k]->Some_0.links(set[p] as int, set[q] as int));
}

/// What was followed from an active body stays followed when other bodies
/// join the active set.
pub proof fn lemma_handled_stays(pre: RigidBodySet, post: RigidBodySet, h: int, edges: Seq<Option<Edge>>, k: int)
    requires
        post.keeps_places(pre),
        post.slots@.len() == pre.slots@.len(),
        forall|i: int| post.dynamic_at(i) == pre.dynamic_at(i),
        pre.active(h),
        0 <= k < edges.len(),
        edges[k] is Some ==> pre.handled(h, edges[k]->Some_0),
    ensures
        edges[k] is Some ==> post.handled(h, edges[k]->Some_0),
{
    if edges[k] is Some {
        let e = edges[k]->Some_0;
        if e.body1 == h && post.dynamic_at(e.body2 as int) {
            assert(pre.dynamic_at(e.body2 as int));
            assert(pre.active(e.body2 as int));
        }
        if e.body2 == h && post.dynamic_at(e.body1 as int) {
            assert(pre.dynamic_at(e.body1 as int));
            assert(pre.active(e.body1 as int));
        }
    }
}

} // verus!
