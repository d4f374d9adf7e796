//! The joints of a world: the edges of the joint graph.

use crate::dynamics::joint::generic_joint::GenericJoint;
use crate::dynamics::rigid_body_set::{RigidBodyHandle, RigidBodySet};
use crate::sequences::{lemma_take_all, lemma_take_step};
use vstd::prelude::*;

verus! {

/// Names a joint of a `JointSet`. A handle is never given out twice.
#[derive(Copy, Clone, Debug, PartialEq, Eq, Structural)]
pub struct JointHandle(pub usize);

/// A joint and the two bodies that it holds together.
#[derive(Copy, Clone, Debug, PartialEq, Eq, Structural)]
pub struct Joint {
    pub body1: RigidBodyHandle,
    pub body2: RigidBodyHandle,
    pub params: GenericJoint,
}

impl Joint {
    /// Whether the joint holds `body`.
    pub open spec fn holds(self, body: RigidBodyHandle) -> bool {
        self.body1 == body || self.body2 == body
    }
}

/// The joints of a world.
pub struct JointSet {
    /// One slot per handle ever given out; empty once the joint is removed.
    pub slots: Vec<Option<Joint>>,
}

impl JointSet {
    /// Whether `handle` names a joint of the set.
    pub open spec fn contains(self, handle: JointHandle) -> bool {
        handle.0 < self.slots@.len() && self.slots@[handle.0 as int] is Some
    }

    /// The joint that `handle` names.
    pub open spec fn joint(self, handle: JointHandle) -> Joint {
        self.slots@[handle.0 as int]->Some_0
    }

    /// The slots once every joint that holds `body` has been dropped.
    pub open spec fn without_joints_of(self, body: RigidBodyHandle) -> Seq<Option<Joint>> {
        Seq::new(
            self.slots@.len(),
            |i: int|
                if self.slots@[i] is Some && self.slots@[i]->Some_0.holds(body) {
                    None
                } else {
                    self.slots@[i]
                },
        )
    }

    /// An empty set.
    pub fn new() -> (set: JointSet)
        ensures
            set.slots@.len() == 0,
    {
        JointSet { slots: Vec::new() }
    }

    /// Number of handles given out so far.
    pub fn len(&self) -> (n: usize)
        ensures
            n == self.slots@.len(),
    {
        self.slots.len()
    }

    /// The edges of the joint graph, one slot per handle.
    pub fn joint_graph(&self) -> (edges: &Vec<Option<Joint>>)
        ensures
            edges@ == self.slots@,
    {
        &self.slots
    }

    /// The joint that `handle` names, if there is one.
    pub fn get(&self, handle: JointHandle) -> (found: Option<Joint>)
        ensures
            found == if self.contains(handle) {
                Some(self.joint(handle))
            } else {
                None
            },
    {
        if handle.0 < self.slots.len() {
            self.slots[handle.0]
        } else {
            None
        }
    }

    /// Joins two bodies and returns the handle of the joint.
    pub fn insert(&mut self, body1: RigidBodyHandle, body2: RigidBodyHandle, params: GenericJoint) -> (handle:
        JointHandle)
        ensures
            handle.0 == old(self).slots@.len(),
            final(self).slots@ == old(self).slots@.push(Some(Joint { body1, body2, params })),
    {
        let handle = JointHandle(self.slots.len());
        self.slots.push(Some(Joint { body1, body2, params }));
        handle
    }

    /// Removes the joint that `handle` names and returns it.
    pub fn remove(&mut self, handle: JointHandle) -> (removed: Option<Joint>)
        ensures
            removed == if old(self).contains(handle) {
                Some(old(self).joint(handle))
            } else {
                None
            },
            final(self).slots@ == if old(self).contains(handle) {
                old(self).slots@.update(handle.0 as int, None)
            } else {
                old(self).slots@
            },
    {
        if handle.0 < self.slots.len() {
            let removed = self.slots[handle.0];
            if removed.is_some() {
                self.slots.set(handle.0, None);
            }
            removed
        } else {
            None
        }
    }

    /// Removes every joint that holds `body`.
    pub fn remove_joints_attached_to(&mut self, body: RigidBodyHandle)
        ensures
            final(self).slots@ == old(self).without_joints_of(body),
    {
        let n: usize = self.slots.len();
        let mut i: usize = 0;
        while i < n
            invariant
                i <= n,
                n == self.slots@.len(),
                n == old(self).slots@.len(),
                forall|k: int| 0 <= k < i ==> self.slots@[k] == old(self).without_joints_of(body)[k],
                forall|k: int| i <= k < n ==> self.slots@[k] == old(self).slots@[k],
            decreases n - i,
        {
            match self.slots[i] {
                Some(joint) => {
                    if joint.body1.0 == body.0 || joint.body2.0 == body.0 {
                        self.slots.set(i, None);
                    }
                },
                None => {},
            }
            i = i + 1;
        }
        assert(self.slots@ =~= old(self).without_joints_of(body));
    }

    /// Collects, for each island that has a list, the slots of the joints
    /// that the island solves: those that hold one of its bodies.
    pub fn select_active_interactions(&self, bodies: &RigidBodySet, out: &mut Vec<Vec<usize>>)
        ensures
            final(out)@.len() == old(out)@.len(),
            forall|i: int|
                0 <= i < final(out)@.len() ==> (#[trigger] final(out)@[i])@ == island_joints(
                    self.slots@,
                    *bodies,
                    i,
                ),
    {
        let lists: usize = out.len();
        let mut l: usize = 0;
        while l < lists
            invariant
                l <= lists,
                lists == out@.len(),
                lists == old(out)@.len(),
                forall|i: int| 0 <= i < l ==> (#[trigger] out@[i])@.len() == 0,
            decreases lists - l,
        {
            out[l].clear();
            l = l + 1;
        }
        let n: usize = self.slots.len();
        let mut j: usize = 0;
        assert forall|i: int| 0 <= i < out@.len() implies (#[trigger] out@[i])@ == island_joints(
            self.slots@.take(0),
            *bodies,
            i,
        ) by {
            assert(out@[i]@ =~= island_joints(self.slots@.take(0), *bodies, i));
        }
        while j < n
            invariant
                j <= n,
                n == self.slots@.len(),
                lists == out@.len(),
                lists == old(out)@.len(),
                forall|i: int|
                    0 <= i < out@.len() ==> (#[trigger] out@[i])@ == island_joints(
                        self.slots@.take(j as int),
                        *bodies,
                        i,
                    ),
            decreases n - j,
        {
            proof {
                lemma_take_step(self.slots@, j as int);
            }
            let ghost lists_before = out@;
            match self.slots[j] {
                Some(joint) => {
                    match bodies.island_of_interaction(joint.body1, joint.body2) {
                        Some(island) => {
                            if island < lists {
                                out[island].push(j);
                            }
                        },
                        None => {},
                    }
                },
                None => {},
            }
            assert forall|i: int| 0 <= i < out@.len() implies (#[trigger] out@[i])@ == island_joints(
                self.slots@.take(j + 1),
                *bodies,
                i,
            ) by {
                assert(lists_before[i]@ == island_joints(self.slots@.take(j as int), *bodies, i));
            }
            j = j + 1;
        }
        proof {
            lemma_take_all(self.slots@);
        }
    }
}

/// The slots, in ascending order, of the joints among `slots` that island
/// `island` solves.
pub open spec fn island_joints(slots: Seq<Option<Joint>>, bodies: RigidBodySet, island: int) -> Seq<usize>
    decreases slots.len(),
{
    if slots.len() == 0 {
        Seq::empty()
    } else if slots.last() is Some && bodies.island_holding(
        slots.last()->Some_0.body1,
        slots.last()->Some_0.body2,
    ) == Some(island) {
        island_joints(slots.drop_last(), bodies, island).push((slots.len() - 1) as usize)
    } else {
        island_joints(slots.drop_last(), bodies, island)
    }
}

} // verus!
