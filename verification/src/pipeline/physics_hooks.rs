//! Decisions that the caller of a step may take over.

use crate::geometry::collider::ColliderHandle;
use vstd::prelude::*;

verus! {

/// Lets the caller decide which pairs of colliders may touch, and how hard
/// their contacts push. The answers must depend on what is asked alone: each
/// hook returns what the function of the same meaning says of its arguments.
pub trait PhysicsHooks {
    /// Whether contacts between the two colliders are to be computed.
    spec fn allows_contact(&self, collider1: ColliderHandle, collider2: ColliderHandle) -> bool;

    /// Whether overlaps of the two colliders, one of them a sensor, are to be reported.
    spec fn allows_intersection(&self, collider1: ColliderHandle, collider2: ColliderHandle) -> bool;

    /// The distance that the solver is to take for the distance `distance`
    /// of the two colliders. The solver lets the two approach each other by
    /// no more than that: a larger distance softens the contact, a smaller
    /// one keeps the two farther apart.
    spec fn solver_distance(&self, collider1: ColliderHandle, collider2: ColliderHandle, distance: i64) -> i64;

    fn filter_contact_pair(&self, collider1: ColliderHandle, collider2: ColliderHandle) -> (allowed: bool)
        ensures
            allowed == self.allows_contact(collider1, collider2),
    ;

    fn modify_solver_contacts(&self, collider1: ColliderHandle, collider2: ColliderHandle, distance: i64) -> (modified:
        i64)
        ensures
            modified == self.solver_distance(collider1, collider2, distance),
    ;

    fn filter_intersection_pair(&self, collider1: ColliderHandle, collider2: ColliderHandle) -> (allowed:
        bool)
        ensures
            allowed == self.allows_intersection(collider1, collider2),
    ;
}

/// The hooks that let every pair through and change nothing.
impl PhysicsHooks for () {
    open spec fn solver_distance(&self, collider1: ColliderHandle, collider2: ColliderHandle, distance: i64) -> i64 {
        distance
    }

    fn modify_solver_contacts(&self, collider1: ColliderHandle, collider2: ColliderHandle, distance: i64) -> (modified:
        i64) {
        distance
    }

    open spec fn allows_contact(&self, collider1: ColliderHandle, collider2: ColliderHandle) -> bool {
        true
    }

    open spec fn allows_intersection(&self, collider1: ColliderHandle, collider2: ColliderHandle) -> bool {
        true
    }

    fn filter_contact_pair(&self, collider1: ColliderHandle, collider2: ColliderHandle) -> (allowed: bool) {
        true
    }

    fn filter_intersection_pair(&self, collider1: ColliderHandle, collider2: ColliderHandle) -> (allowed:
        bool) {
        true
    }
}

} // verus!
