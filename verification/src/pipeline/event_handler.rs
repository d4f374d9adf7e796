//! What a step reports to its caller.

use crate::geometry::collider::ColliderHandle;
use vstd::prelude::*;

verus! {

/// Two colliders have started or stopped touching.
#[derive(Copy, Clone, Debug, PartialEq, Eq, Structural)]
pub enum ContactEvent {
    Started(ColliderHandle, ColliderHandle),
    Stopped(ColliderHandle, ColliderHandle),
}

/// A sensor has started or stopped overlapping another collider.
#[derive(Copy, Clone, Debug, PartialEq, Eq, Structural)]
pub struct IntersectionEvent {
    pub collider1: ColliderHandle,
    pub collider2: ColliderHandle,
    pub intersecting: bool,
}

/// A collider has broken into pieces.
#[derive(Clone, Debug)]
pub struct FractureEvent {
    pub fractured_collider: ColliderHandle,
    pub fragments: Vec<ColliderHandle>,
}

/// One notification of a step. A step appends its notifications, in the
/// order in which they arise, to the list that its caller hands it.
#[derive(Clone, Debug)]
pub enum PhysicsEvent {
    Contact(ContactEvent),
    Intersection(IntersectionEvent),
    Fracture(FractureEvent),
}

} // verus!
