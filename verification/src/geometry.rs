//! Colliders and collision detection.

pub mod active_contacts;
pub mod broad_phase;
pub mod collider;
pub mod narrow_phase;
pub mod shape;
