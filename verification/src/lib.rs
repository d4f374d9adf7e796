//! One fixed-step advance of a rigid-body world: collision refresh, island
//! construction, per-island constraint solving and continuous collision
//! detection substepping, on integer coordinates.

pub mod counters;
pub mod dynamics;
pub mod geometry;
pub mod math;
pub mod pipeline;
pub mod sequences;
