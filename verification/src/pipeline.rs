//! The stepping function and what it is built from.

pub mod event_handler;
pub mod physics_hooks;
pub mod physics_pipeline;
pub mod step_laws;
pub mod step_run;
pub mod substep;
pub mod voxel_fracture_hooks;
