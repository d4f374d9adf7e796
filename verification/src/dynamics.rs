//! Bodies, joints and what moves them.

pub mod ccd_solver;
pub mod integration_parameters;
pub mod island_dispatcher;
pub mod island_solver;
pub mod islands;
pub mod joint;
pub mod rigid_body;
pub mod rigid_body_set;
