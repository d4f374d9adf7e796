//! Joints between rigid bodies.

pub mod fixed_joint;
pub mod generic_joint;
pub mod joint_set;
