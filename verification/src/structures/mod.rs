//! Data structures shared by configurations.
pub mod general;
