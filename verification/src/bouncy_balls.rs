//! Data carried by the bouncing-ball entities.
pub mod data;
