//! Compiling resolved rules into lookups, features and scripts.

pub mod lookups;
pub mod tables;
pub mod tags;
