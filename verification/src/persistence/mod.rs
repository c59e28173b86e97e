//! Storage of the broker: repository rules and in-memory repositories.
pub mod repository;
pub mod memory;
pub mod swarm;
