//! Service rules of the broker.
pub mod common;
pub mod discovery;
pub mod entities;
pub mod entity_query;
pub mod subscriptions;
pub mod federation;
pub mod info;
pub mod swarm;
