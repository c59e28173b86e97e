//! An NGSI-LD context broker's core: the `q` and `scopeQ` query languages,
//! query planning, JSON helpers, federation membership rules, header and
//! time helpers, with their contracts.
use vstd::prelude::*;

pub mod api;
pub mod config;
pub mod domain;
pub mod error;
pub mod federation;
pub mod headers;
pub mod json;
pub mod links;
pub mod number;
pub mod persistence;
pub mod query;
pub mod scan;
pub mod services;
pub mod store;
pub mod text;
pub mod time;
pub mod watch;

verus! {

} // verus!
