//! Query languages (`q`, `scopeQ`), their evaluation, and query planning.
pub mod language;
pub mod scope;
pub mod eval;
pub mod types;
pub mod planner;
pub mod context;
