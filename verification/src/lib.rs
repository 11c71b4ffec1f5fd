//! Deterministic, resource-bounded semantic change planning.

pub mod base_read;
pub mod diagnostic;
pub mod dimension;
pub mod budget;
pub mod digest;
pub mod kernel;
pub mod delta;
pub mod overlay;
pub mod impact;
pub mod binary64;
pub mod bootstrap;
pub mod derived;
pub mod relation_view;
pub mod authority;
pub mod persistence;
pub mod artifact;
pub mod witness;
pub mod logical_plan;
pub mod order;
pub mod discovery;
pub mod text;
pub mod projection;
pub mod history;
pub mod receipt;
pub mod publication;
