//! Terminal graph nodes that forward events to external systems.

pub mod elastic;
pub mod file;
pub mod newrelic;
