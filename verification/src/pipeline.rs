//! The operator graph of a pipeline: how it is declared, checked and built,
//! and how events travel through it.

pub mod config;
pub mod graph;
pub mod order;
pub mod router;
