//! Pipeline graph engine and backpressure-aware sink dispatch.

pub mod api;
pub mod async_sink;
pub mod channel;
pub mod codec;
pub mod errors;
pub mod event;
pub mod offramp;
pub mod pipeline;
pub mod system;
pub mod text;
