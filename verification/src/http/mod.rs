//! Everything between a leased key and the wire.

pub mod dispatcher;
pub mod laws;
pub mod models;
pub mod retry_after;
pub mod stream;
pub mod stream_laws;
pub mod turns;
