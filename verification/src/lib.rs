//! Core of an HTTP/1.1 server connection: a wire codec that turns raw bytes
//! into request heads and body chunks and serializes response heads and body
//! frames back, a streaming message-body abstraction with a size hint, a
//! payload channel carrying inbound body bytes with backpressure, and the
//! per-connection dispatcher state machine that ties them together under
//! pipelining, keep-alive and slow-request timers.

pub mod body;
pub mod codec;
pub mod dispatcher;
pub mod error;
pub mod form;
pub mod laws;
pub mod payload;
pub mod recognizer;
pub mod wire;

pub use body::BodySize;
