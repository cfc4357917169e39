//! Client-side core of a ledger event stream: request validation, account
//! filtering, frame decoding and the stream's state machine.
//!
//! Nothing here performs I/O. A transport hands the stream the bytes and
//! signals it received; the stream hands back events, in order.

pub mod error;
pub mod wire;
pub mod event;
pub mod filter;
pub mod decoder;
pub mod request;
pub mod stream;
pub mod timer;
pub mod queue;
pub mod client;
