//! A small in-memory key/value server speaking a subset of the RESP wire
//! format: the frame codec, the command model, the shared database and the
//! connection and listener state machines, with their contracts.

pub mod assoc;
pub mod broadcast;
pub mod client;
pub mod cmd;
pub mod connection;
pub mod db;
pub mod frame;
pub mod parse;
pub mod payload;
pub mod roundtrip;
pub mod server;
pub mod shutdown;
pub mod streams;
pub mod text;
pub mod time;

pub use cmd::Command;
pub use connection::Connection;
pub use frame::Frame;

use vstd::prelude::*;

verus! {

/// The port that the server listens on when none is given.
pub const DEFAULT_PORT: &'static str = "6379";

} // verus!
