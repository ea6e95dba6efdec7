//! Client-side engine for a windowing-system wire protocol: a binary message
//! codec, header framing, an event demultiplexer, typed request builders, a
//! registry of compositor-advertised globals, and the connection handshake
//! state machine.  All I/O lives outside this crate; the engine works on
//! plain byte buffers and values.

use vstd::prelude::*;

pub mod codec;
pub mod connection;
pub mod event;
pub mod display;
pub mod header;
pub mod keyboard;
pub mod output;
pub mod registry;
pub mod request;
pub mod seat;
pub mod session_lock;
pub mod surface;

verus! {

} // verus!
