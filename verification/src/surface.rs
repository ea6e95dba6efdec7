//! The surface object: an inert stub outside the handshake/lock flow.

use vstd::prelude::*;
use crate::codec::Object;
use crate::request::{request_wf, Message, RequestMessage};

verus! {

/// A surface protocol object: request destroy (opcode 0).
#[derive(Debug, Clone, Copy, PartialEq, Eq, Structural)]
pub struct WlSurface {
    pub id: Object,
}

impl WlSurface {
    pub fn new(id: Object) -> (r: Self)
        ensures
            r.id == id,
    {
        WlSurface { id }
    }

    /// The destroy request: no arguments, total size 8.
    pub fn destroy(&self) -> (r: RequestMessage)
        ensures
            r.header.object_id == self.id,
            r.header.opcode == 0,
            r.header.size == 8,
            r.payload == Message::Empty,
            request_wf(r),
    {
        RequestMessage::build(self.id, 0, Message::Empty)
    }
}

} // verus!
