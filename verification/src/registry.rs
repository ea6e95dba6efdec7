//! The registry object, created by get-registry, target of bind requests.

use vstd::prelude::*;
use vstd::bytes::*;
use crate::codec::{Argument, NewId, Object};
use crate::request::{message_wire, request_wf, Message, RequestMessage};

verus! {

/// The registry protocol object: request bind (opcode 0).
#[derive(Debug, Clone, Copy, PartialEq, Eq, Structural)]
pub struct WlRegistry(pub Object);

impl WlRegistry {
    pub fn new(id: Object) -> (r: Self)
        ensures
            r.0 == id,
    {
        WlRegistry(id)
    }

    /// The bind request: the global's name and a new-id triple.  The size
    /// field is computed from the payload.
    pub fn bind(&self, name: u32, id: NewId) -> (r: RequestMessage)
        requires
            id.wire_ok(),
            message_wire((Message::Bind { name: Object(name), id })).len() + 8 <= 0xFFFF,
        ensures
            r.header.object_id == self.0,
            r.header.opcode == 0,
            r.header.size == 8 + message_wire(r.payload).len(),
            r.payload == (Message::Bind { name: Object(name), id }),
            request_wf(r),
    {
        RequestMessage::build(self.0, 0, Message::Bind { name: Object::new(name), id })
    }
}

} // verus!
