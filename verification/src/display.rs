//! The root display object, implicitly id 1 at connection time.

use vstd::prelude::*;
use vstd::bytes::*;
use crate::codec::Object;
use crate::request::{message_wire, request_wf, Message, RequestMessage};

verus! {

/// The root protocol object: requests sync (opcode 0) and get-registry
/// (opcode 1).
#[derive(Debug, Clone, Copy, PartialEq, Eq, Structural)]
pub struct WlDisplay(pub Object);

impl WlDisplay {
    pub fn new(id: Object) -> (r: Self)
        ensures
            r.0 == id,
    {
        WlDisplay(id)
    }

    /// The sync request: one callback object reference, total size 12.
    pub fn sync(&self, callback: u32) -> (r: RequestMessage)
        ensures
            r.header.object_id == self.0,
            r.header.opcode == 0,
            r.header.size == 12,
            r.payload == (Message::Sync { callback }),
            request_wf(r),
    {
        proof {
            lemma_auto_spec_u32_to_from_le_bytes();
        }
        RequestMessage::build(self.0, 0, Message::Sync { callback })
    }

    /// The get-registry request: one object reference for the new registry,
    /// total size 12.
    pub fn get_registry(&self, id: u32) -> (r: RequestMessage)
        ensures
            r.header.object_id == self.0,
            r.header.opcode == 1,
            r.header.size == 12,
            r.payload == (Message::GetRegistry { registry: Object(id) }),
            request_wf(r),
    {
        proof {
            lemma_auto_spec_u32_to_from_le_bytes();
        }
        RequestMessage::build(self.0, 1, Message::GetRegistry { registry: Object::new(id) })
    }
}

} // verus!
