//! Outgoing request messages: typed payload variants plus a header whose size
//! field is always computed from the payload, never supplied by the caller.

use vstd::prelude::*;
use vstd::bytes::*;
use crate::codec::{Argument, Error, NewId, Object, WaylandResult};
use crate::header::{header_wire, Header};

verus! {

/// The typed payload of an outgoing request.
#[derive(Debug)]
pub enum Message {
    GetRegistry { registry: Object },
    Sync { callback: u32 },
    Bind { name: Object, id: NewId },
    Lock { ext_session_lock_v1: Object },
    Empty,
}

/// The wire form of a request payload.
pub open spec fn message_wire(m: Message) -> Seq<u8> {
    match m {
        Message::Sync { callback } => spec_u32_to_le_bytes(callback),
        Message::Bind { name, id } => spec_u32_to_le_bytes(name.0) + id.wire(),
        Message::GetRegistry { registry } => spec_u32_to_le_bytes(registry.0),
        Message::Lock { ext_session_lock_v1 } => spec_u32_to_le_bytes(ext_session_lock_v1.0),
        Message::Empty => Seq::empty(),
    }
}

/// The payload's values are small enough to encode (machine limits only).
pub open spec fn message_wire_ok(m: Message) -> bool {
    match m {
        Message::Bind { name, id } => id.wire_ok(),
        _ => true,
    }
}

impl Message {
    /// Serialize the payload to its wire bytes.
    pub fn to_vec(&self) -> (r: WaylandResult<Vec<u8>>)
        requires
            message_wire_ok(*self),
        ensures
            r is Ok,
            r->Ok_0@ == message_wire(*self),
    {
        match self {
            Message::Sync { callback } => callback.encode(),
            Message::Bind { name, id } => {
                let buffer = match name.encode_extend(Vec::new()) {
                    Ok(v) => v,
                    Err(e) => {
                        return Err(e);
                    },
                };
                id.encode_extend(buffer)
            },
            Message::GetRegistry { registry } => registry.encode(),
            Message::Lock { ext_session_lock_v1 } => ext_session_lock_v1.encode(),
            Message::Empty => Ok(Vec::new()),
        }
    }
}

/// A fully formed outgoing message: header plus typed payload.
#[derive(Debug)]
pub struct RequestMessage {
    pub header: Header,
    pub payload: Message,
}

/// The header's size field accounts exactly for the payload that follows it.
pub open spec fn request_wf(r: RequestMessage) -> bool {
    &&& message_wire_ok(r.payload)
    &&& r.header.size == 8 + message_wire(r.payload).len()
}

/// The complete wire form of an outgoing message.
pub open spec fn request_wire(r: RequestMessage) -> Seq<u8> {
    header_wire(r.header) + message_wire(r.payload)
}

impl RequestMessage {
    /// Build a message against an object: the size field is computed here as
    /// 8 plus the payload length, never passed in.
    pub fn build(object_id: Object, opcode: u16, message: Message) -> (r: Self)
        requires
            message_wire_ok(message),
            message_wire(message).len() + 8 <= 0xFFFF,
        ensures
            r.header.object_id == object_id,
            r.header.opcode == opcode,
            r.header.size == 8 + message_wire(message).len(),
            r.payload == message,
            request_wf(r),
    {
        let payload_bytes = match message.to_vec() {
            Ok(v) => v,
            Err(_) => Vec::new(),
        };
        let size = (payload_bytes.len() as u16) + 8;
        let header = Header::new(object_id, opcode, size);
        RequestMessage { header, payload: message }
    }

    /// Serialize header and payload to transmission-ready bytes.
    pub fn to_vec(&self) -> (r: WaylandResult<Vec<u8>>)
        requires
            message_wire_ok(self.payload),
        ensures
            r is Ok,
            r->Ok_0@ == request_wire(*self),
            request_wf(*self) ==> r->Ok_0@.len() == self.header.size,
    {
        let mut request = match self.header.to_vec() {
            Ok(v) => v,
            Err(e) => {
                return Err(e);
            },
        };
        let mut payload = match self.payload.to_vec() {
            Ok(v) => v,
            Err(e) => {
                return Err(e);
            },
        };
        request.append(&mut payload);
        Ok(request)
    }
}

} // verus!
