//! The fixed 8-byte frame prefix shared by requests and events.

use vstd::prelude::*;
use vstd::bytes::*;
use crate::codec::{Argument, Object, WaylandResult};

verus! {

/// Message header: object id (4 bytes), opcode (2 bytes), total message size
/// including the header itself (2 bytes), little-endian.
#[derive(Debug, Clone, Copy, PartialEq, Eq, Structural)]
pub struct Header {
    pub opcode: u16,
    pub object_id: Object,
    pub size: u16,
}

/// The 8-byte wire form of a header.
pub open spec fn header_wire(h: Header) -> Seq<u8> {
    spec_u32_to_le_bytes(h.object_id.0) + spec_u16_to_le_bytes(h.opcode) + spec_u16_to_le_bytes(
        h.size,
    )
}

impl Header {
    pub fn new(object_id: Object, opcode: u16, size: u16) -> (r: Header)
        ensures
            r.object_id == object_id,
            r.opcode == opcode,
            r.size == size,
    {
        Header { opcode, object_id, size }
    }

    /// Serialize the header to its 8 wire bytes.
    pub fn to_vec(&self) -> (r: WaylandResult<Vec<u8>>)
        ensures
            r is Ok,
            r->Ok_0@ == header_wire(*self),
            r->Ok_0@.len() == 8,
    {
        let buffer = match self.object_id.encode_extend(Vec::new()) {
            Ok(v) => v,
            Err(e) => {
                return Err(e);
            },
        };
        let buffer = match self.opcode.encode_extend(buffer) {
            Ok(v) => v,
            Err(e) => {
                return Err(e);
            },
        };
        let buffer = match self.size.encode_extend(buffer) {
            Ok(v) => v,
            Err(e) => {
                return Err(e);
            },
        };
        proof {
            lemma_auto_spec_u32_to_from_le_bytes();
            lemma_auto_spec_u16_to_from_le_bytes();
            assert(buffer@ =~= header_wire(*self));
        }
        Ok(buffer)
    }
}

} // verus!
