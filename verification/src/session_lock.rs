//! The session-lock extension: a manager object bound through the registry
//! and the lock object it creates.

use vstd::prelude::*;
use vstd::bytes::*;
use crate::codec::Object;
use crate::request::{message_wire, request_wf, Message, RequestMessage};

verus! {

/// The bound session-lock manager: requests destroy (opcode 0) and lock
/// (opcode 1).
#[derive(Debug, Clone, Copy, PartialEq, Eq, Structural)]
pub struct SessionLockManager(pub Object);

impl SessionLockManager {
    pub fn new(id: Object) -> (r: Self)
        ensures
            r.0 == id,
    {
        SessionLockManager(id)
    }

    /// The destroy request: no arguments, total size 8.
    pub fn destroy(&self) -> (r: RequestMessage)
        ensures
            r.header.object_id == self.0,
            r.header.opcode == 0,
            r.header.size == 8,
            r.payload == Message::Empty,
            request_wf(r),
    {
        RequestMessage::build(self.0, 0, Message::Empty)
    }

    /// The lock request: one object reference for the new lock object, total
    /// size 12.
    pub fn lock(&self, ext_session_lock_v1: u32) -> (r: RequestMessage)
        ensures
            r.header.object_id == self.0,
            r.header.opcode == 1,
            r.header.size == 12,
            r.payload == (Message::Lock { ext_session_lock_v1: Object(ext_session_lock_v1) }),
            request_wf(r),
    {
        proof {
            lemma_auto_spec_u32_to_from_le_bytes();
        }
        RequestMessage::build(
            self.0,
            1,
            Message::Lock { ext_session_lock_v1: Object::new(ext_session_lock_v1) },
        )
    }
}

/// The lock object created by a lock request: requests destroy (opcode 0)
/// and unlock-and-destroy (opcode 2).
#[derive(Debug, Clone, Copy, PartialEq, Eq, Structural)]
pub struct SessionLock(pub Object);

impl SessionLock {
    pub fn new(id: Object) -> (r: Self)
        ensures
            r.0 == id,
    {
        SessionLock(id)
    }

    /// The destroy request: no arguments, total size 8.
    pub fn destroy(&self) -> (r: RequestMessage)
        ensures
            r.header.object_id == self.0,
            r.header.opcode == 0,
            r.header.size == 8,
            r.payload == Message::Empty,
            request_wf(r),
    {
        RequestMessage::build(self.0, 0, Message::Empty)
    }

    /// Creating a lock surface lies outside the protocol subset this engine
    /// exercises; the request builds no message.
    pub fn get_lock_surface(&self) {
    }

    /// The unlock-and-destroy request: no arguments, total size 8.
    pub fn unlock_and_destroy(&self) -> (r: RequestMessage)
        ensures
            r.header.object_id == self.0,
            r.header.opcode == 2,
            r.header.size == 8,
            r.payload == Message::Empty,
            request_wf(r),
    {
        RequestMessage::build(self.0, 2, Message::Empty)
    }
}

} // verus!
