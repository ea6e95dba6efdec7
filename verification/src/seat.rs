//! The seat object: an inert stub outside the handshake/lock flow.

use vstd::prelude::*;
use crate::codec::Object;

verus! {

/// An input capability a seat may offer.
#[derive(Debug, Clone, Copy, PartialEq, Eq, Structural)]
pub enum Capability {
    Pointer,
    Keyboard,
    Touch,
}

/// A seat protocol object.
#[derive(Debug, Clone, Copy, PartialEq, Eq, Structural)]
pub struct WlSeat {
    pub id: Object,
}

} // verus!
