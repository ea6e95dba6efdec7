//! The keyboard object: an inert stub outside the handshake/lock flow.

use vstd::prelude::*;
use crate::codec::Object;

verus! {

/// The format of a keymap handed out by the compositor.
#[derive(Debug, Clone, Copy, PartialEq, Eq, Structural)]
pub enum KeymapFormat {
    NoKeymap,
    XKBV1,
}

/// The state of a key in a key event.
#[derive(Debug, Clone, Copy, PartialEq, Eq, Structural)]
pub enum KeyState {
    Released,
    Pressed,
    Repeated,
}

/// A keymap descriptor: format plus the file descriptor and size that carry
/// it.
#[derive(Debug, Clone, Copy, PartialEq, Eq, Structural)]
pub struct Keymap {
    pub format: KeymapFormat,
    pub fd: u32,
    pub size: u32,
}

/// A keyboard protocol object.
#[derive(Debug, Clone, Copy)]
pub struct WlKeyboard {
    pub id: Object,
    pub keymap: Option<Keymap>,
}

} // verus!
