//! Output-related data structures: inert stubs outside the handshake/lock
//! flow.

use vstd::prelude::*;
use crate::codec::Object;

verus! {

/// Subpixel layout reported for an output.
#[derive(Debug, Clone, Copy, PartialEq, Eq, Structural)]
pub enum SubPixel {
    Unkown,
    NoSubPixel,
    HorizontalRGB,
    HorizontalBGR,
    VerticalRGB,
    VerticalBGR,
}

/// Output transform reported for an output.
#[derive(Debug, Clone, Copy, PartialEq, Eq, Structural)]
pub enum Transform {
    Normal,
    D90,
    D180,
    D270,
    Flipped,
    Flipped90,
    Flipped180,
    Flipped270,
}

/// Whether a mode is the current or the preferred one.
#[derive(Debug, Clone, Copy, PartialEq, Eq, Structural)]
pub enum ModeType {
    Current,
    Preferred,
}

/// One video mode of an output.
#[derive(Debug, Clone, Copy)]
pub struct Mode {
    pub flags: ModeType,
    pub width: i32,
    pub height: i32,
    pub refresh: i32,
}

/// Physical geometry of an output.
#[derive(Debug, Clone)]
pub struct OutputGeometry {
    pub x: i32,
    pub y: i32,
    pub physical_width: i32,
    pub physical_height: i32,
    pub subpixel: SubPixel,
    pub make: String,
    pub model: String,
    pub transform: Transform,
}

/// An output protocol object and what the compositor has reported about it.
#[derive(Debug, Clone)]
pub struct WlOutput {
    pub id: Object,
    pub geometry: Option<OutputGeometry>,
    pub factor: Option<i32>,
    pub name: Option<String>,
    pub description: Option<String>,
    pub modes: Vec<Mode>,
}

} // verus!
