//! Input snapshots handed to the simulation each tick.
//!
//! The host polls the keyboard and drains the touch queue once per frame
//! and passes the result in as plain values: a map of held directional
//! keys, and the touch events of the frame in screen coordinates (origin
//! at the top-left corner, y growing downward).

use vstd::prelude::*;

verus! {

/// Which directional keys are held this frame, one pair per paddle.
#[derive(Clone, Copy, PartialEq, Eq, Structural, Debug, Default)]
pub struct KeyboardState {
    pub left_up: bool,
    pub left_down: bool,
    pub right_up: bool,
    pub right_down: bool,
}

/// The phase of a touch event, as the host reports it.
#[derive(Clone, Copy, PartialEq, Eq, Structural, Debug)]
pub enum TouchPhase {
    Started,
    Moved,
    Ended,
    Canceled,
}

/// One touch event in screen coordinates (origin top-left, y downward).
#[derive(Clone, Copy, PartialEq, Eq, Structural, Debug)]
pub struct TouchEvent {
    pub x: i64,
    pub y: i64,
    pub phase: TouchPhase,
}

} // verus!
