//! The notifications that the parts of the compositor send each other, and the numbers
//! under which receivers subscribe to them.

use vstd::prelude::*;
use crate::defs::{Position, SurfaceId, Vector};
use crate::signaler::SignalId;

verus! {

pub const NOTIFY: SignalId = 0;

pub const PAGE_FLIP: SignalId = 1;

pub const OUTPUT_FOUND: SignalId = 2;

pub const COMMAND: SignalId = 3;

pub const INPUT_POINTER_MOTION: SignalId = 4;

pub const INPUT_POINTER_POSITION: SignalId = 5;

pub const INPUT_POINTER_BUTTON: SignalId = 6;

pub const INPUT_POINTER_POSITION_RESET: SignalId = 7;

pub const CURSOR_SURFACE_CHANGE: SignalId = 8;

pub const SURFACE_READY: SignalId = 9;

pub const SURFACE_DESTROYED: SignalId = 10;

pub const SURFACE_RECONFIGURED: SignalId = 11;

pub const KEYBOARD_FOCUS_CHANGED: SignalId = 12;

pub const POINTER_FOCUS_CHANGED: SignalId = 13;

/// The handles by which an output that was found is driven.
#[derive(Clone, Copy, Debug, PartialEq, Eq, Structural)]
pub struct OutputBundle {
    pub fd: i32,
    pub crtc_id: u32,
    pub connector_id: u32,
}

/// A command of the user: what to do, in which direction and how far.
#[derive(Clone, Copy, Debug, PartialEq, Eq, Structural)]
pub struct Command {
    pub action: u32,
    pub direction: u32,
    pub magnitude: i32,
}

/// A button of a pointer and what happened to it.
#[derive(Clone, Copy, Debug, PartialEq, Eq, Structural)]
pub struct Button {
    pub code: u16,
    pub value: i32,
}

/// A notification with what it carries.
#[derive(Clone, Copy, Debug, PartialEq, Eq, Structural)]
pub enum Perceptron {
    Notify,
    PageFlip(i32),
    OutputFound(OutputBundle),
    Command(Command),
    InputPointerMotion(Vector),
    InputPointerPosition(Position),
    InputPointerButton(Button),
    InputPointerPositionReset,
    CursorSurfaceChange(SurfaceId),
    SurfaceReady(SurfaceId),
    SurfaceDestroyed(SurfaceId),
    SurfaceReconfigured(SurfaceId),
    KeyboardFocusChanged(SurfaceId, SurfaceId),
    PointerFocusChanged(SurfaceId, SurfaceId, Position),
}

impl Perceptron {
    /// The number under which receivers subscribe to this kind of notification.
    pub open spec fn signal(self) -> SignalId {
        match self {
            Perceptron::Notify => NOTIFY,
            Perceptron::PageFlip(_) => PAGE_FLIP,
            Perceptron::OutputFound(_) => OUTPUT_FOUND,
            Perceptron::Command(_) => COMMAND,
            Perceptron::InputPointerMotion(_) => INPUT_POINTER_MOTION,
            Perceptron::InputPointerPosition(_) => INPUT_POINTER_POSITION,
            Perceptron::InputPointerButton(_) => INPUT_POINTER_BUTTON,
            Perceptron::InputPointerPositionReset => INPUT_POINTER_POSITION_RESET,
            Perceptron::CursorSurfaceChange(_) => CURSOR_SURFACE_CHANGE,
            Perceptron::SurfaceReady(_) => SURFACE_READY,
            Perceptron::SurfaceDestroyed(_) => SURFACE_DESTROYED,
            Perceptron::SurfaceReconfigured(_) => SURFACE_RECONFIGURED,
            Perceptron::KeyboardFocusChanged(_, _) => KEYBOARD_FOCUS_CHANGED,
            Perceptron::PointerFocusChanged(_, _, _) => POINTER_FOCUS_CHANGED,
        }
    }

    /// The number under which receivers subscribe to this kind of notification.
    pub fn signal_id(&self) -> (id: SignalId)
        ensures
            id == self.signal(),
    {
        match self {
            Perceptron::Notify => NOTIFY,
            Perceptron::PageFlip(_) => PAGE_FLIP,
            Perceptron::OutputFound(_) => OUTPUT_FOUND,
            Perceptron::Command(_) => COMMAND,
            Perceptron::InputPointerMotion(_) => INPUT_POINTER_MOTION,
            Perceptron::InputPointerPosition(_) => INPUT_POINTER_POSITION,
            Perceptron::InputPointerButton(_) => INPUT_POINTER_BUTTON,
            Perceptron::InputPointerPositionReset => INPUT_POINTER_POSITION_RESET,
            Perceptron::CursorSurfaceChange(_) => CURSOR_SURFACE_CHANGE,
            Perceptron::SurfaceReady(_) => SURFACE_READY,
            Perceptron::SurfaceDestroyed(_) => SURFACE_DESTROYED,
            Perceptron::SurfaceReconfigured(_) => SURFACE_RECONFIGURED,
            Perceptron::KeyboardFocusChanged(_, _) => KEYBOARD_FOCUS_CHANGED,
            Perceptron::PointerFocusChanged(_, _, _) => POINTER_FOCUS_CHANGED,
        }
    }
}

} // verus!
