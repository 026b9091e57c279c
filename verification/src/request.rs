//! What a caller asks for, and the plain values the platform is handed.

use vstd::prelude::*;

use crate::keys::{Modifiers, MouseButton};

verus! {

/// A logical desktop coordinate, as the bits of its two IEEE 754 doubles. This
/// crate passes it on and never looks inside.
#[derive(Clone, Copy, Debug, PartialEq, Eq, Structural)]
pub struct Spot {
    pub x: u64,
    pub y: u64,
}

/// A point in physical pixels.
#[derive(Clone, Copy, Debug, PartialEq, Eq, Structural)]
pub struct Point {
    pub x: i32,
    pub y: i32,
}

/// Where input goes.
#[derive(Debug, PartialEq, Eq)]
pub enum Target {
    /// The desktop, through the user's own pointer and keyboard focus.
    Desktop,
    /// One window, by its decimal handle.
    Window(String),
}

/// How input reaches a window.
#[derive(Clone, Copy, Debug, PartialEq, Eq, Structural)]
pub enum DeliveryMode {
    /// Posted to the window, without touching the user's focus.
    Background,
    /// Injected while the window is the foreground window.
    Foreground,
}

/// A pointer gesture.
#[derive(Debug, PartialEq, Eq)]
pub enum PointerEvent {
    Click { at: Spot, button: MouseButton, count: u32, modifiers: Modifiers },
    Move { at: Spot },
    Drag { path: Vec<Spot>, button: MouseButton, modifiers: Modifiers },
    /// Wheel travel in notches: right and down are positive.
    Scroll { at: Spot, horizontal: i32, vertical: i32 },
}

/// A [`PointerEvent`] as contracts see it.
pub enum Gesture {
    Click { at: Spot, button: MouseButton, count: u32, modifiers: Modifiers },
    Move { at: Spot },
    Drag { path: Seq<Spot>, button: MouseButton, modifiers: Modifiers },
    Scroll { at: Spot, horizontal: i32, vertical: i32 },
}

impl View for PointerEvent {
    type V = Gesture;

    open spec fn view(&self) -> Gesture {
        match self {
            PointerEvent::Click { at, button, count, modifiers } => Gesture::Click {
                at: *at,
                button: *button,
                count: *count,
                modifiers: *modifiers,
            },
            PointerEvent::Move { at } => Gesture::Move { at: *at },
            PointerEvent::Drag { path, button, modifiers } => Gesture::Drag {
                path: path@,
                button: *button,
                modifiers: *modifiers,
            },
            PointerEvent::Scroll { at, horizontal, vertical } => Gesture::Scroll {
                at: *at,
                horizontal: *horizontal,
                vertical: *vertical,
            },
        }
    }
}

/// One unit of typed text.
#[derive(Clone, Copy, Debug, PartialEq, Eq, Structural)]
pub enum TextUnit {
    Enter,
    Char(char),
}

/// Kinds of input that toolkits treat differently.
#[derive(Clone, Copy, Debug, PartialEq, Eq, Structural)]
pub enum EventKind {
    MouseClick,
    MouseMove,
    MouseScroll,
    Keystroke,
    KeyCombo,
    TextInput,
}

/// Which half of a press to make, or both.
#[derive(Clone, Copy, Debug, PartialEq, Eq, Structural)]
pub enum Direction {
    Press,
    Release,
    Click,
}

/// Wheel axis.
#[derive(Clone, Copy, Debug, PartialEq, Eq, Structural)]
pub enum Axis {
    Horizontal,
    Vertical,
}

/// One event for the system input queue.
#[derive(Clone, Copy, Debug, PartialEq, Eq, Structural)]
pub enum InputEvent {
    Mouse { dx: i32, dy: i32, data: u32, flags: u32 },
    Keyboard { vk: u16, scan: u16, flags: u32 },
}

} // verus!
