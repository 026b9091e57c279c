//! Keys, modifiers and mouse buttons, and the virtual keys they stand for.

use vstd::prelude::*;

use crate::win32::{
    VK_BACK, VK_TAB, VK_RETURN, VK_SHIFT, VK_CONTROL, VK_MENU, VK_CAPITAL, VK_ESCAPE, VK_SPACE,
    VK_PRIOR, VK_NEXT, VK_END, VK_HOME, VK_LEFT, VK_UP, VK_RIGHT, VK_DOWN, VK_SNAPSHOT,
    VK_INSERT, VK_DELETE, VK_LWIN, VK_F1, VK_F2, VK_F3, VK_F4, VK_F5, VK_F6, VK_F7, VK_F8,
    VK_F9, VK_F10, VK_F11, VK_F12, VK_F13, VK_F14, VK_F15, VK_F16, VK_F17, VK_F18, VK_F19,
    VK_F20, VK_F21, VK_F22, VK_F23, VK_F24, VK_NUMLOCK,
};

verus! {

/// A key a request can name.
#[derive(Clone, Copy, Debug, PartialEq, Eq, Structural)]
pub enum KeyName {
    Ctrl,
    Alt,
    Shift,
    Meta,
    Enter,
    Escape,
    Tab,
    Space,
    Backspace,
    Delete,
    Insert,
    Home,
    End,
    PageUp,
    PageDown,
    Up,
    Down,
    Left,
    Right,
    CapsLock,
    NumLock,
    PrintScreen,
    F1,
    F2,
    F3,
    F4,
    F5,
    F6,
    F7,
    F8,
    F9,
    F10,
    F11,
    F12,
    F13,
    F14,
    F15,
    F16,
    F17,
    F18,
    F19,
    F20,
    F21,
    F22,
    F23,
    F24,
    /// The key that types this character.
    Char(char),
}

/// Modifiers held during a pointer gesture.
#[derive(Clone, Copy, Debug, PartialEq, Eq, Structural)]
pub struct Modifiers {
    pub ctrl: bool,
    pub alt: bool,
    pub shift: bool,
    pub meta: bool,
}

/// A mouse button.
#[derive(Clone, Copy, Debug, PartialEq, Eq, Structural)]
pub enum MouseButton {
    Left,
    Right,
    Middle,
}

impl Default for Modifiers {
    /// No modifier.
    fn default() -> (modifiers: Modifiers)
        ensures
            modifiers == (Modifiers { ctrl: false, alt: false, shift: false, meta: false }),
    {
        Modifiers { ctrl: false, alt: false, shift: false, meta: false }
    }
}

impl Modifiers {
    /// Whether no modifier is held.
    pub open spec fn none(self) -> bool {
        !self.ctrl && !self.alt && !self.shift && !self.meta
    }
}

/// `key` where it is wanted, and nothing else.
pub open spec fn if_held(held: bool, key: KeyName) -> Seq<KeyName> {
    if held {
        seq![key]
    } else {
        seq![]
    }
}

/// Keys of the held modifiers, in the order they are pressed.
pub open spec fn held_keys(modifiers: Modifiers) -> Seq<KeyName> {
    if_held(modifiers.ctrl, KeyName::Ctrl) + if_held(modifiers.alt, KeyName::Alt) + if_held(
        modifiers.shift,
        KeyName::Shift,
    ) + if_held(modifiers.meta, KeyName::Meta)
}

/// Keys of the held modifiers, in the order they are pressed.
pub fn modifier_keys(modifiers: Modifiers) -> (keys: Vec<KeyName>)
    ensures
        keys@ == held_keys(modifiers),
{
    let mut keys: Vec<KeyName> = Vec::new();
    if modifiers.ctrl {
        keys.push(KeyName::Ctrl);
    }
    if modifiers.alt {
        keys.push(KeyName::Alt);
    }
    if modifiers.shift {
        keys.push(KeyName::Shift);
    }
    if modifiers.meta {
        keys.push(KeyName::Meta);
    }
    assert(keys@ =~= held_keys(modifiers));
    keys
}

impl KeyName {
    /// Whether this is a modifier key.
    pub open spec fn modifies(self) -> bool {
        self is Ctrl || self is Alt || self is Shift || self is Meta
    }

    /// Whether this is a modifier key.
    pub fn is_modifier(&self) -> (modifier: bool)
        ensures
            modifier == self.modifies(),
    {
        match self {
            KeyName::Ctrl | KeyName::Alt | KeyName::Shift | KeyName::Meta => true,
            _ => false,
        }
    }
}

/// Virtual key of a key that has one on every keyboard layout.
pub open spec fn fixed_key(key: KeyName) -> Option<u16> {
    match key {
        KeyName::Ctrl => Some(VK_CONTROL),
        KeyName::Alt => Some(VK_MENU),
        KeyName::Shift => Some(VK_SHIFT),
        KeyName::Meta => Some(VK_LWIN),
        KeyName::Enter => Some(VK_RETURN),
        KeyName::Escape => Some(VK_ESCAPE),
        KeyName::Tab => Some(VK_TAB),
        KeyName::Space => Some(VK_SPACE),
        KeyName::Backspace => Some(VK_BACK),
        KeyName::Delete => Some(VK_DELETE),
        KeyName::Insert => Some(VK_INSERT),
        KeyName::Home => Some(VK_HOME),
        KeyName::End => Some(VK_END),
        KeyName::PageUp => Some(VK_PRIOR),
        KeyName::PageDown => Some(VK_NEXT),
        KeyName::Up => Some(VK_UP),
        KeyName::Down => Some(VK_DOWN),
        KeyName::Left => Some(VK_LEFT),
        KeyName::Right => Some(VK_RIGHT),
        KeyName::CapsLock => Some(VK_CAPITAL),
        KeyName::NumLock => Some(VK_NUMLOCK),
        KeyName::PrintScreen => Some(VK_SNAPSHOT),
        KeyName::F1 => Some(VK_F1),
        KeyName::F2 => Some(VK_F2),
        KeyName::F3 => Some(VK_F3),
        KeyName::F4 => Some(VK_F4),
        KeyName::F5 => Some(VK_F5),
        KeyName::F6 => Some(VK_F6),
        KeyName::F7 => Some(VK_F7),
        KeyName::F8 => Some(VK_F8),
        KeyName::F9 => Some(VK_F9),
        KeyName::F10 => Some(VK_F10),
        KeyName::F11 => Some(VK_F11),
        KeyName::F12 => Some(VK_F12),
        KeyName::F13 => Some(VK_F13),
        KeyName::F14 => Some(VK_F14),
        KeyName::F15 => Some(VK_F15),
        KeyName::F16 => Some(VK_F16),
        KeyName::F17 => Some(VK_F17),
        KeyName::F18 => Some(VK_F18),
        KeyName::F19 => Some(VK_F19),
        KeyName::F20 => Some(VK_F20),
        KeyName::F21 => Some(VK_F21),
        KeyName::F22 => Some(VK_F22),
        KeyName::F23 => Some(VK_F23),
        KeyName::F24 => Some(VK_F24),
        KeyName::Char(_) => None,
    }
}

/// Virtual key of a key that has one on every keyboard layout.
pub fn fixed_virtual_key(key: KeyName) -> (vk: Option<u16>)
    ensures
        vk == fixed_key(key),
{
    match key {
        KeyName::Ctrl => Some(VK_CONTROL),
        KeyName::Alt => Some(VK_MENU),
        KeyName::Shift => Some(VK_SHIFT),
        KeyName::Meta => Some(VK_LWIN),
        KeyName::Enter => Some(VK_RETURN),
        KeyName::Escape => Some(VK_ESCAPE),
        KeyName::Tab => Some(VK_TAB),
        KeyName::Space => Some(VK_SPACE),
        KeyName::Backspace => Some(VK_BACK),
        KeyName::Delete => Some(VK_DELETE),
        KeyName::Insert => Some(VK_INSERT),
        KeyName::Home => Some(VK_HOME),
        KeyName::End => Some(VK_END),
        KeyName::PageUp => Some(VK_PRIOR),
        KeyName::PageDown => Some(VK_NEXT),
        KeyName::Up => Some(VK_UP),
        KeyName::Down => Some(VK_DOWN),
        KeyName::Left => Some(VK_LEFT),
        KeyName::Right => Some(VK_RIGHT),
        KeyName::CapsLock => Some(VK_CAPITAL),
        KeyName::NumLock => Some(VK_NUMLOCK),
        KeyName::PrintScreen => Some(VK_SNAPSHOT),
        KeyName::F1 => Some(VK_F1),
        KeyName::F2 => Some(VK_F2),
        KeyName::F3 => Some(VK_F3),
        KeyName::F4 => Some(VK_F4),
        KeyName::F5 => Some(VK_F5),
        KeyName::F6 => Some(VK_F6),
        KeyName::F7 => Some(VK_F7),
        KeyName::F8 => Some(VK_F8),
        KeyName::F9 => Some(VK_F9),
        KeyName::F10 => Some(VK_F10),
        KeyName::F11 => Some(VK_F11),
        KeyName::F12 => Some(VK_F12),
        KeyName::F13 => Some(VK_F13),
        KeyName::F14 => Some(VK_F14),
        KeyName::F15 => Some(VK_F15),
        KeyName::F16 => Some(VK_F16),
        KeyName::F17 => Some(VK_F17),
        KeyName::F18 => Some(VK_F18),
        KeyName::F19 => Some(VK_F19),
        KeyName::F20 => Some(VK_F20),
        KeyName::F21 => Some(VK_F21),
        KeyName::F22 => Some(VK_F22),
        KeyName::F23 => Some(VK_F23),
        KeyName::F24 => Some(VK_F24),
        KeyName::Char(_) => None,
    }
}

/// Keys whose hardware scan code carries the `E0` extended prefix.
pub open spec fn extended(vk: u16) -> bool {
    ||| vk == VK_INSERT
    ||| vk == VK_DELETE
    ||| vk == VK_HOME
    ||| vk == VK_END
    ||| vk == VK_PRIOR
    ||| vk == VK_NEXT
    ||| vk == VK_LEFT
    ||| vk == VK_RIGHT
    ||| vk == VK_UP
    ||| vk == VK_DOWN
    ||| vk == VK_LWIN
    ||| vk == VK_NUMLOCK
    ||| vk == VK_SNAPSHOT
}

/// Keys whose hardware scan code carries the `E0` extended prefix.
pub fn is_extended(vk: u16) -> (is: bool)
    ensures
        is == extended(vk),
{
    vk == VK_INSERT || vk == VK_DELETE || vk == VK_HOME || vk == VK_END || vk == VK_PRIOR || vk
        == VK_NEXT || vk == VK_LEFT || vk == VK_RIGHT || vk == VK_UP || vk == VK_DOWN || vk
        == VK_LWIN || vk == VK_NUMLOCK || vk == VK_SNAPSHOT
}

/// Modifiers are pressed in one order, each once, and only those that are held.
pub proof fn law_held_keys_are_the_modifiers(modifiers: Modifiers, key: KeyName)
    ensures
        held_keys(modifiers).contains(key) <==> {
            ||| key is Ctrl && modifiers.ctrl
            ||| key is Alt && modifiers.alt
            ||| key is Shift && modifiers.shift
            ||| key is Meta && modifiers.meta
        },
        held_keys(modifiers).no_duplicates(),
        held_keys(modifiers).len() <= 4,
        modifiers.none() <==> held_keys(modifiers).len() == 0,
{
    let ctrl = if_held(modifiers.ctrl, KeyName::Ctrl);
    let alt = if_held(modifiers.alt, KeyName::Alt);
    let shift = if_held(modifiers.shift, KeyName::Shift);
    let meta = if_held(modifiers.meta, KeyName::Meta);
    let held = held_keys(modifiers);
    if modifiers.ctrl {
        assert(held[0] == KeyName::Ctrl);
    }
    if modifiers.alt {
        assert(held[ctrl.len() as int] == KeyName::Alt);
    }
    if modifiers.shift {
        assert(held[(ctrl + alt).len() as int] == KeyName::Shift);
    }
    if modifiers.meta {
        assert(held[(ctrl + alt + shift).len() as int] == KeyName::Meta);
    }
}

/// Every key but a character has a virtual key of its own.
pub proof fn law_virtual_keys_are_distinct(a: KeyName, b: KeyName)
    ensures
        fixed_key(a) is None <==> a is Char,
        fixed_key(a) is Some && fixed_key(a) == fixed_key(b) ==> a == b,
{
}

} // verus!
