//! Numbers of the Win32 interface, under the names its headers give them.

use vstd::prelude::*;

verus! {

pub const VK_BACK: u16 = 8;

pub const VK_TAB: u16 = 9;

pub const VK_RETURN: u16 = 13;

pub const VK_SHIFT: u16 = 16;

pub const VK_CONTROL: u16 = 17;

pub const VK_MENU: u16 = 18;

pub const VK_CAPITAL: u16 = 20;

pub const VK_ESCAPE: u16 = 27;

pub const VK_SPACE: u16 = 32;

pub const VK_PRIOR: u16 = 33;

pub const VK_NEXT: u16 = 34;

pub const VK_END: u16 = 35;

pub const VK_HOME: u16 = 36;

pub const VK_LEFT: u16 = 37;

pub const VK_UP: u16 = 38;

pub const VK_RIGHT: u16 = 39;

pub const VK_DOWN: u16 = 40;

pub const VK_SNAPSHOT: u16 = 44;

pub const VK_INSERT: u16 = 45;

pub const VK_DELETE: u16 = 46;

pub const VK_LWIN: u16 = 91;

pub const VK_F1: u16 = 112;

pub const VK_F2: u16 = 113;

pub const VK_F3: u16 = 114;

pub const VK_F4: u16 = 115;

pub const VK_F5: u16 = 116;

pub const VK_F6: u16 = 117;

pub const VK_F7: u16 = 118;

pub const VK_F8: u16 = 119;

pub const VK_F9: u16 = 120;

pub const VK_F10: u16 = 121;

pub const VK_F11: u16 = 122;

pub const VK_F12: u16 = 123;

pub const VK_F13: u16 = 124;

pub const VK_F14: u16 = 125;

pub const VK_F15: u16 = 126;

pub const VK_F16: u16 = 127;

pub const VK_F17: u16 = 128;

pub const VK_F18: u16 = 129;

pub const VK_F19: u16 = 130;

pub const VK_F20: u16 = 131;

pub const VK_F21: u16 = 132;

pub const VK_F22: u16 = 133;

pub const VK_F23: u16 = 134;

pub const VK_F24: u16 = 135;

pub const VK_NUMLOCK: u16 = 144;

pub const VK_NONAME: u16 = 252;

pub const WM_NCHITTEST: u32 = 132;

pub const WM_KEYDOWN: u32 = 256;

pub const WM_KEYUP: u32 = 257;

pub const WM_CHAR: u32 = 258;

pub const WM_SYSKEYDOWN: u32 = 260;

pub const WM_SYSKEYUP: u32 = 261;

pub const WM_MOUSEMOVE: u32 = 512;

pub const WM_LBUTTONDOWN: u32 = 513;

pub const WM_LBUTTONUP: u32 = 514;

pub const WM_LBUTTONDBLCLK: u32 = 515;

pub const WM_RBUTTONDOWN: u32 = 516;

pub const WM_RBUTTONUP: u32 = 517;

pub const WM_RBUTTONDBLCLK: u32 = 518;

pub const WM_MBUTTONDOWN: u32 = 519;

pub const WM_MBUTTONUP: u32 = 520;

pub const WM_MBUTTONDBLCLK: u32 = 521;

pub const WM_MOUSEWHEEL: u32 = 522;

pub const WM_MOUSEHWHEEL: u32 = 526;

pub const MK_LBUTTON: usize = 1;

pub const MK_RBUTTON: usize = 2;

pub const MK_SHIFT: usize = 4;

pub const MK_CONTROL: usize = 8;

pub const MK_MBUTTON: usize = 16;

/// Wheel travel that counts as one notch.
pub const WHEEL_DELTA: i32 = 120;

pub const MOUSEEVENTF_MOVE: u32 = 1;

pub const MOUSEEVENTF_LEFTDOWN: u32 = 2;

pub const MOUSEEVENTF_LEFTUP: u32 = 4;

pub const MOUSEEVENTF_RIGHTDOWN: u32 = 8;

pub const MOUSEEVENTF_RIGHTUP: u32 = 16;

pub const MOUSEEVENTF_MIDDLEDOWN: u32 = 32;

pub const MOUSEEVENTF_MIDDLEUP: u32 = 64;

pub const MOUSEEVENTF_WHEEL: u32 = 2048;

pub const MOUSEEVENTF_HWHEEL: u32 = 4096;

pub const MOUSEEVENTF_VIRTUALDESK: u32 = 16384;

pub const MOUSEEVENTF_ABSOLUTE: u32 = 32768;

pub const KEYEVENTF_EXTENDEDKEY: u32 = 1;

pub const KEYEVENTF_KEYUP: u32 = 2;

pub const KEYEVENTF_UNICODE: u32 = 4;

pub const SMTO_ABORTIFHUNG: u32 = 2;

pub const CS_DBLCLKS: u32 = 8;

pub const CWP_SKIPINVISIBLE: u32 = 1;

pub const CWP_SKIPDISABLED: u32 = 2;

pub const CWP_SKIPTRANSPARENT: u32 = 4;

pub const WS_EX_NOACTIVATE: u32 = 0x8000000;

pub const SM_XVIRTUALSCREEN: i32 = 76;

pub const SM_YVIRTUALSCREEN: i32 = 77;

pub const SM_CXVIRTUALSCREEN: i32 = 78;

pub const SM_CYVIRTUALSCREEN: i32 = 79;

pub const GA_PARENT: u32 = 1;

pub const GA_ROOT: u32 = 2;

pub const GA_ROOTOWNER: u32 = 3;


} // verus!
