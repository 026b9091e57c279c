//! The numbers this crate hands to Win32 are the ones of the Win32 headers.

use win32_input::win32;
use windows_sys::Win32::UI::Input::KeyboardAndMouse as keyboard;
use windows_sys::Win32::UI::WindowsAndMessaging as windowing;

#[test]
fn virtual_keys_match_the_headers() {
    assert_eq!(win32::VK_BACK, keyboard::VK_BACK);
    assert_eq!(win32::VK_TAB, keyboard::VK_TAB);
    assert_eq!(win32::VK_RETURN, keyboard::VK_RETURN);
    assert_eq!(win32::VK_SHIFT, keyboard::VK_SHIFT);
    assert_eq!(win32::VK_CONTROL, keyboard::VK_CONTROL);
    assert_eq!(win32::VK_MENU, keyboard::VK_MENU);
    assert_eq!(win32::VK_CAPITAL, keyboard::VK_CAPITAL);
    assert_eq!(win32::VK_ESCAPE, keyboard::VK_ESCAPE);
    assert_eq!(win32::VK_SPACE, keyboard::VK_SPACE);
    assert_eq!(win32::VK_PRIOR, keyboard::VK_PRIOR);
    assert_eq!(win32::VK_NEXT, keyboard::VK_NEXT);
    assert_eq!(win32::VK_END, keyboard::VK_END);
    assert_eq!(win32::VK_HOME, keyboard::VK_HOME);
    assert_eq!(win32::VK_LEFT, keyboard::VK_LEFT);
    assert_eq!(win32::VK_UP, keyboard::VK_UP);
    assert_eq!(win32::VK_RIGHT, keyboard::VK_RIGHT);
    assert_eq!(win32::VK_DOWN, keyboard::VK_DOWN);
    assert_eq!(win32::VK_SNAPSHOT, keyboard::VK_SNAPSHOT);
    assert_eq!(win32::VK_INSERT, keyboard::VK_INSERT);
    assert_eq!(win32::VK_DELETE, keyboard::VK_DELETE);
    assert_eq!(win32::VK_LWIN, keyboard::VK_LWIN);
    assert_eq!(win32::VK_F1, keyboard::VK_F1);
    assert_eq!(win32::VK_F2, keyboard::VK_F2);
    assert_eq!(win32::VK_F3, keyboard::VK_F3);
    assert_eq!(win32::VK_F4, keyboard::VK_F4);
    assert_eq!(win32::VK_F5, keyboard::VK_F5);
    assert_eq!(win32::VK_F6, keyboard::VK_F6);
    assert_eq!(win32::VK_F7, keyboard::VK_F7);
    assert_eq!(win32::VK_F8, keyboard::VK_F8);
    assert_eq!(win32::VK_F9, keyboard::VK_F9);
    assert_eq!(win32::VK_F10, keyboard::VK_F10);
    assert_eq!(win32::VK_F11, keyboard::VK_F11);
    assert_eq!(win32::VK_F12, keyboard::VK_F12);
    assert_eq!(win32::VK_F13, keyboard::VK_F13);
    assert_eq!(win32::VK_F14, keyboard::VK_F14);
    assert_eq!(win32::VK_F15, keyboard::VK_F15);
    assert_eq!(win32::VK_F16, keyboard::VK_F16);
    assert_eq!(win32::VK_F17, keyboard::VK_F17);
    assert_eq!(win32::VK_F18, keyboard::VK_F18);
    assert_eq!(win32::VK_F19, keyboard::VK_F19);
    assert_eq!(win32::VK_F20, keyboard::VK_F20);
    assert_eq!(win32::VK_F21, keyboard::VK_F21);
    assert_eq!(win32::VK_F22, keyboard::VK_F22);
    assert_eq!(win32::VK_F23, keyboard::VK_F23);
    assert_eq!(win32::VK_F24, keyboard::VK_F24);
    assert_eq!(win32::VK_NUMLOCK, keyboard::VK_NUMLOCK);
    assert_eq!(win32::VK_NONAME, keyboard::VK_NONAME);
}

#[test]
fn injection_flags_match_the_headers() {
    assert_eq!(win32::MOUSEEVENTF_MOVE, keyboard::MOUSEEVENTF_MOVE);
    assert_eq!(win32::MOUSEEVENTF_LEFTDOWN, keyboard::MOUSEEVENTF_LEFTDOWN);
    assert_eq!(win32::MOUSEEVENTF_LEFTUP, keyboard::MOUSEEVENTF_LEFTUP);
    assert_eq!(win32::MOUSEEVENTF_RIGHTDOWN, keyboard::MOUSEEVENTF_RIGHTDOWN);
    assert_eq!(win32::MOUSEEVENTF_RIGHTUP, keyboard::MOUSEEVENTF_RIGHTUP);
    assert_eq!(win32::MOUSEEVENTF_MIDDLEDOWN, keyboard::MOUSEEVENTF_MIDDLEDOWN);
    assert_eq!(win32::MOUSEEVENTF_MIDDLEUP, keyboard::MOUSEEVENTF_MIDDLEUP);
    assert_eq!(win32::MOUSEEVENTF_WHEEL, keyboard::MOUSEEVENTF_WHEEL);
    assert_eq!(win32::MOUSEEVENTF_HWHEEL, keyboard::MOUSEEVENTF_HWHEEL);
    assert_eq!(win32::MOUSEEVENTF_VIRTUALDESK, keyboard::MOUSEEVENTF_VIRTUALDESK);
    assert_eq!(win32::MOUSEEVENTF_ABSOLUTE, keyboard::MOUSEEVENTF_ABSOLUTE);
    assert_eq!(win32::KEYEVENTF_EXTENDEDKEY, keyboard::KEYEVENTF_EXTENDEDKEY);
    assert_eq!(win32::KEYEVENTF_KEYUP, keyboard::KEYEVENTF_KEYUP);
    assert_eq!(win32::KEYEVENTF_UNICODE, keyboard::KEYEVENTF_UNICODE);
}

#[test]
fn messages_match_the_headers() {
    assert_eq!(win32::WM_NCHITTEST, windowing::WM_NCHITTEST);
    assert_eq!(win32::WM_KEYDOWN, windowing::WM_KEYDOWN);
    assert_eq!(win32::WM_KEYUP, windowing::WM_KEYUP);
    assert_eq!(win32::WM_CHAR, windowing::WM_CHAR);
    assert_eq!(win32::WM_SYSKEYDOWN, windowing::WM_SYSKEYDOWN);
    assert_eq!(win32::WM_SYSKEYUP, windowing::WM_SYSKEYUP);
    assert_eq!(win32::WM_MOUSEMOVE, windowing::WM_MOUSEMOVE);
    assert_eq!(win32::WM_LBUTTONDOWN, windowing::WM_LBUTTONDOWN);
    assert_eq!(win32::WM_LBUTTONUP, windowing::WM_LBUTTONUP);
    assert_eq!(win32::WM_LBUTTONDBLCLK, windowing::WM_LBUTTONDBLCLK);
    assert_eq!(win32::WM_RBUTTONDOWN, windowing::WM_RBUTTONDOWN);
    assert_eq!(win32::WM_RBUTTONUP, windowing::WM_RBUTTONUP);
    assert_eq!(win32::WM_RBUTTONDBLCLK, windowing::WM_RBUTTONDBLCLK);
    assert_eq!(win32::WM_MBUTTONDOWN, windowing::WM_MBUTTONDOWN);
    assert_eq!(win32::WM_MBUTTONUP, windowing::WM_MBUTTONUP);
    assert_eq!(win32::WM_MBUTTONDBLCLK, windowing::WM_MBUTTONDBLCLK);
    assert_eq!(win32::WM_MOUSEWHEEL, windowing::WM_MOUSEWHEEL);
    assert_eq!(win32::WM_MOUSEHWHEEL, windowing::WM_MOUSEHWHEEL);
}

#[test]
fn window_flags_match_the_headers() {
    assert_eq!(win32::SMTO_ABORTIFHUNG, windowing::SMTO_ABORTIFHUNG);
    assert_eq!(win32::CS_DBLCLKS, windowing::CS_DBLCLKS);
    assert_eq!(win32::CWP_SKIPINVISIBLE, windowing::CWP_SKIPINVISIBLE);
    assert_eq!(win32::CWP_SKIPDISABLED, windowing::CWP_SKIPDISABLED);
    assert_eq!(win32::CWP_SKIPTRANSPARENT, windowing::CWP_SKIPTRANSPARENT);
    assert_eq!(win32::WS_EX_NOACTIVATE, windowing::WS_EX_NOACTIVATE);
    assert_eq!(win32::SM_XVIRTUALSCREEN, windowing::SM_XVIRTUALSCREEN);
    assert_eq!(win32::SM_YVIRTUALSCREEN, windowing::SM_YVIRTUALSCREEN);
    assert_eq!(win32::SM_CXVIRTUALSCREEN, windowing::SM_CXVIRTUALSCREEN);
    assert_eq!(win32::SM_CYVIRTUALSCREEN, windowing::SM_CYVIRTUALSCREEN);
    assert_eq!(win32::GA_PARENT, windowing::GA_PARENT);
    assert_eq!(win32::GA_ROOT, windowing::GA_ROOT);
    assert_eq!(win32::GA_ROOTOWNER, windowing::GA_ROOTOWNER);
}

#[test]
fn mouse_state_bits() {
    assert_eq!(win32::MK_LBUTTON, 0x0001);
    assert_eq!(win32::MK_RBUTTON, 0x0002);
    assert_eq!(win32::MK_SHIFT, 0x0004);
    assert_eq!(win32::MK_CONTROL, 0x0008);
    assert_eq!(win32::MK_MBUTTON, 0x0010);
    assert_eq!(win32::WHEEL_DELTA, 120);
}
