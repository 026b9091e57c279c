//! Encodings of window messages and injected input events.

use vstd::prelude::*;
use vstd::string::*;

use crate::error::{CoreResult, DesktopError, Fault};
use crate::keys::{is_extended, Modifiers, MouseButton};
use crate::request::InputEvent;
use crate::text::signed_decimal;
use crate::win32::{
    KEYEVENTF_EXTENDEDKEY, KEYEVENTF_KEYUP, KEYEVENTF_UNICODE, MK_CONTROL, MK_LBUTTON, MK_MBUTTON,
    MK_RBUTTON, MK_SHIFT, MOUSEEVENTF_ABSOLUTE, MOUSEEVENTF_LEFTDOWN, MOUSEEVENTF_LEFTUP,
    MOUSEEVENTF_MIDDLEDOWN, MOUSEEVENTF_MIDDLEUP, MOUSEEVENTF_MOVE, MOUSEEVENTF_RIGHTDOWN,
    MOUSEEVENTF_RIGHTUP, MOUSEEVENTF_VIRTUALDESK, VK_MENU, VK_NONAME, WM_KEYDOWN, WM_KEYUP,
    WM_LBUTTONDBLCLK, WM_LBUTTONDOWN, WM_LBUTTONUP, WM_MBUTTONDBLCLK, WM_MBUTTONDOWN, WM_MBUTTONUP,
    WM_RBUTTONDBLCLK, WM_RBUTTONDOWN, WM_RBUTTONUP, WM_SYSKEYDOWN, WM_SYSKEYUP,
};
use crate::{error, keys, text};

verus! {

/// Whether `n` fits a signed word of sixteen bits.
pub open spec fn fits16(n: int) -> bool {
    -0x8000 <= n < 0x8000
}

/// Two's complement of `n` in sixteen bits, read without a sign.
pub open spec fn word16(n: int) -> int {
    if n < 0 {
        n + 0x10000
    } else {
        n
    }
}

/// Sixteen bits, read with a sign.
pub open spec fn signed16(bits: int) -> int {
    if bits >= 0x8000 {
        bits - 0x10000
    } else {
        bits
    }
}

/// Thirty-two bits, read with a sign.
pub open spec fn signed32(bits: int) -> int {
    if bits >= 0x8000_0000 {
        bits - 0x1_0000_0000
    } else {
        bits
    }
}

/// A point in one message parameter: `x` in the low word, `y` in the high word.
pub open spec fn point_bits(x: int, y: int) -> int {
    signed32(word16(x) + 0x10000 * word16(y))
}

/// The message parameter for a point, where both coordinates fit a word.
pub open spec fn packed(x: i32, y: i32) -> Result<isize, Fault> {
    if !fits16(x as int) {
        Err(
            error::input_fault(
                "window x coordinate "@ + text::signed_digits(x as int) + " exceeds i16"@,
            ),
        )
    } else if !fits16(y as int) {
        Err(
            error::input_fault(
                "window y coordinate "@ + text::signed_digits(y as int) + " exceeds i16"@,
            ),
        )
    } else {
        Ok(point_bits(x as int, y as int) as isize)
    }
}

/// Thirty-two bits as a signed message parameter.
fn lparam_of_bits(bits: u32) -> (lparam: isize)
    ensures
        lparam == signed32(bits as int),
{
    if bits >= 0x8000_0000 {
        (bits as i64 - 0x1_0000_0000) as isize
    } else {
        bits as isize
    }
}

/// Two's complement of `n` in sixteen bits.
fn to_word16(n: i32) -> (bits: u32)
    requires
        fits16(n as int),
    ensures
        bits == word16(n as int),
{
    if n < 0 {
        (n + 0x10000) as u32
    } else {
        n as u32
    }
}

/// The message parameter for a point, where both coordinates fit a word.
pub fn packed_point(x: i32, y: i32) -> (lparam: CoreResult<isize>)
    ensures
        error::judged(lparam) == packed(x, y),
{
    if x < -0x8000 || 0x8000 <= x {
        let mut message = "window x coordinate ".to_owned();
        message.append(signed_decimal(x).as_str());
        message.append(" exceeds i16");
        return Err(DesktopError::input_failed(message));
    }
    if y < -0x8000 || 0x8000 <= y {
        let mut message = "window y coordinate ".to_owned();
        message.append(signed_decimal(y).as_str());
        message.append(" exceeds i16");
        return Err(DesktopError::input_failed(message));
    }
    let bits = to_word16(x) + 0x10000 * to_word16(y);
    Ok(lparam_of_bits(bits))
}

/// The message parameter for wheel travel: the high word holds the delta.
pub open spec fn wheel_bits(delta: i32) -> Result<usize, Fault> {
    if fits16(delta as int) {
        Ok((0x10000 * word16(delta as int)) as usize)
    } else {
        Err(
            error::input_fault(
                "scroll delta "@ + text::signed_digits(delta as int) + " exceeds Win32 range"@,
            ),
        )
    }
}

/// The message parameter for wheel travel, where the delta fits a word.
pub fn wheel_wparam(delta: i32) -> (wparam: CoreResult<usize>)
    ensures
        error::judged(wparam) == wheel_bits(delta),
{
    if delta < -0x8000 || 0x8000 <= delta {
        let mut message = "scroll delta ".to_owned();
        message.append(signed_decimal(delta).as_str());
        message.append(" exceeds Win32 range");
        return Err(DesktopError::input_failed(message));
    }
    Ok((0x10000 * to_word16(delta)) as usize)
}

/// Wheel travel of `steps` notches, held to the range of a delta.
pub open spec fn wheel_travel(steps: int, notch: int) -> int {
    let travel = steps * notch;
    if travel > i32::MAX {
        i32::MAX as int
    } else if travel < i32::MIN {
        i32::MIN as int
    } else {
        travel
    }
}

/// Wheel travel of `steps` notches, held to the range of a delta.
pub fn saturating_travel(steps: i32, notch: i32) -> (travel: i32)
    ensures
        travel == wheel_travel(steps as int, notch as int),
{
    assert(-0x4000_0000_0000_0000 <= steps * notch <= 0x4000_0000_0000_0000) by (nonlinear_arith)
        requires
            -0x8000_0000 <= steps <= 0x7fff_ffff,
            -0x8000_0000 <= notch <= 0x7fff_ffff,
    ;
    let travel: i64 = steps as i64 * notch as i64;
    if travel > i32::MAX as i64 {
        i32::MAX
    } else if travel < i32::MIN as i64 {
        i32::MIN
    } else {
        travel as i32
    }
}

/// Modifier bits of a mouse message.
pub open spec fn modifier_flags(modifiers: Modifiers) -> usize {
    (if modifiers.ctrl { MK_CONTROL } else { 0 }) | (if modifiers.shift { MK_SHIFT } else { 0 })
}

/// Modifier bits of a mouse message: only Ctrl and Shift have one.
pub fn mouse_flags(modifiers: Modifiers) -> (flags: usize)
    ensures
        flags == modifier_flags(modifiers),
{
    (if modifiers.ctrl { MK_CONTROL } else { 0 }) | (if modifiers.shift { MK_SHIFT } else { 0 })
}

/// Press, release and double-click messages of a button, and its state bit.
pub open spec fn button_messages(button: MouseButton) -> (u32, u32, u32, usize) {
    match button {
        MouseButton::Left => (WM_LBUTTONDOWN, WM_LBUTTONUP, WM_LBUTTONDBLCLK, MK_LBUTTON),
        MouseButton::Right => (WM_RBUTTONDOWN, WM_RBUTTONUP, WM_RBUTTONDBLCLK, MK_RBUTTON),
        MouseButton::Middle => (WM_MBUTTONDOWN, WM_MBUTTONUP, WM_MBUTTONDBLCLK, MK_MBUTTON),
    }
}

/// Press, release and double-click messages of a button, and its state bit.
pub fn mouse_messages(button: MouseButton) -> (messages: (u32, u32, u32, usize))
    ensures
        messages == button_messages(button),
{
    match button {
        MouseButton::Left => (WM_LBUTTONDOWN, WM_LBUTTONUP, WM_LBUTTONDBLCLK, MK_LBUTTON),
        MouseButton::Right => (WM_RBUTTONDOWN, WM_RBUTTONUP, WM_RBUTTONDBLCLK, MK_RBUTTON),
        MouseButton::Middle => (WM_MBUTTONDOWN, WM_MBUTTONUP, WM_MBUTTONDBLCLK, MK_MBUTTON),
    }
}

/// Whether a key transition is a system key: Alt itself, or any key while Alt
/// is down.
pub open spec fn is_system(alt_depth: u8, vk: u16) -> bool {
    alt_depth > 0 || vk == VK_MENU
}

/// Bits of a posted key message: repeat count one, scan code in the third
/// byte, then the extended, context, previous-state and transition bits.
pub open spec fn key_bits(alt_depth: u8, vk: u16, down: bool, scan: u32) -> int {
    1 + 0x1_0000 * (scan % 0x100) + (if keys::extended(vk) { 0x100_0000 } else { 0int }) + (
    if is_system(alt_depth, vk) { 0x2000_0000 } else { 0int }) + (if down { 0int } else {
        0xc000_0000
    })
}

/// Message number of a posted key transition.
pub open spec fn key_message(alt_depth: u8, vk: u16, down: bool) -> u32 {
    if down {
        if is_system(alt_depth, vk) {
            WM_SYSKEYDOWN
        } else {
            WM_KEYDOWN
        }
    } else {
        if is_system(alt_depth, vk) {
            WM_SYSKEYUP
        } else {
            WM_KEYUP
        }
    }
}

/// Message number and signed parameter of a posted key transition.
pub fn key_transition(alt_depth: u8, vk: u16, down: bool, scan: u32) -> (message: (u32, isize))
    ensures
        message.0 == key_message(alt_depth, vk, down),
        message.1 == signed32(key_bits(alt_depth, vk, down, scan)),
{
    let system = alt_depth > 0 || vk == VK_MENU;
    let mut bits: u32 = 1 + 0x1_0000 * (scan % 0x100);
    if is_extended(vk) {
        bits = bits + 0x100_0000;
    }
    if system {
        bits = bits + 0x2000_0000;
    }
    if !down {
        bits = bits + 0xc000_0000;
    }
    let number = if down {
        if system {
            WM_SYSKEYDOWN
        } else {
            WM_KEYDOWN
        }
    } else if system {
        WM_SYSKEYUP
    } else {
        WM_KEYUP
    };
    (number, lparam_of_bits(bits))
}

/// Press and release flags of an injected button.
pub open spec fn injected_button(button: MouseButton) -> (u32, u32) {
    match button {
        MouseButton::Left => (MOUSEEVENTF_LEFTDOWN, MOUSEEVENTF_LEFTUP),
        MouseButton::Right => (MOUSEEVENTF_RIGHTDOWN, MOUSEEVENTF_RIGHTUP),
        MouseButton::Middle => (MOUSEEVENTF_MIDDLEDOWN, MOUSEEVENTF_MIDDLEUP),
    }
}

/// Press and release flags of an injected button.
pub fn button_flags(button: MouseButton) -> (flags: (u32, u32))
    ensures
        flags == injected_button(button),
{
    match button {
        MouseButton::Left => (MOUSEEVENTF_LEFTDOWN, MOUSEEVENTF_LEFTUP),
        MouseButton::Right => (MOUSEEVENTF_RIGHTDOWN, MOUSEEVENTF_RIGHTUP),
        MouseButton::Middle => (MOUSEEVENTF_MIDDLEDOWN, MOUSEEVENTF_MIDDLEUP),
    }
}

/// A mouse event that does not move the pointer.
pub open spec fn mouse_input(flags: u32, data: u32) -> InputEvent {
    InputEvent::Mouse { dx: 0, dy: 0, data, flags }
}

/// A mouse event that does not move the pointer.
pub fn mouse_event(flags: u32, data: u32) -> (event: InputEvent)
    ensures
        event == mouse_input(flags, data),
{
    InputEvent::Mouse { dx: 0, dy: 0, data, flags }
}

/// Wheel travel as the unsigned data of a mouse event.
pub open spec fn wheel_data(travel: int) -> u32 {
    (if travel < 0 { travel + 0x1_0000_0000 } else { travel }) as u32
}

/// Wheel travel as the unsigned data of a mouse event.
pub fn travel_data(travel: i32) -> (data: u32)
    ensures
        data == wheel_data(travel as int),
{
    if travel < 0 {
        (travel as i64 + 0x1_0000_0000) as u32
    } else {
        travel as u32
    }
}

/// Position of `at` on a virtual desktop axis that starts at `origin` and is
/// `extent` pixels long, in steps of 1/65535 of the axis.
pub open spec fn axis_position(at: int, origin: int, extent: int) -> int {
    if at <= origin {
        0
    } else if (at - origin) * 65_535 / (extent - 1) > 65_535 {
        65_535
    } else {
        (at - origin) * 65_535 / (extent - 1)
    }
}

/// Position of `at` on a virtual desktop axis, clamped to its two ends.
pub fn normalized(at: i32, origin: i32, extent: i32) -> (position: i32)
    requires
        extent > 1,
    ensures
        position == axis_position(at as int, origin as int, extent as int),
{
    let offset: i64 = at as i64 - origin as i64;
    if offset <= 0 {
        return 0;
    }
    let position: i64 = offset * 65_535 / (extent as i64 - 1);
    if position > 65_535 {
        65_535
    } else {
        assert(position >= 0) by (nonlinear_arith)
            requires
                position == offset * 65_535 / (extent - 1),
                offset > 0,
                extent > 1,
        ;
        position as i32
    }
}

/// An absolute move across the virtual desktop.
pub open spec fn absolute_move(dx: int, dy: int) -> InputEvent {
    InputEvent::Mouse {
        dx: dx as i32,
        dy: dy as i32,
        data: 0,
        flags: MOUSEEVENTF_MOVE | MOUSEEVENTF_ABSOLUTE | MOUSEEVENTF_VIRTUALDESK,
    }
}

/// An absolute move across the virtual desktop.
pub fn move_input(dx: i32, dy: i32) -> (event: InputEvent)
    ensures
        event == absolute_move(dx as int, dy as int),
{
    InputEvent::Mouse {
        dx,
        dy,
        data: 0,
        flags: MOUSEEVENTF_MOVE | MOUSEEVENTF_ABSOLUTE | MOUSEEVENTF_VIRTUALDESK,
    }
}

/// A keyboard event.
pub fn keyboard_input(vk: u16, scan: u16, flags: u32) -> (event: InputEvent)
    ensures
        event == (InputEvent::Keyboard { vk, scan, flags }),
{
    InputEvent::Keyboard { vk, scan, flags }
}

/// A virtual-key transition with its hardware scan code and extended flag.
pub open spec fn key_input(vk: u16, up: bool, scan: u32) -> InputEvent {
    InputEvent::Keyboard {
        vk,
        scan: (scan % 0x1_0000) as u16,
        flags: (if up { KEYEVENTF_KEYUP } else { 0 }) | (if keys::extended(vk) {
            KEYEVENTF_EXTENDEDKEY
        } else {
            0
        }),
    }
}

/// A virtual-key transition carrying the hardware scan code and extended
/// flag, for applications that read scan codes rather than virtual keys.
pub fn scanned_key(vk: u16, up: bool, scan: u32) -> (event: InputEvent)
    ensures
        event == key_input(vk, up, scan),
{
    let up_flag: u32 = if up {
        KEYEVENTF_KEYUP
    } else {
        0
    };
    let extended_flag: u32 = if is_extended(vk) {
        KEYEVENTF_EXTENDEDKEY
    } else {
        0
    };
    keyboard_input(vk, (scan % 0x1_0000) as u16, up_flag | extended_flag)
}

/// A transition that types one UTF-16 code unit.
pub open spec fn unicode_input(unit: u16, up: bool) -> InputEvent {
    InputEvent::Keyboard {
        vk: 0,
        scan: unit,
        flags: if up {
            KEYEVENTF_UNICODE | KEYEVENTF_KEYUP
        } else {
            KEYEVENTF_UNICODE
        },
    }
}

/// A transition that types one UTF-16 code unit.
pub fn unicode_event(unit: u16, up: bool) -> (event: InputEvent)
    ensures
        event == unicode_input(unit, up),
{
    keyboard_input(
        0,
        unit,
        if up {
            KEYEVENTF_UNICODE | KEYEVENTF_KEYUP
        } else {
            KEYEVENTF_UNICODE
        },
    )
}

/// A transition of the reserved key that no application reacts to.
pub open spec fn noname_input(flags: u32) -> InputEvent {
    InputEvent::Keyboard { vk: VK_NONAME, scan: 0, flags }
}

/// A transition of the reserved key that no application reacts to.
pub fn noname_key(flags: u32) -> (event: InputEvent)
    ensures
        event == noname_input(flags),
{
    keyboard_input(VK_NONAME, 0, flags)
}

/// A packed point can be read back: each coordinate is the signed word in its
/// half of the message parameter.
pub proof fn law_packed_point_reads_back(x: i32, y: i32)
    ensures
        packed(x, y) is Ok <==> fits16(x as int) && fits16(y as int),
        packed(x, y) matches Ok(lparam) ==> {
            &&& signed16(lparam as int % 0x1_0000) == x
            &&& signed16((lparam as int / 0x1_0000) % 0x1_0000) == y
        },
{
}

/// Wheel travel can be read back: it is the signed high word of the message
/// parameter, and the low word holds no key.
pub proof fn law_wheel_reads_back(delta: i32)
    ensures
        wheel_bits(delta) is Ok <==> fits16(delta as int),
        wheel_bits(delta) matches Ok(wparam) ==> {
            &&& signed16(wparam as int / 0x1_0000) == delta
            &&& wparam as int % 0x1_0000 == 0
        },
{
}

/// Wheel travel points where the steps point, and is exact unless it is held to
/// the range of a delta.
pub proof fn law_travel_keeps_direction(steps: i32)
    ensures
        steps > 0 ==> wheel_travel(steps as int, 120) > 0 && wheel_travel(steps as int, -120) < 0,
        steps < 0 ==> wheel_travel(steps as int, 120) < 0 && wheel_travel(steps as int, -120) > 0,
        steps == 0 ==> wheel_travel(steps as int, 120) == 0 && wheel_travel(steps as int, -120)
            == 0,
        -0x100_0000 <= steps <= 0x100_0000 ==> wheel_travel(steps as int, 120) == 120 * steps
            && wheel_travel(steps as int, -120) == -120 * steps,
{
}

/// The data of a wheel event reads back as its travel.
pub proof fn law_wheel_data_reads_back(travel: i32)
    ensures
        signed32(wheel_data(travel as int) as int) == travel,
{
}

/// The bits of a posted key occupy separate fields: the repeat count, the scan
/// code, and the extended, context, previous-state and transition bits.
pub proof fn law_key_bits_are_fields(alt_depth: u8, vk: u16, down: bool, scan: u32)
    ensures
        key_bits(alt_depth, vk, down, scan) == 1u32 | ((scan & 0xff) << 16) | (if keys::extended(
            vk,
        ) {
            0x100_0000u32
        } else {
            0
        }) | (if is_system(alt_depth, vk) {
            0x2000_0000u32
        } else {
            0
        }) | (if down {
            0
        } else {
            0xc000_0000u32
        }),
{
    let code = scan % 0x100;
    let e: u32 = if keys::extended(vk) {
        0x100_0000
    } else {
        0
    };
    let s: u32 = if is_system(alt_depth, vk) {
        0x2000_0000
    } else {
        0
    };
    let u: u32 = if down {
        0
    } else {
        0xc000_0000
    };
    assert(1 + 0x1_0000 * (scan % 0x100) + e + s + u == 1u32 | ((scan & 0xff) << 16) | e | s | u)
        by (bit_vector)
        requires
            e == 0 || e == 0x100_0000u32,
            s == 0 || s == 0x2000_0000u32,
            u == 0 || u == 0xc000_0000u32,
    ;
}

/// A key going up differs from the same key going down in the previous-state
/// and transition bits only, and in the message it is posted as.
pub proof fn law_release_mirrors_press(alt_depth: u8, vk: u16, scan: u32)
    ensures
        key_bits(alt_depth, vk, false, scan) == key_bits(alt_depth, vk, true, scan) + 0xc000_0000,
        key_message(alt_depth, vk, false) == key_message(alt_depth, vk, true) + 1,
{
}

/// A position lies on the axis, its two ends are the ends of the axis, and a
/// point further along never comes first.
pub proof fn law_axis_is_covered(at: int, further: int, origin: int, extent: int)
    requires
        extent > 1,
        at <= further,
    ensures
        0 <= axis_position(at, origin, extent) <= 65_535,
        axis_position(origin, origin, extent) == 0,
        axis_position(origin + extent - 1, origin, extent) == 65_535,
        axis_position(at, origin, extent) <= axis_position(further, origin, extent),
{
    assert((extent - 1) * 65_535 / (extent - 1) == 65_535) by (nonlinear_arith)
        requires
            extent > 1,
    ;
    if at > origin {
        assert(0 <= (at - origin) * 65_535 / (extent - 1) <= (further - origin) * 65_535 / (extent
            - 1)) by (nonlinear_arith)
            requires
                extent > 1,
                origin < at <= further,
        ;
    }
}

} // verus!
