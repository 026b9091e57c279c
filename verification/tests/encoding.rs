//! Numbers, text, keys and messages.

use win32_input::error::{DesktopError, ErrorKind};
use win32_input::keys::{
    fixed_virtual_key, is_extended, modifier_keys, KeyName, Modifiers, MouseButton,
};
use win32_input::message::{
    button_flags, key_transition, mouse_event, mouse_flags, mouse_messages, move_input, noname_key,
    normalized, packed_point, saturating_travel, scanned_key, travel_data, unicode_event,
    wheel_wparam,
};
use win32_input::request::InputEvent;
use win32_input::text::{
    characters, decimal, decode_utf16_lossy, encode_utf16, parse_word, signed_decimal,
};
use win32_input::window::{
    distinct_threads, integrity_name, is_xaml_host_class, path_is_any,
};

fn wide(text: &str) -> Vec<u16> {
    text.encode_utf16().collect()
}

fn input_failed(message: &str) -> DesktopError {
    DesktopError::input_failed(message.to_string())
}

#[test]
fn numbers_are_written_in_decimal() {
    assert_eq!(decimal(0), "0");
    assert_eq!(decimal(10), "10");
    assert_eq!(decimal(u64::MAX), u64::MAX.to_string());
    assert_eq!(signed_decimal(-1), "-1");
    assert_eq!(signed_decimal(i32::MIN), i32::MIN.to_string());
    assert_eq!(signed_decimal(40_000), "40000");
}

#[test]
fn words_are_read_like_the_standard_library_reads_them() {
    let largest = usize::MAX.to_string();
    let past = format!("{}0", usize::MAX);
    for text in [
        "0", "7", "+7", "007", "131842", "", "+", "-1", "+-1", "++1", " 1", "1 ", "0x10", "1_000",
        "12a", "\u{663}", largest.as_str(), past.as_str(),
    ] {
        assert_eq!(parse_word(text), text.parse::<usize>().ok(), "{text:?}");
    }
}

#[test]
fn a_number_reads_back_from_its_digits() {
    for n in [0usize, 9, 10, 65_552, usize::MAX] {
        assert_eq!(parse_word(&decimal(n as u64)), Some(n));
    }
}

#[test]
fn characters_come_one_by_one() {
    assert_eq!(characters("a\u{e9}\u{1f600}"), vec!['a', '\u{e9}', '\u{1f600}']);
    assert_eq!(characters(""), Vec::<char>::new());
}

#[test]
fn utf16_matches_the_standard_library() {
    for c in ['a', '\u{7ff}', '\u{d7ff}', '\u{e000}', '\u{ffff}', '\u{10000}', '\u{10ffff}'] {
        let mut buffer = [0; 2];
        assert_eq!(encode_utf16(c), c.encode_utf16(&mut buffer).to_vec());
    }
}

#[test]
fn utf16_reads_back() {
    let text = "Edit \u{10348}\u{ffff}\u{1f600}";
    let mut units = Vec::new();
    for c in text.chars() {
        units.extend(encode_utf16(c));
    }
    assert_eq!(decode_utf16_lossy(&units), text);
}

#[test]
fn unpaired_surrogates_become_replacements() {
    assert_eq!(decode_utf16_lossy(&[0xd83d]), "\u{fffd}");
    assert_eq!(decode_utf16_lossy(&[0xde00, 0x61]), "\u{fffd}a");
    assert_eq!(decode_utf16_lossy(&[0xd83d, 0x61]), "\u{fffd}a");
    assert_eq!(decode_utf16_lossy(&[0xd83d, 0xd83d, 0xde00]), "\u{fffd}\u{1f600}");
    let units = [0x61, 0xdfff, 0xd800, 0xdc00, 0xdbff];
    assert_eq!(decode_utf16_lossy(&units), String::from_utf16_lossy(&units));
}

#[test]
fn modifiers_come_in_order() {
    let all = Modifiers { ctrl: true, alt: true, shift: true, meta: true };
    assert_eq!(
        modifier_keys(all),
        vec![KeyName::Ctrl, KeyName::Alt, KeyName::Shift, KeyName::Meta]
    );
    let some = Modifiers { ctrl: false, alt: true, shift: false, meta: true };
    assert_eq!(modifier_keys(some), vec![KeyName::Alt, KeyName::Meta]);
    assert_eq!(modifier_keys(Modifiers::default()), Vec::<KeyName>::new());
}

#[test]
fn modifier_keys_are_known() {
    for key in [KeyName::Ctrl, KeyName::Alt, KeyName::Shift, KeyName::Meta] {
        assert!(key.is_modifier());
    }
    for key in [KeyName::CapsLock, KeyName::F1, KeyName::Char('a')] {
        assert!(!key.is_modifier());
    }
}

#[test]
fn named_keys_have_virtual_keys_of_their_own() {
    let named = [
        (KeyName::Ctrl, 0x11), (KeyName::Alt, 0x12), (KeyName::Shift, 0x10), (KeyName::Meta, 0x5b),
        (KeyName::Enter, 0x0d), (KeyName::Escape, 0x1b), (KeyName::Tab, 0x09),
        (KeyName::Space, 0x20), (KeyName::Backspace, 0x08), (KeyName::Delete, 0x2e),
        (KeyName::Insert, 0x2d), (KeyName::Home, 0x24), (KeyName::End, 0x23),
        (KeyName::PageUp, 0x21), (KeyName::PageDown, 0x22), (KeyName::Up, 0x26),
        (KeyName::Down, 0x28), (KeyName::Left, 0x25), (KeyName::Right, 0x27),
        (KeyName::CapsLock, 0x14), (KeyName::NumLock, 0x90), (KeyName::PrintScreen, 0x2c),
        (KeyName::F1, 0x70), (KeyName::F2, 0x71), (KeyName::F3, 0x72), (KeyName::F4, 0x73),
        (KeyName::F5, 0x74), (KeyName::F6, 0x75), (KeyName::F7, 0x76), (KeyName::F8, 0x77),
        (KeyName::F9, 0x78), (KeyName::F10, 0x79), (KeyName::F11, 0x7a), (KeyName::F12, 0x7b),
        (KeyName::F13, 0x7c), (KeyName::F14, 0x7d), (KeyName::F15, 0x7e), (KeyName::F16, 0x7f),
        (KeyName::F17, 0x80), (KeyName::F18, 0x81), (KeyName::F19, 0x82), (KeyName::F20, 0x83),
        (KeyName::F21, 0x84), (KeyName::F22, 0x85), (KeyName::F23, 0x86), (KeyName::F24, 0x87),
    ];
    for (key, vk) in named {
        assert_eq!(fixed_virtual_key(key), Some(vk), "{key:?}");
    }
    for (i, first) in named.iter().enumerate() {
        for second in &named[i + 1..] {
            assert_ne!(first.1, second.1);
        }
    }
    assert_eq!(fixed_virtual_key(KeyName::Char('a')), None);
}

#[test]
fn extended_keys() {
    let extended: Vec<u16> = (0..=0xff).filter(|&vk| is_extended(vk)).collect();
    assert_eq!(
        extended,
        vec![
            0x21, 0x22, 0x23, 0x24, 0x25, 0x26, 0x27, 0x28, 0x2c, 0x2d, 0x2e, 0x5b, 0x90
        ]
    );
}

#[test]
fn points_are_packed_into_two_words() {
    assert_eq!(packed_point(0, 0), Ok(0));
    assert_eq!(packed_point(3, 5), Ok(0x0005_0003));
    assert_eq!(packed_point(-1, 0), Ok(0xffff));
    assert_eq!(packed_point(0, -1), Ok(-0x1_0000));
    assert_eq!(packed_point(-1, -1), Ok(-1));
    assert_eq!(packed_point(32_767, -32_768), Ok(i32::from_ne_bytes(0x8000_7fffu32.to_ne_bytes()) as isize));
    assert_eq!(
        packed_point(32_768, 99_999),
        Err(input_failed("window x coordinate 32768 exceeds i16"))
    );
    assert_eq!(
        packed_point(7, -32_769),
        Err(input_failed("window y coordinate -32769 exceeds i16"))
    );
}

#[test]
fn packed_points_read_back() {
    for (x, y) in [(0, 0), (-1, 1), (32_767, -32_768), (-32_768, 32_767), (1_919, 1_079)] {
        let bits = packed_point(x, y).unwrap() as i32 as u32;
        assert_eq!((bits & 0xffff) as u16 as i16 as i32, x);
        assert_eq!((bits >> 16) as u16 as i16 as i32, y);
    }
}

#[test]
fn wheel_travel_is_packed_into_the_high_word() {
    assert_eq!(wheel_wparam(120), Ok(0x0078_0000));
    assert_eq!(wheel_wparam(-120), Ok(0xff88_0000));
    assert_eq!(wheel_wparam(-32_768), Ok(0x8000_0000));
    assert_eq!(
        wheel_wparam(32_760 + 120),
        Err(input_failed("scroll delta 32880 exceeds Win32 range"))
    );
    assert_eq!(
        wheel_wparam(i32::MIN),
        Err(input_failed("scroll delta -2147483648 exceeds Win32 range"))
    );
}

#[test]
fn wheel_travel_saturates_like_the_standard_library() {
    for steps in [0, 1, -1, 17_895_697, 17_895_698, i32::MAX, i32::MIN] {
        for notch in [120, -120, i32::MAX, i32::MIN] {
            assert_eq!(saturating_travel(steps, notch), steps.saturating_mul(notch));
        }
    }
}

#[test]
fn wheel_data_is_twos_complement() {
    for travel in [0, 120, -120, i32::MAX, i32::MIN] {
        assert_eq!(travel_data(travel), travel as u32);
        assert_eq!(travel_data(travel) as i32, travel);
    }
}

#[test]
fn mouse_message_bits() {
    let both = Modifiers { ctrl: true, alt: true, shift: true, meta: true };
    assert_eq!(mouse_flags(both), 0x0c);
    assert_eq!(mouse_flags(Modifiers { alt: true, ..Modifiers::default() }), 0);
    assert_eq!(mouse_flags(Modifiers { shift: true, ..Modifiers::default() }), 4);
    assert_eq!(mouse_messages(MouseButton::Left), (0x201, 0x202, 0x203, 1));
    assert_eq!(mouse_messages(MouseButton::Right), (0x204, 0x205, 0x206, 2));
    assert_eq!(mouse_messages(MouseButton::Middle), (0x207, 0x208, 0x209, 0x10));
    assert_eq!(button_flags(MouseButton::Left), (2, 4));
    assert_eq!(button_flags(MouseButton::Right), (8, 16));
    assert_eq!(button_flags(MouseButton::Middle), (32, 64));
}

#[test]
fn key_messages_carry_their_bits() {
    // A, without and with Alt.
    assert_eq!(key_transition(0, 0x41, true, 0x1e), (0x100, 0x001e_0001));
    assert_eq!(key_transition(1, 0x41, true, 0x1e), (0x104, 0x201e_0001));
    // Alt itself.
    assert_eq!(key_transition(0, 0x12, true, 0x38), (0x104, 0x2038_0001));
    // An extended key, with more scan bits than fit.
    assert_eq!(key_transition(0, 0x2e, true, 0xe053), (0x100, 0x0153_0001));
    let up = key_transition(0, 0x41, false, 0x1e);
    assert_eq!(up, (0x101, 0xc01e_0001u32 as i32 as isize));
    assert_eq!(key_transition(2, 0x41, false, 0x1e).0, 0x105);
}

#[test]
fn key_bits_are_separate_fields() {
    for (alt, vk, down, scan) in
        [(0, 0x41, true, 0x1e), (3, 0x2e, false, 0x153), (0, 0x12, false, 0x38), (0, 0x5b, true, 0)]
    {
        let system = alt > 0 || vk == 0x12;
        let mut bits = 1u32 | ((scan & 0xff) << 16);
        if is_extended(vk) {
            bits |= 1 << 24;
        }
        if system {
            bits |= 1 << 29;
        }
        if !down {
            bits |= (1 << 30) | (1 << 31);
        }
        assert_eq!(key_transition(alt, vk, down, scan).1, bits as i32 as isize);
    }
}

#[test]
fn a_release_mirrors_its_press() {
    for (alt, vk, scan) in [(0, 0x41, 0x1e), (1, 0x41, 0x1e), (0, 0x12, 0x38), (0, 0x25, 0x4b)] {
        let down = key_transition(alt, vk, true, scan);
        let up = key_transition(alt, vk, false, scan);
        assert_eq!(up.0, down.0 + 1);
        assert_eq!(up.1 as i32 as u32, down.1 as i32 as u32 | 0xc000_0000);
    }
}

#[test]
fn axis_positions() {
    assert_eq!(normalized(0, 0, 1_920), 0);
    assert_eq!(normalized(1_919, 0, 1_920), 65_535);
    assert_eq!(normalized(960, 0, 1_920), 960 * 65_535 / 1_919);
    assert_eq!(normalized(-1, 0, 1_920), 0);
    assert_eq!(normalized(5_000, 0, 1_920), 65_535);
    assert_eq!(normalized(-1_280, -1_280, 3_200), 0);
    assert_eq!(normalized(0, -1_280, 3_200), 1_280 * 65_535 / 3_199);
    assert_eq!(normalized(1, 0, 2), 65_535);
    assert_eq!(normalized(i32::MAX, i32::MIN, 2), 65_535);
    assert_eq!(normalized(i32::MIN, i32::MAX, 2), 0);
}

#[test]
fn axis_positions_never_go_back() {
    let mut last = 0;
    for at in -10..400 {
        let position = normalized(at, 0, 300);
        assert!((last..=65_535).contains(&position));
        last = position;
    }
}

#[test]
fn injected_events() {
    assert_eq!(mouse_event(2, 7), InputEvent::Mouse { dx: 0, dy: 0, data: 7, flags: 2 });
    assert_eq!(move_input(3, 4), InputEvent::Mouse { dx: 3, dy: 4, data: 0, flags: 0xc001 });
    assert_eq!(scanned_key(0x41, false, 0x1e), InputEvent::Keyboard { vk: 0x41, scan: 0x1e, flags: 0 });
    assert_eq!(
        scanned_key(0x2e, true, 0x1_e053),
        InputEvent::Keyboard { vk: 0x2e, scan: 0xe053, flags: 3 }
    );
    assert_eq!(unicode_event(0x20ac, false), InputEvent::Keyboard { vk: 0, scan: 0x20ac, flags: 4 });
    assert_eq!(unicode_event(0x20ac, true), InputEvent::Keyboard { vk: 0, scan: 0x20ac, flags: 6 });
    assert_eq!(noname_key(2), InputEvent::Keyboard { vk: 0xfc, scan: 0, flags: 2 });
}

#[test]
fn integrity_names() {
    assert_eq!(integrity_name(0), "untrusted");
    assert_eq!(integrity_name(0x0fff), "untrusted");
    assert_eq!(integrity_name(0x1000), "low");
    assert_eq!(integrity_name(0x2000), "medium");
    assert_eq!(integrity_name(0x2fff), "medium");
    assert_eq!(integrity_name(0x3000), "high");
    assert_eq!(integrity_name(0x4000), "system");
    assert_eq!(integrity_name(u32::MAX), "system");
}

#[test]
fn threads_are_listed_once() {
    assert_eq!(distinct_threads(7, &[]), vec![7]);
    assert_eq!(distinct_threads(7, &[9, 7, 0, 8, 9]), vec![7, 9, 8]);
}

#[test]
fn executables_are_known_by_file_name() {
    let names = ["notepad.exe", "calc.exe"];
    assert!(path_is_any(&wide(r"C:\Windows\notepad.exe"), &names));
    assert!(path_is_any(&wide("C:/Windows/calc.exe"), &names));
    assert!(path_is_any(&wide("calc.exe"), &names));
    assert!(!path_is_any(&wide(r"C:\notepad.exe\other.exe"), &names));
    assert!(!path_is_any(&wide(r"C:\xnotepad.exe"), &names));
    assert!(!path_is_any(&wide(r"C:\notepad.exe\"), &names));
    assert!(!path_is_any(&wide("notepad.ex"), &names));
    assert!(!path_is_any(&[], &names));
    assert!(!path_is_any(&wide("calc.exe"), &[]));
    // A wide unit that only resembles an ASCII letter in its low byte.
    assert!(!path_is_any(&[0x163, 0x61, 0x6c, 0x63, 0x2e, 0x65, 0x78, 0x65], &names));
}

#[test]
fn case_does_not_matter() {
    let names = ["systemsettings.exe"];
    assert!(path_is_any(&wide(r"C:\ImmersiveControlPanel\SystemSettings.EXE"), &names));
    assert!(path_is_any(&wide(r"c:\immersivecontrolpanel\systemsettings.exe"), &names));
    // The Kelvin sign folds to a letter elsewhere, but it is not ASCII.
    assert!(!path_is_any(&wide("\u{212a}"), &["k"]));
}

#[test]
fn xaml_classes() {
    for class in [
        "ApplicationFrameWindow",
        "WinUIDesktopWin32WindowClass",
        "Windows.UI.Core.CoreWindow",
        "Microsoft.UI.Content.DesktopChildSiteBridge",
    ] {
        assert!(is_xaml_host_class(&class.to_string()));
    }
    assert!(!is_xaml_host_class(&"Notepad".to_string()));
    assert!(!is_xaml_host_class(&"applicationframewindow".to_string()));
}

#[test]
fn errors_keep_their_kind_and_text() {
    let errors = [
        (DesktopError::input_failed("a".to_string()), ErrorKind::InputFailed),
        (DesktopError::invalid_target("a".to_string()), ErrorKind::InvalidTarget),
        (DesktopError::window_not_found("a".to_string()), ErrorKind::WindowNotFound),
        (DesktopError::permission_denied("a".to_string()), ErrorKind::PermissionDenied),
        (DesktopError::background_unavailable("a".to_string()), ErrorKind::BackgroundUnavailable),
    ];
    for (error, kind) in errors {
        assert_eq!(error.kind, kind);
        assert_eq!(error.message, "a");
        assert_eq!(error.duplicate(), error);
    }
}
