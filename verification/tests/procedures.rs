//! Whole procedures, run against a pretend desktop.

use win32_input::activation::{
    activate, attach_and_activate, contain_activation, contain_pattern_activation, release,
    wait_for_foreground, Containment,
};
use win32_input::background;
use win32_input::delivery::{ensure_delivery, ensure_integrity, ensure_text_supported, hwnd, refusal};
use win32_input::emitter::{virtual_key, KeyEmitter};
use win32_input::error::{CoreResult, DesktopError, ErrorKind};
use win32_input::foreground;
use win32_input::global::{enigo_error, global_key_chord, global_pointer, initialization_error};
use win32_input::input::{key_chord, pointer, raise_window, type_text};
use win32_input::keys::{KeyName, Modifiers, MouseButton};
use win32_input::request::{
    Axis, DeliveryMode, Direction, EventKind, InputEvent, Point, PointerEvent, Spot, Target,
    TextUnit,
};
use win32_input::tape::{Call, Plain, Reply, Tape};
use win32_input::window::{
    class_name, deepest_child, depth_below, executable_is_any, focused_descendant,
    has_chromium_descendant, integrity_level, is_xaml_host, owns_foreground, root, uipi_block,
};

/// A pretend desktop that answers calls and notes them.
struct Desk {
    calls: Vec<Call>,
    /// Answers that take the place of the desktop's own, by a match on the call.
    overrides: Vec<(Call, Vec<Reply>)>,
    foreground: usize,
    style: u32,
    clock: u64,
    label: usize,
    own_level: u32,
    target_level: u32,
    /// Whether `SetForegroundWindow` works.
    yields: bool,
}

const TARGET: usize = 100;
const USER: usize = 200;

fn wide(text: &str) -> Vec<u16> {
    text.encode_utf16().collect()
}

fn plain(call: Plain) -> Call {
    Call::Plain(call)
}

impl Desk {
    fn new() -> Desk {
        Desk {
            calls: Vec::new(),
            overrides: Vec::new(),
            foreground: USER,
            style: 0x100,
            clock: 0,
            label: 0,
            own_level: 0x2000,
            target_level: 0x2000,
            yields: true,
        }
    }

    /// Answers `call` with these replies in turn, and the last of them from
    /// then on.
    fn on(mut self, call: Call, replies: Vec<Reply>) -> Desk {
        self.overrides.push((call, replies));
        self
    }

    fn answer(&mut self, call: &Call) -> Reply {
        for (special, replies) in &mut self.overrides {
            if special == call {
                let reply = replies.remove(0);
                if replies.is_empty() {
                    replies.push(twin(&reply));
                }
                return reply;
            }
        }
        match call {
            Call::SendInput { events } => Reply::Word(events.len() as u32),
            Call::GlobalText { .. } => Reply::Performed(Ok(())),
            Call::IsChromium { class } => Reply::Flag(class.starts_with("Chrome_")),
            Call::DropReason { .. } => Reply::Text(None),
            Call::TextUnsupported { .. } => Reply::Text(None),
            Call::TextUnits { text } => Reply::TextUnits(
                text.chars()
                    .map(|c| if c == '\n' { TextUnit::Enter } else { TextUnit::Char(c) })
                    .collect(),
            ),
            Call::Plain(call) => self.answer_plain(*call),
        }
    }

    fn answer_plain(&mut self, call: Plain) -> Reply {
        match call {
            Plain::GlobalKey { .. }
            | Plain::GlobalButton { .. }
            | Plain::GlobalMove { .. }
            | Plain::GlobalScroll { .. } => Reply::Performed(Ok(())),
            Plain::Locate { at } => {
                Reply::Located(Ok(Point { x: at.x as i32, y: at.y as i32 }))
            },
            Plain::InvokeAtPoint { .. } => Reply::Flag(false),
            Plain::PostsDoubleClick { index, wants_double } => {
                Reply::Flag(wants_double && index % 2 == 1)
            },
            Plain::NonClientRegion { .. } => Reply::Text(None),
            Plain::KindName { kind } => Reply::Text(Some(format!("{kind:?}"))),
            Plain::Sleep { millis } => {
                self.clock += millis * 1_000_000;
                Reply::Nothing
            },
            Plain::Now => Reply::Time(self.clock),
            Plain::IsWindow { .. } => Reply::Flag(true),
            Plain::IsChild { .. } => Reply::Flag(true),
            Plain::IsIconic { .. } => Reply::Flag(false),
            Plain::IsHung { .. } => Reply::Flag(false),
            Plain::Post { .. } => Reply::Posted(Ok(())),
            Plain::SendTimeout { .. } => Reply::Found(Some(1)),
            Plain::ScreenToClient { point, .. } => {
                Reply::Point(Some(Point { x: point.x - 10, y: point.y - 20 }))
            },
            Plain::ChildFromPoint { .. } => Reply::Handle(0),
            Plain::ClassStyle { .. } => Reply::Word(8),
            Plain::ClassName { .. } => Reply::Units(Some(wide("Edit"))),
            Plain::VkKeyScan { unit } => match unit {
                0x61..=0x7a => Reply::Scan((unit - 0x20) as i16),
                0x41..=0x5a => Reply::Scan(0x100 | unit as i16),
                0x40 => Reply::Scan(0x0651),
                _ => Reply::Scan(-1),
            },
            Plain::MapVirtualKey { vk } => Reply::Word(vk as u32 + 1),
            Plain::ForegroundWindow => Reply::Handle(self.foreground),
            Plain::SetForeground { window } => {
                if self.yields {
                    self.foreground = window;
                }
                Reply::Flag(self.yields)
            },
            Plain::Ancestor { window, relation } => {
                Reply::Handle(if relation == 1 { 0 } else { window })
            },
            Plain::Descendants { .. } => Reply::Handles(vec![]),
            Plain::DescendantThreads { .. } => Reply::Words(vec![]),
            Plain::ThreadOf { .. } => Reply::Word(7),
            Plain::ProcessOf { .. } => Reply::Word(42),
            Plain::FocusOf { .. } => Reply::Found(None),
            Plain::OwnThread => Reply::Word(1),
            Plain::OwnProcess => Reply::Handle(500),
            Plain::AttachInput { .. } => Reply::Flag(true),
            Plain::OpenProcess { .. } => Reply::Handle(900),
            Plain::OpenToken { process } => Reply::Found(Some(process + 1)),
            Plain::ReadLabel { token } => {
                self.label = token;
                Reply::Flag(true)
            },
            Plain::SubAuthorityCount => Reply::Maybe(Some(1)),
            Plain::SubAuthority { .. } => {
                Reply::Maybe(Some(if self.label == 501 { self.own_level } else { self.target_level }))
            },
            Plain::ImageName { .. } => Reply::Units(Some(wide(r"C:\app.exe"))),
            Plain::Close { .. } => Reply::Nothing,
            Plain::ExStyle { .. } => Reply::Word(self.style),
            Plain::SetExStyle { style, .. } => {
                self.style = style;
                Reply::Nothing
            },
            Plain::Enable { .. } => Reply::Flag(false),
            Plain::Restore { .. } => Reply::Nothing,
            Plain::CursorPos => Reply::Point(Some(Point { x: 5, y: 6 })),
            Plain::SetCursorPos { .. } => Reply::Flag(true),
            Plain::Metric { metric } => Reply::Signed(match metric {
                78 => 1_920,
                79 => 1_080,
                _ => 0,
            }),
        }
    }

    /// Runs a procedure to its end, as a host does.
    fn run<T>(&mut self, procedure: impl Fn(&mut Tape<'_>) -> Option<T>) -> T {
        let mut replies: Vec<Reply> = Vec::new();
        self.calls.clear();
        loop {
            let mut tape = Tape::new(&replies);
            if let Some(value) = procedure(&mut tape) {
                assert!(tape.into_pending().is_none());
                return value;
            }
            let call = tape.into_pending().unwrap();
            replies.push(self.answer(&call));
            self.calls.push(call);
        }
    }

    fn count(&self, wanted: impl Fn(&Call) -> bool) -> usize {
        self.calls.iter().filter(|call| wanted(call)).count()
    }

    /// Messages posted, as window, message, first and second parameter.
    fn posts(&self) -> Vec<(usize, u32, usize, isize)> {
        self.calls
            .iter()
            .filter_map(|call| match call {
                Call::Plain(Plain::Post { window, message, wparam, lparam }) => {
                    Some((*window, *message, *wparam, *lparam))
                },
                _ => None,
            })
            .collect()
    }

    /// Batches of injected input.
    fn batches(&self) -> Vec<&[InputEvent]> {
        self.calls
            .iter()
            .filter_map(|call| match call {
                Call::SendInput { events } => Some(events.as_slice()),
                _ => None,
            })
            .collect()
    }
}

fn twin(reply: &Reply) -> Reply {
    match reply {
        Reply::Flag(value) => Reply::Flag(*value),
        Reply::Handle(value) => Reply::Handle(*value),
        Reply::Handles(values) => Reply::Handles(values.clone()),
        Reply::Found(value) => Reply::Found(*value),
        Reply::Word(value) => Reply::Word(*value),
        Reply::Words(values) => Reply::Words(values.clone()),
        Reply::Maybe(value) => Reply::Maybe(*value),
        Reply::Signed(value) => Reply::Signed(*value),
        Reply::Scan(value) => Reply::Scan(*value),
        Reply::Units(units) => Reply::Units(units.clone()),
        Reply::Point(point) => Reply::Point(*point),
        Reply::Located(Ok(point)) => Reply::Located(Ok(*point)),
        Reply::Located(Err(error)) => Reply::Located(Err(error.duplicate())),
        Reply::Text(text) => Reply::Text(text.clone()),
        Reply::TextUnits(units) => Reply::TextUnits(units.clone()),
        Reply::Posted(result) => Reply::Posted(*result),
        Reply::Performed(result) => Reply::Performed(result.clone()),
        Reply::Time(value) => Reply::Time(*value),
        Reply::Nothing => Reply::Nothing,
    }
}

fn spot(x: u64, y: u64) -> Spot {
    Spot { x, y }
}

fn failed<T>(message: &str) -> CoreResult<T> {
    Err(DesktopError::input_failed(message.to_string()))
}

const NONE: Modifiers = Modifiers { ctrl: false, alt: false, shift: false, meta: false };
const CTRL_SHIFT: Modifiers = Modifiers { ctrl: true, alt: false, shift: true, meta: false };
const ALT: Modifiers = Modifiers { ctrl: false, alt: true, shift: false, meta: false };

fn click(count: u32, modifiers: Modifiers) -> PointerEvent {
    PointerEvent::Click { at: spot(30, 50), button: MouseButton::Left, count, modifiers }
}

fn drag(points: &[(u64, u64)], modifiers: Modifiers) -> PointerEvent {
    PointerEvent::Drag {
        path: points.iter().map(|&(x, y)| spot(x, y)).collect(),
        button: MouseButton::Left,
        modifiers,
    }
}

fn key(key: KeyName, direction: Direction) -> Call {
    plain(Plain::GlobalKey { key, direction })
}

fn button(direction: Direction) -> Call {
    plain(Plain::GlobalButton { button: MouseButton::Left, direction })
}

fn go(x: u64, y: u64) -> Call {
    plain(Plain::GlobalMove { at: spot(x, y) })
}

fn broken(detail: &str) -> Vec<Reply> {
    vec![Reply::Performed(Err(detail.to_string()))]
}

fn window(id: &str) -> Target {
    Target::Window(id.to_string())
}

fn is_device_call(call: &Call) -> bool {
    matches!(
        call,
        Call::SendInput { .. }
            | Call::GlobalText { .. }
            | Call::Plain(
                Plain::GlobalKey { .. }
                    | Plain::GlobalButton { .. }
                    | Plain::GlobalMove { .. }
                    | Plain::GlobalScroll { .. }
                    | Plain::SetCursorPos { .. }
            )
    )
}

fn is_change(call: &Call) -> bool {
    is_device_call(call)
        || matches!(
            call,
            Call::Plain(
                Plain::Post { .. }
                    | Plain::InvokeAtPoint { .. }
                    | Plain::SetForeground { .. }
                    | Plain::AttachInput { .. }
                    | Plain::SetExStyle { .. }
                    | Plain::Enable { .. }
                    | Plain::Restore { .. }
            )
        )
}

// The user's own devices.

#[test]
fn global_click_holds_modifiers() {
    let mut desk = Desk::new();
    let event = click(2, CTRL_SHIFT);
    assert_eq!(desk.run(|tape| global_pointer(tape, &event)), Ok(()));
    assert_eq!(
        desk.calls,
        vec![
            key(KeyName::Ctrl, Direction::Press),
            key(KeyName::Shift, Direction::Press),
            go(30, 50),
            button(Direction::Click),
            button(Direction::Click),
            key(KeyName::Shift, Direction::Release),
            key(KeyName::Ctrl, Direction::Release),
        ]
    );
}

#[test]
fn global_modifier_that_fails_releases_those_before_it() {
    let mut desk =
        Desk::new().on(key(KeyName::Shift, Direction::Press), broken("no shift"));
    let event = click(1, CTRL_SHIFT);
    assert_eq!(
        desk.run(|tape| global_pointer(tape, &event)),
        failed("Win32 global input failed: no shift")
    );
    assert_eq!(
        desk.calls,
        vec![
            key(KeyName::Ctrl, Direction::Press),
            key(KeyName::Shift, Direction::Press),
            key(KeyName::Ctrl, Direction::Release),
        ]
    );
}

#[test]
fn global_modifiers_are_released_whatever_fails() {
    let mut desk = Desk::new()
        .on(button(Direction::Click), broken("no button"))
        .on(key(KeyName::Shift, Direction::Release), broken("stuck"));
    let event = click(3, CTRL_SHIFT);
    assert_eq!(
        desk.run(|tape| global_pointer(tape, &event)),
        failed("Win32 global input failed: no button")
    );
    assert_eq!(desk.calls.len(), 6);
    assert_eq!(desk.calls[5], key(KeyName::Ctrl, Direction::Release));
}

#[test]
fn the_first_failed_release_is_reported() {
    let mut desk = Desk::new()
        .on(key(KeyName::Shift, Direction::Release), broken("first"))
        .on(key(KeyName::Ctrl, Direction::Release), broken("second"));
    let event = click(0, CTRL_SHIFT);
    assert_eq!(
        desk.run(|tape| global_pointer(tape, &event)),
        failed("Win32 global input failed: first")
    );
    assert_eq!(desk.calls.len(), 5);
}

#[test]
fn global_drag_follows_its_path() {
    let mut desk = Desk::new();
    let event = drag(&[(1, 2), (3, 4), (5, 6)], NONE);
    assert_eq!(desk.run(|tape| global_pointer(tape, &event)), Ok(()));
    assert_eq!(
        desk.calls,
        vec![
            go(1, 2),
            button(Direction::Press),
            go(3, 4),
            go(5, 6),
            button(Direction::Release),
        ]
    );
}

#[test]
fn global_drag_releases_its_button_whatever_fails() {
    let mut desk = Desk::new()
        .on(go(3, 4), broken("blocked"))
        .on(button(Direction::Release), broken("stuck"));
    let event = drag(&[(1, 2), (3, 4), (5, 6)], NONE);
    assert_eq!(
        desk.run(|tape| global_pointer(tape, &event)),
        failed("Win32 global input failed: blocked")
    );
    assert_eq!(desk.calls.last(), Some(&button(Direction::Release)));
    assert_eq!(desk.calls.len(), 4);
}

#[test]
fn global_drag_needs_a_path() {
    let mut desk = Desk::new();
    let event = drag(&[], CTRL_SHIFT);
    assert_eq!(desk.run(|tape| global_pointer(tape, &event)), failed("drag path is empty"));
    assert!(desk.calls.is_empty());
}

#[test]
fn global_move_and_scroll() {
    let mut desk = Desk::new();
    let event = PointerEvent::Move { at: spot(8, 9) };
    assert_eq!(desk.run(|tape| global_pointer(tape, &event)), Ok(()));
    assert_eq!(desk.calls, vec![go(8, 9)]);

    let event = PointerEvent::Scroll { at: spot(8, 9), horizontal: -2, vertical: 3 };
    assert_eq!(desk.run(|tape| global_pointer(tape, &event)), Ok(()));
    assert_eq!(
        desk.calls,
        vec![
            go(8, 9),
            plain(Plain::GlobalScroll { steps: -2, axis: Axis::Horizontal }),
            plain(Plain::GlobalScroll { steps: 3, axis: Axis::Vertical }),
        ]
    );

    let event = PointerEvent::Scroll { at: spot(8, 9), horizontal: 0, vertical: 0 };
    assert_eq!(desk.run(|tape| global_pointer(tape, &event)), Ok(()));
    assert_eq!(desk.calls, vec![go(8, 9)]);
}

#[test]
fn global_chord_presses_and_releases_in_reverse() {
    let mut desk = Desk::new();
    let keys = [KeyName::Ctrl, KeyName::Alt, KeyName::Delete];
    assert_eq!(desk.run(|tape| global_key_chord(tape, &keys)), Ok(()));
    assert_eq!(
        desk.calls,
        vec![
            key(KeyName::Ctrl, Direction::Press),
            key(KeyName::Alt, Direction::Press),
            key(KeyName::Delete, Direction::Press),
            key(KeyName::Delete, Direction::Release),
            key(KeyName::Alt, Direction::Release),
            key(KeyName::Ctrl, Direction::Release),
        ]
    );
}

#[test]
fn global_chord_of_one_key_is_a_click() {
    let mut desk = Desk::new();
    assert_eq!(desk.run(|tape| global_key_chord(tape, &[KeyName::Char('x')])), Ok(()));
    assert_eq!(desk.calls, vec![key(KeyName::Char('x'), Direction::Click)]);
}

#[test]
fn global_chord_leaves_no_key_down() {
    let mut desk = Desk::new().on(key(KeyName::Delete, Direction::Press), broken("no key"));
    let keys = [KeyName::Ctrl, KeyName::Alt, KeyName::Delete];
    assert_eq!(
        desk.run(|tape| global_key_chord(tape, &keys)),
        failed("Win32 global input failed: no key")
    );
    assert_eq!(
        desk.calls[3..],
        [key(KeyName::Alt, Direction::Release), key(KeyName::Ctrl, Direction::Release)]
    );

    let mut desk = Desk::new().on(key(KeyName::Alt, Direction::Release), broken("stuck"));
    assert_eq!(
        desk.run(|tape| global_key_chord(tape, &keys)),
        failed("Win32 global input failed: stuck")
    );
    assert_eq!(desk.calls.last(), Some(&key(KeyName::Ctrl, Direction::Release)));
}

#[test]
fn device_errors_name_their_source() {
    assert_eq!(enigo_error("boom").message, "Win32 global input failed: boom");
    assert_eq!(
        initialization_error("boom").message,
        "Win32 input initialization failed: boom"
    );
}

// Windows.

#[test]
fn a_window_without_a_root_is_its_own() {
    let ancestor = |window| plain(Plain::Ancestor { window, relation: 2 });
    let mut desk = Desk::new()
        .on(ancestor(7), vec![Reply::Handle(0)])
        .on(ancestor(8), vec![Reply::Handle(80)]);
    assert_eq!(desk.run(|tape| root(tape, 7)), 7);
    assert_eq!(desk.run(|tape| root(tape, 8)), 80);
}

#[test]
fn class_names_are_never_empty() {
    let mut desk = Desk::new();
    assert_eq!(desk.run(|tape| class_name(tape, TARGET)), "Edit");
    let call = || plain(Plain::ClassName { window: TARGET });
    let mut desk = Desk::new().on(call(), vec![Reply::Units(Some(vec![]))]);
    assert_eq!(desk.run(|tape| class_name(tape, TARGET)), "<unknown>");
    let mut desk = Desk::new().on(call(), vec![Reply::Units(None)]);
    assert_eq!(desk.run(|tape| class_name(tape, TARGET)), "<unknown>");
    let mut desk = Desk::new().on(call(), vec![Reply::Units(Some(vec![0x41, 0xd800]))]);
    assert_eq!(desk.run(|tape| class_name(tape, TARGET)), "A\u{fffd}");
}

#[test]
fn foreground_ownership_compares_roots() {
    let mut desk = Desk::new();
    assert!(!desk.run(|tape| owns_foreground(tape, TARGET)));
    desk.foreground = TARGET;
    assert!(desk.run(|tape| owns_foreground(tape, TARGET)));
    desk.foreground = 0;
    assert!(!desk.run(|tape| owns_foreground(tape, 0)));
    let mut desk = Desk::new()
        .on(plain(Plain::Ancestor { window: USER, relation: 2 }), vec![Reply::Handle(TARGET)]);
    assert!(desk.run(|tape| owns_foreground(tape, TARGET)));
}

#[test]
fn chromium_search_stops_at_the_first_hit() {
    let name = |window, class: &str| {
        (plain(Plain::ClassName { window }), vec![Reply::Units(Some(wide(class)))])
    };
    let mut desk = Desk::new().on(
        plain(Plain::Descendants { window: TARGET }),
        vec![Reply::Handles(vec![1, 2, 3])],
    );
    desk.overrides.push(name(2, "Chrome_WidgetWin_1"));
    assert!(desk.run(|tape| has_chromium_descendant(tape, TARGET)));
    assert_eq!(desk.calls.len(), 5);
    let mut desk = Desk::new();
    assert!(!desk.run(|tape| has_chromium_descendant(tape, TARGET)));
}

fn under(window: usize, point: Point) -> Call {
    plain(Plain::ChildFromPoint { window, point, flags: 7 })
}

#[test]
fn deepest_child_is_found_level_by_level() {
    let screen = Point { x: 100, y: 200 };
    let client = Point { x: 90, y: 180 };
    let inner = Point { x: 1, y: 2 };
    let mut desk = Desk::new()
        .on(under(TARGET, client), vec![Reply::Handle(11)])
        .on(under(11, client), vec![Reply::Handle(12)])
        .on(
            plain(Plain::ScreenToClient { window: 12, point: screen }),
            vec![Reply::Point(Some(inner))],
        )
        .on(under(12, inner), vec![Reply::Handle(12)]);
    let found = desk.run(|tape| deepest_child(tape, TARGET, screen));
    assert_eq!(found, Some((12, inner)));
    assert!(desk.calls.contains(&plain(Plain::IsChild { parent: TARGET, window: 12 })));
}

#[test]
fn deepest_child_stays_inside_the_root() {
    let screen = Point { x: 100, y: 200 };
    let client = Point { x: 90, y: 180 };
    let desk = || Desk::new().on(under(TARGET, client), vec![Reply::Handle(11)]);
    let mut stranger = desk()
        .on(plain(Plain::IsChild { parent: TARGET, window: 11 }), vec![Reply::Flag(false)]);
    assert_eq!(
        stranger.run(|tape| deepest_child(tape, TARGET, screen)),
        Some((TARGET, client))
    );
    let mut unmapped = desk()
        .on(plain(Plain::ScreenToClient { window: 11, point: screen }), vec![Reply::Point(None)]);
    assert_eq!(
        unmapped.run(|tape| deepest_child(tape, TARGET, screen)),
        Some((TARGET, client))
    );
    let mut lost = Desk::new().on(
        plain(Plain::ScreenToClient { window: TARGET, point: screen }),
        vec![Reply::Point(None)],
    );
    assert_eq!(lost.run(|tape| deepest_child(tape, TARGET, screen)), None);
    assert_eq!(lost.calls.len(), 1);
}

#[test]
fn nesting_is_searched_thirty_two_levels_deep() {
    let screen = Point { x: 100, y: 200 };
    let client = Point { x: 90, y: 180 };
    let mut desk = Desk::new();
    for level in 0..40 {
        desk.overrides.push((under(1_000 + level, client), vec![Reply::Handle(1_001 + level)]));
    }
    let found = desk.run(|tape| deepest_child(tape, 1_000, screen));
    assert_eq!(found, Some((1_032, client)));
}

fn parent(window: usize) -> Call {
    plain(Plain::Ancestor { window, relation: 1 })
}

#[test]
fn depth_counts_parent_links_up_to_a_bound() {
    let mut desk = Desk::new()
        .on(parent(13), vec![Reply::Handle(12)])
        .on(parent(12), vec![Reply::Handle(TARGET)]);
    assert_eq!(desk.run(|tape| depth_below(tape, TARGET, 13)), 2);
    assert_eq!(desk.run(|tape| depth_below(tape, TARGET, TARGET)), 0);
    assert_eq!(desk.run(|tape| depth_below(tape, 999, 13)), 2);
    let mut ring = Desk::new().on(parent(5), vec![Reply::Handle(5)]);
    assert_eq!(ring.run(|tape| depth_below(tape, TARGET, 5)), 64);
    assert_eq!(ring.calls.len(), 64);
}

fn focus(thread: u32) -> Call {
    plain(Plain::FocusOf { thread })
}

#[test]
fn the_deepest_focused_descendant_wins() {
    let mut desk = Desk::new()
        .on(
            plain(Plain::DescendantThreads { window: TARGET }),
            vec![Reply::Words(vec![8, 7, 0, 9, 10])],
        )
        .on(focus(7), vec![Reply::Found(Some(11))])
        .on(focus(8), vec![Reply::Found(Some(12))])
        .on(focus(9), vec![Reply::Found(Some(13))])
        .on(focus(10), vec![Reply::Found(Some(TARGET))])
        .on(parent(11), vec![Reply::Handle(TARGET)])
        .on(parent(12), vec![Reply::Handle(11)])
        .on(parent(13), vec![Reply::Handle(11)]);
    assert_eq!(desk.run(|tape| focused_descendant(tape, TARGET)), Some(12));
    assert_eq!(desk.count(|call| matches!(call, Call::Plain(Plain::FocusOf { .. }))), 4);
}

#[test]
fn focus_outside_the_root_does_not_count() {
    let mut desk = Desk::new()
        .on(focus(7), vec![Reply::Found(Some(11))])
        .on(plain(Plain::IsChild { parent: TARGET, window: 11 }), vec![Reply::Flag(false)]);
    assert_eq!(desk.run(|tape| focused_descendant(tape, TARGET)), None);
    let mut dead = Desk::new().on(plain(Plain::ThreadOf { window: TARGET }), vec![Reply::Word(0)]);
    assert_eq!(dead.run(|tape| focused_descendant(tape, TARGET)), None);
    assert_eq!(dead.calls.len(), 1);
}

#[test]
fn the_token_is_closed_once() {
    let mut desk = Desk::new();
    assert_eq!(desk.run(|tape| integrity_level(tape, 500)), Some(0x2000));
    assert_eq!(
        desk.calls,
        vec![
            plain(Plain::OpenToken { process: 500 }),
            plain(Plain::ReadLabel { token: 501 }),
            plain(Plain::Close { handle: 501 }),
            plain(Plain::SubAuthorityCount),
            plain(Plain::SubAuthority { last: 0 }),
        ]
    );
}

#[test]
fn unreadable_integrity_is_none() {
    let open = plain(Plain::OpenToken { process: 500 });
    let mut desk = Desk::new().on(open, vec![Reply::Found(None)]);
    assert_eq!(desk.run(|tape| integrity_level(tape, 500)), None);
    assert_eq!(desk.calls.len(), 1);

    let read = plain(Plain::ReadLabel { token: 501 });
    let mut desk = Desk::new().on(read, vec![Reply::Flag(false)]);
    assert_eq!(desk.run(|tape| integrity_level(tape, 500)), None);
    assert_eq!(desk.calls.last(), Some(&plain(Plain::Close { handle: 501 })));

    for count in [None, Some(0)] {
        let mut desk =
            Desk::new().on(plain(Plain::SubAuthorityCount), vec![Reply::Maybe(count)]);
        assert_eq!(desk.run(|tape| integrity_level(tape, 500)), None);
        assert_eq!(desk.count(|call| matches!(call, Call::Plain(Plain::Close { .. }))), 1);
    }

    let mut desk = Desk::new()
        .on(plain(Plain::SubAuthorityCount), vec![Reply::Maybe(Some(3))])
        .on(plain(Plain::SubAuthority { last: 2 }), vec![Reply::Maybe(None)]);
    assert_eq!(desk.run(|tape| integrity_level(tape, 500)), None);
}

const BLOCKED: &str = "process 42 runs at high integrity, above this process's medium integrity, \
     so Windows UIPI discards input sent to it; run omp at the same integrity level to drive it";

#[test]
fn higher_integrity_blocks_input() {
    let mut desk = Desk::new();
    assert_eq!(desk.run(|tape| uipi_block(tape, TARGET)), None);
    desk.target_level = 0x1000;
    assert_eq!(desk.run(|tape| uipi_block(tape, TARGET)), None);
    desk.target_level = 0x3000;
    assert_eq!(desk.run(|tape| uipi_block(tape, TARGET)), Some(BLOCKED.to_string()));
    assert_eq!(desk.calls.last(), Some(&plain(Plain::Close { handle: 900 })));
    assert_eq!(desk.count(|call| matches!(call, Call::Plain(Plain::Close { .. }))), 3);
}

#[test]
fn unknown_integrity_does_not_block_input() {
    let blocked = |call: Call, reply: Reply| {
        let mut desk = Desk::new().on(call, vec![reply]);
        desk.target_level = 0x4000;
        desk.run(|tape| uipi_block(tape, TARGET))
    };
    assert_eq!(blocked(plain(Plain::ProcessOf { window: TARGET }), Reply::Word(0)), None);
    assert_eq!(blocked(plain(Plain::OpenToken { process: 500 }), Reply::Found(None)), None);
    assert_eq!(blocked(plain(Plain::OpenProcess { pid: 42 }), Reply::Handle(0)), None);
    assert_eq!(blocked(plain(Plain::OpenToken { process: 900 }), Reply::Found(None)), None);
}

#[test]
fn executables_are_looked_up_and_closed() {
    let mut desk = Desk::new();
    assert!(desk.run(|tape| executable_is_any(tape, TARGET, &["other.exe", "APP.exe"])));
    assert_eq!(desk.calls.last(), Some(&plain(Plain::Close { handle: 900 })));
    assert!(!desk.run(|tape| executable_is_any(tape, TARGET, &["other.exe"])));
    let mut desk =
        Desk::new().on(plain(Plain::ImageName { process: 900 }), vec![Reply::Units(None)]);
    assert!(!desk.run(|tape| executable_is_any(tape, TARGET, &["app.exe"])));
    assert_eq!(desk.calls.last(), Some(&plain(Plain::Close { handle: 900 })));
    let mut desk = Desk::new().on(plain(Plain::OpenProcess { pid: 42 }), vec![Reply::Handle(0)]);
    assert!(!desk.run(|tape| executable_is_any(tape, TARGET, &["app.exe"])));
    assert_eq!(desk.calls.len(), 2);
}

#[test]
fn xaml_hosts_are_known_by_class_or_executable() {
    let mut desk = Desk::new();
    assert!(!desk.run(|tape| is_xaml_host(tape, TARGET)));
    let mut desk = Desk::new().on(
        plain(Plain::ClassName { window: TARGET }),
        vec![Reply::Units(Some(wide("ApplicationFrameWindow")))],
    );
    assert!(desk.run(|tape| is_xaml_host(tape, TARGET)));
    assert_eq!(desk.calls.len(), 1);
    for name in [
        "Notepad.exe",
        "CalculatorApp.exe",
        "calc.exe",
        "ApplicationFrameHost.exe",
        "Photos.exe",
        "SystemSettings.exe",
    ] {
        let path = wide(&format!(r"C:\Windows\{name}"));
        let mut desk = Desk::new()
            .on(plain(Plain::ImageName { process: 900 }), vec![Reply::Units(Some(path))]);
        assert!(desk.run(|tape| is_xaml_host(tape, TARGET)), "{name}");
    }
}

// Activation.

#[test]
fn the_attachment_is_undone() {
    let mut desk = Desk::new();
    assert!(desk.run(|tape| attach_and_activate(tape, TARGET)));
    assert_eq!(
        desk.calls,
        vec![
            plain(Plain::ForegroundWindow),
            plain(Plain::OwnThread),
            plain(Plain::ThreadOf { window: USER }),
            plain(Plain::AttachInput { own: 1, other: 7, attach: true }),
            plain(Plain::SetForeground { window: TARGET }),
            plain(Plain::AttachInput { own: 1, other: 7, attach: false }),
            plain(Plain::ForegroundWindow),
        ]
    );
    assert!(desk.run(|tape| attach_and_activate(tape, TARGET)));
    assert_eq!(desk.calls.len(), 1);
}

#[test]
fn nothing_is_detached_that_was_not_attached() {
    let attach = plain(Plain::AttachInput { own: 1, other: 7, attach: true });
    let mut desk = Desk::new().on(attach, vec![Reply::Flag(false)]);
    assert!(desk.run(|tape| attach_and_activate(tape, TARGET)));
    assert_eq!(desk.count(|call| matches!(call, Call::Plain(Plain::AttachInput { .. }))), 1);
    for thread in [0, 1] {
        let mut desk =
            Desk::new().on(plain(Plain::ThreadOf { window: USER }), vec![Reply::Word(thread)]);
        assert!(desk.run(|tape| attach_and_activate(tape, TARGET)));
        assert_eq!(desk.count(|call| matches!(call, Call::Plain(Plain::AttachInput { .. }))), 0);
    }
}

const TOKEN: [InputEvent; 2] = [
    InputEvent::Keyboard { vk: 0xfc, scan: 0, flags: 0 },
    InputEvent::Keyboard { vk: 0xfc, scan: 0, flags: 2 },
];

#[test]
fn activation_is_retried_after_a_token() {
    let mut desk = Desk::new();
    desk.yields = false;
    assert!(!desk.run(|tape| activate(tape, TARGET)));
    assert_eq!(desk.batches(), vec![&TOKEN[..]]);
    let attempts = desk.count(|call| *call == plain(Plain::SetForeground { window: TARGET }));
    assert_eq!(attempts, 4);
    assert_eq!(desk.count(|call| *call == plain(Plain::Sleep { millis: 25 })), 3);

    let mut desk = Desk::new();
    assert!(desk.run(|tape| activate(tape, TARGET)));
    assert!(desk.batches().is_empty());

    let foreground = [USER, USER, USER, USER, USER, TARGET];
    let mut desk = Desk::new().on(
        plain(Plain::ForegroundWindow),
        foreground.iter().map(|&window| Reply::Handle(window)).collect(),
    );
    assert!(desk.run(|tape| activate(tape, TARGET)));
    assert_eq!(desk.count(|call| *call == plain(Plain::Sleep { millis: 25 })), 1);
}

#[test]
fn waiting_ends_at_the_deadline() {
    let mut desk = Desk::new();
    assert!(!desk.run(|tape| wait_for_foreground(tape, TARGET, 500)));
    assert_eq!(desk.clock, 500_000_000);
    assert_eq!(desk.calls.last(), Some(&plain(Plain::Now)));
    assert_eq!(desk.count(|call| *call == plain(Plain::Sleep { millis: 10 })), 50);
}

#[test]
fn waiting_ends_when_the_target_or_its_dialog_is_in_front() {
    let mut desk = Desk::new();
    desk.foreground = TARGET;
    assert!(desk.run(|tape| wait_for_foreground(tape, TARGET, 500)));
    assert_eq!(desk.calls, vec![plain(Plain::Now), plain(Plain::ForegroundWindow)]);
    let owner = plain(Plain::Ancestor { window: USER, relation: 3 });
    let mut desk = Desk::new().on(owner, vec![Reply::Handle(0), Reply::Handle(TARGET)]);
    assert!(desk.run(|tape| wait_for_foreground(tape, TARGET, 500)));
    assert_eq!(desk.clock, 10_000_000);
}

#[test]
fn a_deadline_past_the_clock_is_no_overflow() {
    let mut desk = Desk::new();
    desk.clock = u64::MAX;
    desk.foreground = TARGET;
    assert!(desk.run(|tape| wait_for_foreground(tape, TARGET, u64::MAX)));
}

#[test]
fn containment_shields_and_restores() {
    let mut desk = Desk::new();
    let guard = desk.run(|tape| contain_activation(tape, TARGET));
    let armed =
        Containment { root: TARGET, previous: USER, no_activate: true, disabled: false };
    assert_eq!(guard, Some(armed));
    assert_eq!(desk.style, 0x0800_0100);
    // The application changes its style meanwhile.
    desk.style |= 0x20;
    desk.run(|tape| release(tape, guard));
    assert_eq!(desk.style, 0x120);
    assert_eq!(desk.count(|call| matches!(call, Call::Plain(Plain::SetForeground { .. }))), 0);
    assert_eq!(desk.calls[0], plain(Plain::Sleep { millis: 50 }));
}

#[test]
fn containment_hands_the_foreground_back() {
    let mut desk = Desk::new();
    let guard = desk.run(|tape| contain_activation(tape, TARGET));
    desk.foreground = TARGET;
    desk.run(|tape| release(tape, guard));
    assert_eq!(desk.foreground, USER);
    assert!(desk.calls.contains(&plain(Plain::Sleep { millis: 12 })));
    let set = desk.count(|call| matches!(call, Call::Plain(Plain::SetForeground { .. })));
    assert_eq!(set, desk.count(|call| *call == plain(Plain::SetForeground { window: USER })));
}

#[test]
fn containment_leaves_the_foreground_window_alone() {
    for front in [0, TARGET] {
        let mut desk = Desk::new();
        desk.foreground = front;
        assert_eq!(desk.run(|tape| contain_pattern_activation(tape, TARGET)), None);
        assert_eq!(desk.count(is_change), 0);
        desk.run(|tape| release(tape, None));
        assert!(desk.calls.is_empty());
    }
}

#[test]
fn shields_that_do_not_hold_are_not_lifted() {
    let hung = plain(Plain::IsHung { window: TARGET });
    let mut desk = Desk::new().on(hung, vec![Reply::Flag(true)]);
    let guard = desk.run(|tape| contain_pattern_activation(tape, TARGET)).unwrap();
    assert!(!guard.no_activate && !guard.disabled);
    assert_eq!(desk.count(is_change), 0);

    // The window has the style already.
    let mut desk = Desk::new();
    desk.style = 0x0800_0000;
    let guard = desk.run(|tape| contain_activation(tape, TARGET)).unwrap();
    assert!(!guard.no_activate);

    // The change is refused.
    let style = plain(Plain::ExStyle { window: TARGET });
    let mut desk = Desk::new().on(style, vec![Reply::Word(0x100)]);
    let guard = desk.run(|tape| contain_activation(tape, TARGET)).unwrap();
    assert!(!guard.no_activate);
}

#[test]
fn pattern_containment_disables_only_hosts_that_activate_themselves() {
    let mut desk = Desk::new();
    let guard = desk.run(|tape| contain_pattern_activation(tape, TARGET)).unwrap();
    assert!(guard.no_activate && !guard.disabled);

    for class in ["Chrome_WidgetWin_1", "ApplicationFrameWindow"] {
        let name = plain(Plain::ClassName { window: TARGET });
        let mut desk = Desk::new().on(name, vec![Reply::Units(Some(wide(class)))]);
        let guard = desk.run(|tape| contain_pattern_activation(tape, TARGET));
        assert!(guard.unwrap().disabled);
        desk.run(|tape| release(tape, guard));
        assert_eq!(desk.calls[0], plain(Plain::Enable { window: TARGET, enable: true }));
    }

    let off = plain(Plain::Enable { window: TARGET, enable: false });
    let name = plain(Plain::ClassName { window: TARGET });
    let mut desk = Desk::new()
        .on(name, vec![Reply::Units(Some(wide("Chrome_WidgetWin_1")))])
        .on(off, vec![Reply::Flag(true)]);
    let guard = desk.run(|tape| contain_pattern_activation(tape, TARGET)).unwrap();
    assert!(!guard.disabled);
}

// Delivery.

#[test]
fn identifiers_name_live_windows() {
    let mut desk = Desk::new();
    assert_eq!(desk.run(|tape| hwnd(tape, "100")), Ok(TARGET));
    let failure = desk.run(|tape| hwnd(tape, "0x64")).unwrap_err();
    assert_eq!(failure.kind, ErrorKind::InvalidTarget);
    assert_eq!(failure.message, "invalid Win32 window id '0x64'");
    assert!(desk.calls.is_empty());
    let mut desk =
        Desk::new().on(plain(Plain::IsWindow { window: TARGET }), vec![Reply::Flag(false)]);
    let failure = desk.run(|tape| hwnd(tape, "100")).unwrap_err();
    assert_eq!(failure.kind, ErrorKind::WindowNotFound);
    assert_eq!(failure.message, "target window '100' is no longer present");
}

#[test]
fn integrity_is_checked_before_input() {
    let mut desk = Desk::new();
    assert_eq!(desk.run(|tape| ensure_integrity(tape, "100", TARGET)), Ok(()));
    desk.target_level = 0x3000;
    let failure = desk.run(|tape| ensure_integrity(tape, "100", TARGET)).unwrap_err();
    assert_eq!(failure.kind, ErrorKind::PermissionDenied);
    assert_eq!(failure.message, format!("window 100 cannot receive synthetic input: {BLOCKED}"));
}

fn dropping(kind: EventKind, reason: &str) -> Desk {
    Desk::new().on(
        Call::DropReason {
            class: "Edit".to_string(),
            chromium_descendant: false,
            foreground: false,
            xaml_host: false,
            kind,
        },
        vec![Reply::Text(Some(reason.to_string()))],
    )
}

#[test]
fn refusals_say_what_to_do() {
    let failure = refusal("7", "Edit", "click", "it ignores them");
    assert_eq!(failure.kind, ErrorKind::BackgroundUnavailable);
    assert_eq!(
        failure.message,
        "window 7 (Edit) drops background click events: it ignores them; \
         retry with takeover:true or use ax actions"
    );
}

#[test]
fn undeliverable_input_is_refused() {
    let mut desk = dropping(EventKind::Keystroke, "it ignores them");
    let refused =
        desk.run(|tape| ensure_delivery(tape, "100", TARGET, EventKind::Keystroke)).unwrap_err();
    assert_eq!(refused, refusal("100", "Edit", "Keystroke", "it ignores them"));
    assert_eq!(
        desk.run(|tape| ensure_delivery(tape, "100", TARGET, EventKind::KeyCombo)),
        Ok(())
    );
    desk.target_level = 0x3000;
    let refused =
        desk.run(|tape| ensure_delivery(tape, "100", TARGET, EventKind::Keystroke)).unwrap_err();
    assert_eq!(refused.kind, ErrorKind::PermissionDenied);
    assert_eq!(desk.count(is_change), 0);
}

#[test]
fn traits_of_the_target_are_handed_on() {
    let mut desk = Desk::new().on(
        plain(Plain::ClassName { window: TARGET }),
        vec![Reply::Units(Some(wide("ApplicationFrameWindow")))],
    );
    desk.foreground = TARGET;
    desk.overrides.push((
        plain(Plain::Descendants { window: TARGET }),
        vec![Reply::Handles(vec![300])],
    ));
    desk.overrides.push((
        plain(Plain::ClassName { window: 300 }),
        vec![Reply::Units(Some(wide("Chrome_RenderWidgetHostHWND")))],
    ));
    assert_eq!(
        desk.run(|tape| ensure_delivery(tape, "100", TARGET, EventKind::TextInput)),
        Ok(())
    );
    assert_eq!(
        desk.calls.last(),
        Some(&Call::DropReason {
            class: "ApplicationFrameWindow".to_string(),
            chromium_descendant: true,
            foreground: true,
            xaml_host: true,
            kind: EventKind::TextInput,
        })
    );
}

#[test]
fn text_that_cannot_land_is_refused() {
    let call = || Call::TextUnsupported { class: "Edit".to_string() };
    let mut desk = Desk::new().on(call(), vec![Reply::Text(Some("no way in".to_string()))]);
    assert_eq!(
        desk.run(|tape| ensure_text_supported(tape, "100", TARGET)),
        failed("window 100 (Edit) cannot take typed text: no way in")
    );
    assert_eq!(desk.calls.last(), Some(&call()));
    let mut desk = Desk::new();
    assert_eq!(desk.run(|tape| ensure_text_supported(tape, "100", TARGET)), Ok(()));
}

// Posted keys.

#[test]
fn virtual_keys_of_characters_come_from_the_layout() {
    let mut desk = Desk::new();
    assert_eq!(desk.run(|tape| virtual_key(tape, KeyName::F5)), Ok((0x74, 0)));
    assert!(desk.calls.is_empty());
    assert_eq!(desk.run(|tape| virtual_key(tape, KeyName::Char('a'))), Ok((0x41, 0)));
    assert_eq!(desk.calls, vec![plain(Plain::VkKeyScan { unit: 0x61 })]);
    assert_eq!(desk.run(|tape| virtual_key(tape, KeyName::Char('A'))), Ok((0x41, 1)));
    assert_eq!(desk.run(|tape| virtual_key(tape, KeyName::Char('@'))), Ok((0x51, 6)));
    let scan = plain(Plain::VkKeyScan { unit: 0x62 });
    let mut desk = Desk::new().on(scan, vec![Reply::Scan(-2)]);
    assert_eq!(desk.run(|tape| virtual_key(tape, KeyName::Char('b'))), Ok((0xfe, 0xff)));
}

#[test]
fn characters_without_a_key_are_shown_quoted() {
    let mut desk = Desk::new();
    assert_eq!(
        desk.run(|tape| virtual_key(tape, KeyName::Char('\n'))),
        failed("'\\n' is absent from the active keyboard layout")
    );
    assert_eq!(
        desk.run(|tape| virtual_key(tape, KeyName::Char('\''))),
        failed("'\\'' is absent from the active keyboard layout")
    );
    assert_eq!(
        desk.run(|tape| virtual_key(tape, KeyName::Char('\u{1f600}'))),
        failed("'\u{1f600}' has no Win32 virtual key")
    );
    assert!(desk.calls.is_empty());
}

fn lparam(bits: u32) -> isize {
    bits as i32 as isize
}

#[test]
fn alt_turns_other_keys_into_system_keys() {
    let mut desk = Desk::new();
    let depth = desk.run(|tape| {
        let mut emitter = KeyEmitter { hwnd: TARGET, alt_depth: 0 };
        let keys = [KeyName::Alt, KeyName::F4];
        emitter.press_held(tape, &keys)?.unwrap();
        emitter.release_held(tape, &keys, 2, Ok(()))?.unwrap();
        Some(emitter.alt_depth)
    });
    assert_eq!(depth, 0);
    assert_eq!(
        desk.posts(),
        vec![
            (TARGET, 0x104, 0x12, lparam(0x2013_0001)),
            (TARGET, 0x104, 0x73, lparam(0x2074_0001)),
            (TARGET, 0x105, 0x73, lparam(0xe074_0001)),
            (TARGET, 0x105, 0x12, lparam(0xe013_0001)),
        ]
    );
}

#[test]
fn alt_depth_never_wraps() {
    let mut desk = Desk::new();
    let depths = desk.run(|tape| {
        let mut emitter = KeyEmitter { hwnd: TARGET, alt_depth: 255 };
        emitter.transition(tape, 0x12, true)?.unwrap();
        let high = emitter.alt_depth;
        emitter.alt_depth = 0;
        emitter.transition(tape, 0x12, false)?.unwrap();
        Some((high, emitter.alt_depth))
    });
    assert_eq!(depths, (255, 0));
}

#[test]
fn implicit_modifiers_surround_their_key() {
    let mut desk = Desk::new();
    desk.run(|tape| {
        let mut emitter = KeyEmitter { hwnd: TARGET, alt_depth: 0 };
        emitter.key(tape, KeyName::Char('@'), true)?.unwrap();
        emitter.key(tape, KeyName::Char('@'), false)
    })
    .unwrap();
    let keys: Vec<(u32, usize)> = desk.posts().iter().map(|post| (post.1, post.2)).collect();
    assert_eq!(
        keys,
        vec![
            (0x100, 0x11),
            (0x104, 0x12),
            (0x104, 0x51),
            (0x105, 0x51),
            (0x105, 0x12),
            (0x101, 0x11),
        ]
    );
}

#[test]
fn every_key_gives_alt_back() {
    let mut desk = Desk::new();
    let depths = desk.run(|tape| {
        let mut emitter = KeyEmitter { hwnd: TARGET, alt_depth: 3 };
        let keys = [KeyName::Alt, KeyName::Char('@'), KeyName::Char('A')];
        emitter.press_held(tape, &keys)?.unwrap();
        let held = emitter.alt_depth;
        emitter.release_held(tape, &keys, 3, Ok(()))?.unwrap();
        assert_eq!(emitter.hwnd, TARGET);
        Some((held, emitter.alt_depth))
    });
    assert_eq!(depths, (5, 3));
    let keys: Vec<(u32, usize)> = desk.posts().iter().map(|post| (post.1, post.2)).collect();
    let down: Vec<usize> = keys.iter().filter(|key| key.0 == 0x104).map(|key| key.1).collect();
    let mut up: Vec<usize> = keys.iter().filter(|key| key.0 == 0x105).map(|key| key.1).collect();
    assert_eq!(down, vec![0x12, 0x11, 0x12, 0x51, 0x10, 0x41]);
    up.reverse();
    assert_eq!(up, down);
    assert_eq!(keys.len(), 12);
}

fn posting(message: u32, wparam: usize, lparam: isize) -> Call {
    plain(Plain::Post { window: TARGET, message, wparam, lparam })
}

#[test]
fn a_key_that_cannot_be_posted_undoes_those_before_it() {
    let mut desk = Desk::new()
        .on(posting(0x100, 0x10, lparam(0x0011_0001)), vec![Reply::Posted(Err(5))])
        .on(posting(0x101, 0x11, lparam(0xc012_0001)), vec![Reply::Posted(Err(6))]);
    let keys = [KeyName::Ctrl, KeyName::Shift, KeyName::F1];
    assert_eq!(
        desk.run(|tape| background::key_chord(tape, "100", &keys)),
        failed("PostMessageW failed with Win32 error 5")
    );
    let keys: Vec<(u32, usize)> = desk.posts().iter().map(|post| (post.1, post.2)).collect();
    assert_eq!(keys, vec![(0x100, 0x11), (0x100, 0x10), (0x101, 0x11)]);
}

#[test]
fn every_held_key_is_released() {
    let mut desk = Desk::new()
        .on(posting(0x101, 0x41, lparam(0xc042_0001)), vec![Reply::Posted(Err(5))]);
    let keys = [KeyName::Ctrl, KeyName::Char('A')];
    assert_eq!(
        desk.run(|tape| background::key_chord(tape, "100", &keys)),
        failed("PostMessageW failed with Win32 error 5")
    );
    let keys: Vec<(u32, usize)> = desk.posts().iter().map(|post| (post.1, post.2)).collect();
    assert_eq!(
        keys,
        vec![(0x100, 0x11), (0x100, 0x10), (0x100, 0x41), (0x101, 0x41), (0x101, 0x11)]
    );
}

#[test]
fn checks_are_quiet() {
    let mut desk = Desk::new();
    let screen = Point { x: 1, y: 2 };
    desk.run(|tape| ensure_delivery(tape, "100", TARGET, EventKind::MouseClick)).unwrap();
    assert_eq!(desk.count(is_change), 0);
    desk.run(|tape| deepest_child(tape, TARGET, screen)).unwrap();
    assert_eq!(desk.count(is_change), 0);
    desk.run(|tape| focused_descendant(tape, TARGET));
    assert_eq!(desk.count(is_change), 0);
    desk.run(|tape| wait_for_foreground(tape, TARGET, 30));
    assert_eq!(desk.count(is_change), 0);
}

// Posted input.

#[test]
fn posted_click_goes_to_the_deepest_child() {
    let client = Point { x: 20, y: 30 };
    let mut desk = Desk::new().on(under(TARGET, client), vec![Reply::Handle(11)]);
    let event = click(3, NONE);
    assert_eq!(desk.run(|tape| background::pointer(tape, "100", &event)), Ok(()));
    let at = 0x001e_0014;
    assert_eq!(
        desk.posts(),
        vec![
            (11, 0x200, 0, at),
            (11, 0x201, 1, at),
            (11, 0x202, 0, at),
            (11, 0x200, 0, at),
            (11, 0x203, 1, at),
            (11, 0x202, 0, at),
            (11, 0x200, 0, at),
            (11, 0x201, 1, at),
            (11, 0x202, 0, at),
        ]
    );
    assert_eq!(desk.count(|call| *call == plain(Plain::Sleep { millis: 35 })), 3);
    assert_eq!(desk.count(|call| *call == plain(Plain::Sleep { millis: 80 })), 2);
    assert_eq!(desk.count(is_device_call), 0);
    assert_eq!(desk.style, 0x100);
}

#[test]
fn posted_click_without_double_clicks() {
    let mut desk = Desk::new()
        .on(plain(Plain::ClassStyle { window: TARGET }), vec![Reply::Word(0xfffffff7)]);
    let event = click(2, NONE);
    assert_eq!(desk.run(|tape| background::pointer(tape, "100", &event)), Ok(()));
    let presses = desk.posts().iter().filter(|post| post.1 == 0x201).count();
    assert_eq!(presses, 2);
}

#[test]
fn posted_modifiers_are_posted_and_flagged() {
    let mut desk = Desk::new();
    let event = click(1, CTRL_SHIFT);
    assert_eq!(desk.run(|tape| background::pointer(tape, "100", &event)), Ok(()));
    let posts: Vec<(u32, usize)> = desk.posts().iter().map(|post| (post.1, post.2)).collect();
    assert_eq!(
        posts,
        vec![
            (0x100, 0x11),
            (0x100, 0x10),
            (0x200, 0x0c),
            (0x201, 0x0d),
            (0x202, 0x0c),
            (0x101, 0x10),
            (0x101, 0x11),
        ]
    );
}

#[test]
fn posted_modifiers_go_up_whatever_fails() {
    let at = 0x001e_0014;
    let mut desk = Desk::new().on(posting(0x201, 1, at), vec![Reply::Posted(Err(1_400))]);
    let event = click(2, ALT);
    assert_eq!(
        desk.run(|tape| background::pointer(tape, "100", &event)),
        failed("PostMessageW failed with Win32 error 1400")
    );
    let posts: Vec<(u32, usize)> = desk.posts().iter().map(|post| (post.1, post.2)).collect();
    assert_eq!(posts, vec![(0x104, 0x12), (0x200, 0), (0x201, 1), (0x105, 0x12)]);
    // The shield is lifted all the same.
    assert_eq!(desk.style, 0x100);
}

#[test]
fn posted_move() {
    let mut desk = Desk::new();
    let event = PointerEvent::Move { at: spot(9, 19) };
    assert_eq!(desk.run(|tape| background::pointer(tape, "100", &event)), Ok(()));
    assert_eq!(desk.posts(), vec![(TARGET, 0x200, 0, -1)]);
    let event = PointerEvent::Move { at: spot(40_000, 19) };
    assert_eq!(
        desk.run(|tape| background::pointer(tape, "100", &event)),
        failed("window x coordinate 39990 exceeds i16")
    );
}

#[test]
fn points_that_cannot_be_mapped_fail() {
    let located = DesktopError::invalid_target("off the desktop".to_string());
    let mut desk = Desk::new()
        .on(plain(Plain::Locate { at: spot(1, 1) }), vec![Reply::Located(Err(located.duplicate()))]);
    let event = PointerEvent::Move { at: spot(1, 1) };
    assert_eq!(desk.run(|tape| background::pointer(tape, "100", &event)), Err(located));
    let mut desk = Desk::new().on(
        plain(Plain::ScreenToClient { window: TARGET, point: Point { x: 1, y: 1 } }),
        vec![Reply::Point(None)],
    );
    assert_eq!(
        desk.run(|tape| background::pointer(tape, "100", &event)),
        failed("ScreenToClient failed for target window")
    );
}

#[test]
fn posted_drag_ends_where_its_path_ends() {
    let mut desk = Desk::new();
    let event = drag(&[(30, 50), (31, 52), (40, 60)], CTRL_SHIFT);
    assert_eq!(desk.run(|tape| background::pointer(tape, "100", &event)), Ok(()));
    let mouse: Vec<_> = desk.posts().into_iter().filter(|post| post.1 >= 0x200).collect();
    assert_eq!(
        mouse,
        vec![
            (TARGET, 0x200, 0x0c, 0x001e_0014),
            (TARGET, 0x201, 0x0d, 0x001e_0014),
            (TARGET, 0x200, 0x0d, 0x0020_0015),
            (TARGET, 0x200, 0x0d, 0x0028_001e),
            (TARGET, 0x202, 0x0c, 0x0028_001e),
        ]
    );
    assert_eq!(desk.count(|call| *call == plain(Plain::Sleep { millis: 16 })), 2);
}

#[test]
fn posted_drag_of_one_point_is_a_press() {
    let mut desk = Desk::new();
    let event = drag(&[(30, 50)], NONE);
    assert_eq!(desk.run(|tape| background::pointer(tape, "100", &event)), Ok(()));
    assert_eq!(
        desk.posts(),
        vec![
            (TARGET, 0x200, 0, 0x001e_0014),
            (TARGET, 0x201, 1, 0x001e_0014),
            (TARGET, 0x202, 0, 0x001e_0014),
        ]
    );
    let event = drag(&[], NONE);
    assert_eq!(
        desk.run(|tape| background::pointer(tape, "100", &event)),
        failed("drag path is empty")
    );
}

#[test]
fn posted_drag_on_the_frame_is_refused() {
    let region = plain(Plain::NonClientRegion { hit: 2 });
    let test = plain(Plain::SendTimeout {
        window: TARGET,
        message: 0x84,
        wparam: 0,
        lparam: 0x0032_001e,
        flags: 2,
        timeout: 200,
    });
    let mut desk = Desk::new()
        .on(test, vec![Reply::Found(Some(2))])
        .on(region, vec![Reply::Text(Some("title bar".to_string()))]);
    let event = drag(&[(30, 50), (31, 52)], NONE);
    let failure = desk.run(|tape| background::pointer(tape, "100", &event)).unwrap_err();
    assert_eq!(failure.kind, ErrorKind::BackgroundUnavailable);
    assert_eq!(
        failure.message,
        "window 100 drag starts on its title bar, where only real pointer input drives the system \
         move/size loop; retry with takeover:true or use ax actions"
    );
    assert!(desk.posts().is_empty());
}

#[test]
fn a_window_that_does_not_answer_a_hit_test_is_dragged() {
    let test = plain(Plain::SendTimeout {
        window: TARGET,
        message: 0x84,
        wparam: 0,
        lparam: 0x0032_001e,
        flags: 2,
        timeout: 200,
    });
    let mut desk = Desk::new().on(test, vec![Reply::Found(None)]);
    let event = drag(&[(30, 50), (31, 52)], NONE);
    assert_eq!(desk.run(|tape| background::pointer(tape, "100", &event)), Ok(()));
    assert_eq!(
        desk.count(|call| matches!(call, Call::Plain(Plain::NonClientRegion { .. }))),
        0
    );
}

#[test]
fn posted_scroll_carries_screen_coordinates() {
    let mut desk = Desk::new();
    let event = PointerEvent::Scroll { at: spot(30, 50), horizontal: 2, vertical: 1 };
    assert_eq!(desk.run(|tape| background::pointer(tape, "100", &event)), Ok(()));
    assert_eq!(
        desk.posts(),
        vec![
            (TARGET, 0x20e, 0x00f0_0000, 0x0032_001e),
            (TARGET, 0x20a, 0xff88_0000, 0x0032_001e),
        ]
    );
    let event = PointerEvent::Scroll { at: spot(30, 50), horizontal: 0, vertical: -300 };
    assert_eq!(
        desk.run(|tape| background::pointer(tape, "100", &event)),
        failed("scroll delta 36000 exceeds Win32 range")
    );
    assert!(desk.posts().is_empty());
}

#[test]
fn dropped_clicks_may_be_invoked() {
    let invoke = || plain(Plain::InvokeAtPoint { root: TARGET, point: Point { x: 30, y: 50 } });
    let mut desk = dropping(EventKind::MouseClick, "it ignores them")
        .on(invoke(), vec![Reply::Flag(true)]);
    let event = click(1, NONE);
    assert_eq!(desk.run(|tape| background::pointer(tape, "100", &event)), Ok(()));
    assert_eq!(desk.calls.last(), Some(&invoke()));
    assert!(desk.posts().is_empty());

    let mut desk = dropping(EventKind::MouseClick, "it ignores them");
    let refused = refusal("100", "Edit", "MouseClick", "it ignores them");
    assert_eq!(desk.run(|tape| background::pointer(tape, "100", &event)), Err(refused));
}

#[test]
fn only_plain_clicks_are_invoked() {
    let right = PointerEvent::Click {
        at: spot(30, 50),
        button: MouseButton::Right,
        count: 1,
        modifiers: NONE,
    };
    for event in [click(2, NONE), click(0, NONE), click(1, ALT), right] {
        let mut desk = dropping(EventKind::MouseClick, "it ignores them");
        let refused = refusal("100", "Edit", "MouseClick", "it ignores them");
        assert_eq!(desk.run(|tape| background::pointer(tape, "100", &event)), Err(refused));
        assert_eq!(desk.count(is_change), 0);
    }
    let mut desk = dropping(EventKind::MouseMove, "it ignores them");
    let event = drag(&[(1, 2), (3, 4)], NONE);
    let refused = refusal("100", "Edit", "MouseMove", "it ignores them");
    assert_eq!(desk.run(|tape| background::pointer(tape, "100", &event)), Err(refused));
}

#[test]
fn chromium_is_never_invoked() {
    let class = "Chrome_WidgetWin_1";
    let mut desk = Desk::new()
        .on(plain(Plain::ClassName { window: TARGET }), vec![Reply::Units(Some(wide(class)))])
        .on(
            Call::DropReason {
                class: class.to_string(),
                chromium_descendant: false,
                foreground: false,
                xaml_host: false,
                kind: EventKind::MouseClick,
            },
            vec![Reply::Text(Some("it ignores them".to_string()))],
        );
    let event = click(1, NONE);
    let refused = refusal("100", class, "MouseClick", "it ignores them");
    assert_eq!(desk.run(|tape| background::pointer(tape, "100", &event)), Err(refused));
    assert_eq!(desk.count(is_change), 0);
}

#[test]
fn posted_chord_goes_to_the_focused_descendant() {
    let mut desk = Desk::new().on(focus(7), vec![Reply::Found(Some(11))]);
    let keys = [KeyName::Ctrl, KeyName::Char('a')];
    assert_eq!(desk.run(|tape| background::key_chord(tape, "100", &keys)), Ok(()));
    assert_eq!(
        desk.posts(),
        vec![
            (11, 0x100, 0x11, lparam(0x0012_0001)),
            (11, 0x100, 0x41, lparam(0x0042_0001)),
            (11, 0x101, 0x41, lparam(0xc042_0001)),
            (11, 0x101, 0x11, lparam(0xc012_0001)),
        ]
    );
    assert_eq!(desk.count(|call| *call == plain(Plain::Sleep { millis: 4 })), 1);
    assert_eq!(desk.count(is_device_call), 0);
}

#[test]
fn chords_are_keystrokes_or_combinations() {
    let kind = |keys: &[KeyName]| background::kind_of_chord(keys);
    assert_eq!(kind(&[KeyName::Char('a')]), EventKind::Keystroke);
    assert_eq!(kind(&[KeyName::Alt]), EventKind::KeyCombo);
    assert_eq!(kind(&[KeyName::Char('a'), KeyName::Char('b')]), EventKind::KeyCombo);
    assert_eq!(kind(&[]), EventKind::Keystroke);
}

#[test]
fn undeliverable_chords_are_not_posted() {
    let mut desk = dropping(EventKind::Keystroke, "it ignores them");
    let refused = refusal("100", "Edit", "Keystroke", "it ignores them");
    let keys = [KeyName::Enter];
    assert_eq!(desk.run(|tape| background::key_chord(tape, "100", &keys)), Err(refused));
    assert_eq!(desk.count(is_change), 0);
}

#[test]
fn posted_text_is_characters_and_returns() {
    let mut desk = Desk::new();
    let text = "a\n\u{1f600}";
    assert_eq!(desk.run(|tape| background::type_text(tape, "100", text)), Ok(()));
    assert_eq!(
        desk.posts(),
        vec![
            (TARGET, 0x102, 0x61, 1),
            (TARGET, 0x100, 0x0d, lparam(0x000e_0001)),
            (TARGET, 0x101, 0x0d, lparam(0xc00e_0001)),
            (TARGET, 0x102, 0xd83d, 1),
            (TARGET, 0x102, 0xde00, 1),
        ]
    );
    let sleeps: Vec<u64> = desk
        .calls
        .iter()
        .filter_map(|call| match call {
            Call::Plain(Plain::Sleep { millis }) => Some(*millis),
            _ => None,
        })
        .collect();
    assert_eq!(sleeps, vec![4, 4, 24, 4]);
}

#[test]
fn posted_text_stops_at_the_first_failure() {
    let mut desk = Desk::new().on(posting(0x102, 0xde00, 1), vec![Reply::Posted(Err(8))]);
    assert_eq!(
        desk.run(|tape| background::type_text(tape, "100", "\u{1f600}b")),
        failed("PostMessageW failed with Win32 error 8")
    );
    assert_eq!(desk.posts().len(), 2);
}

#[test]
fn higher_integrity_gets_nothing() {
    let click = click(1, NONE);
    let keys = [KeyName::Enter];
    let mut desk = Desk::new();
    desk.target_level = 0x4000;
    let mut kinds = Vec::new();
    for mode in [DeliveryMode::Background, DeliveryMode::Foreground] {
        let target = window("100");
        kinds.push(desk.run(|tape| pointer(tape, &target, &click, mode)).unwrap_err().kind);
        let moved = desk.count(|call| matches!(call, Call::Plain(Plain::SetCursorPos { .. })));
        assert_eq!(desk.count(is_change), moved);
        kinds.push(desk.run(|tape| key_chord(tape, &target, &keys, mode)).unwrap_err().kind);
        assert_eq!(desk.count(is_change), 0);
        kinds.push(desk.run(|tape| type_text(tape, &target, "a", mode)).unwrap_err().kind);
        assert_eq!(desk.count(is_change), 0);
    }
    assert_eq!(kinds, vec![ErrorKind::PermissionDenied; 6]);
}

// Injected input.

fn at(x: i32, y: i32) -> InputEvent {
    InputEvent::Mouse { dx: x, dy: y, data: 0, flags: 0xc001 }
}

fn mouse(flags: u32, data: u32) -> InputEvent {
    InputEvent::Mouse { dx: 0, dy: 0, data, flags }
}

fn stroke(vk: u16, flags: u32) -> InputEvent {
    InputEvent::Keyboard { vk, scan: vk + 1, flags }
}

/// Position of the pretend desktop's click at (30, 50).
fn click_point() -> InputEvent {
    at(30 * 65_535 / 1_919, 50 * 65_535 / 1_079)
}

#[test]
fn injected_click_takes_and_returns_the_foreground() {
    let mut desk = Desk::new();
    let event = click(2, NONE);
    assert_eq!(desk.run(|tape| foreground::pointer(tape, "100", &event)), Ok(()));
    let batch = [click_point(), mouse(2, 0), mouse(4, 0)];
    assert_eq!(desk.batches(), vec![&batch[..], &batch[..]]);
    assert_eq!(desk.foreground, USER);
    assert_eq!(desk.calls.first(), Some(&plain(Plain::CursorPos)));
    let back = plain(Plain::SetCursorPos { point: Point { x: 5, y: 6 } });
    assert_eq!(desk.calls.last(), Some(&back));
    assert!(desk.calls.contains(&plain(Plain::Sleep { millis: 20 })));
    assert!(desk.calls.contains(&plain(Plain::Sleep { millis: 120 })));
    assert!(desk.posts().is_empty());
}

#[test]
fn a_window_in_front_stays_there() {
    let mut desk = Desk::new();
    desk.foreground = TARGET;
    let event = PointerEvent::Move { at: spot(0, 0) };
    assert_eq!(desk.run(|tape| foreground::pointer(tape, "100", &event)), Ok(()));
    assert_eq!(desk.foreground, TARGET);
    assert_eq!(desk.batches(), vec![&[at(0, 0)][..]]);
    assert_eq!(desk.count(|call| matches!(call, Call::Plain(Plain::SetForeground { .. }))), 0);
    assert!(!desk.calls.contains(&plain(Plain::Sleep { millis: 20 })));
}

#[test]
fn a_dead_window_does_not_get_the_foreground_back() {
    let mut desk = Desk::new().on(plain(Plain::IsWindow { window: USER }), vec![Reply::Flag(false)]);
    let event = PointerEvent::Move { at: spot(0, 0) };
    assert_eq!(desk.run(|tape| foreground::pointer(tape, "100", &event)), Ok(()));
    assert_eq!(desk.foreground, TARGET);
}

#[test]
fn an_unreached_window_gets_no_input() {
    let mut desk = Desk::new();
    desk.yields = false;
    let refused = || {
        failed("Windows refused to activate window 100 (foreground lock); no input was sent")
    };
    let event = click(1, CTRL_SHIFT);
    assert_eq!(desk.run(|tape| foreground::pointer(tape, "100", &event)), refused());
    assert_eq!(desk.batches(), vec![&TOKEN[..]]);
    let back = plain(Plain::SetCursorPos { point: Point { x: 5, y: 6 } });
    assert_eq!(desk.calls.last(), Some(&back));
    assert_eq!(
        desk.run(|tape| foreground::key_chord(tape, "100", &[KeyName::Enter])),
        refused()
    );
    assert_eq!(desk.batches(), vec![&TOKEN[..]]);
    assert_eq!(
        desk.run(|tape| foreground::type_text(tape, "100", "a")),
        refused()
    );
    assert_eq!(desk.batches(), vec![&TOKEN[..]]);
}

#[test]
fn input_waits_for_the_target() {
    let mut desk = Desk::new();
    let event = PointerEvent::Move { at: spot(0, 0) };
    assert_eq!(desk.run(|tape| foreground::pointer(tape, "100", &event)), Ok(()));
    let pause = desk
        .calls
        .iter()
        .position(|call| *call == plain(Plain::Sleep { millis: 20 }))
        .unwrap();
    assert_eq!(desk.calls[pause - 1], plain(Plain::ForegroundWindow));
    let sent = desk.calls.iter().position(|call| matches!(call, Call::SendInput { .. })).unwrap();
    assert!(pause < sent);
}

#[test]
fn injected_modifiers_are_held() {
    let mut desk = Desk::new();
    let event = click(1, CTRL_SHIFT);
    assert_eq!(desk.run(|tape| foreground::pointer(tape, "100", &event)), Ok(()));
    let batches = desk.batches();
    assert_eq!(batches.len(), 3);
    assert_eq!(batches[0], [stroke(0x11, 0), stroke(0x10, 0)]);
    assert_eq!(batches[2], [stroke(0x10, 2), stroke(0x11, 2)]);
}

#[test]
fn releases_are_always_sent() {
    let presses = Call::SendInput { events: vec![stroke(0x11, 0), stroke(0x10, 0)] };
    let mut desk = Desk::new().on(presses, vec![Reply::Word(1)]);
    let event = click(1, CTRL_SHIFT);
    assert_eq!(
        desk.run(|tape| foreground::pointer(tape, "100", &event)),
        failed("Win32 SendInput inserted 1 of 2 events")
    );
    assert_eq!(
        desk.batches(),
        vec![
            &[stroke(0x11, 0), stroke(0x10, 0)][..],
            &[stroke(0x10, 2), stroke(0x11, 2)][..],
        ]
    );

    let batch = vec![click_point(), mouse(2, 0), mouse(4, 0)];
    let releases = vec![stroke(0x10, 2), stroke(0x11, 2)];
    let mut desk = Desk::new()
        .on(Call::SendInput { events: batch }, vec![Reply::Word(0)])
        .on(Call::SendInput { events: releases }, vec![Reply::Word(1)]);
    assert_eq!(
        desk.run(|tape| foreground::pointer(tape, "100", &event)),
        failed("Win32 SendInput inserted 0 of 3 events")
    );
    assert_eq!(desk.batches().len(), 3);
}

#[test]
fn injected_drag_releases_its_button() {
    let mut desk = Desk::new();
    let event = drag(&[(0, 0), (1_919, 1_079), (0, 0)], NONE);
    assert_eq!(desk.run(|tape| foreground::pointer(tape, "100", &event)), Ok(()));
    assert_eq!(
        desk.batches(),
        vec![
            &[at(0, 0), mouse(2, 0)][..],
            &[at(65_535, 65_535)][..],
            &[at(0, 0)][..],
            &[mouse(4, 0)][..],
        ]
    );
    assert_eq!(desk.count(|call| *call == plain(Plain::Sleep { millis: 16 })), 2);

    let lost = DesktopError::invalid_target("off the desktop".to_string());
    let mut desk = Desk::new().on(
        plain(Plain::Locate { at: spot(1_919, 1_079) }),
        vec![Reply::Located(Err(lost.duplicate()))],
    );
    assert_eq!(desk.run(|tape| foreground::pointer(tape, "100", &event)), Err(lost));
    assert_eq!(desk.batches(), vec![&[at(0, 0), mouse(2, 0)][..], &[mouse(4, 0)][..]]);

    let event = drag(&[], NONE);
    assert_eq!(
        desk.run(|tape| foreground::pointer(tape, "100", &event)),
        failed("drag path is empty")
    );
}

#[test]
fn injected_scroll() {
    let mut desk = Desk::new();
    let event = PointerEvent::Scroll { at: spot(0, 0), horizontal: -1, vertical: 2 };
    assert_eq!(desk.run(|tape| foreground::pointer(tape, "100", &event)), Ok(()));
    assert_eq!(
        desk.batches(),
        vec![
            &[at(0, 0)][..],
            &[mouse(0x1000, (-120i32) as u32)][..],
            &[mouse(0x800, (-240i32) as u32)][..],
        ]
    );
    let event = PointerEvent::Scroll { at: spot(0, 0), horizontal: i32::MIN, vertical: 0 };
    assert_eq!(desk.run(|tape| foreground::pointer(tape, "100", &event)), Ok(()));
    assert_eq!(desk.batches()[1], [mouse(0x1000, i32::MIN as u32)]);
    assert_eq!(desk.batches().len(), 2);
}

#[test]
fn a_desktop_without_geometry_takes_no_pointer() {
    for (metric, value) in [(78, 1), (79, 0)] {
        let mut desk =
            Desk::new().on(plain(Plain::Metric { metric }), vec![Reply::Signed(value)]);
        let event = click(1, CTRL_SHIFT);
        assert_eq!(
            desk.run(|tape| foreground::pointer(tape, "100", &event)),
            failed("Win32 virtual desktop geometry is unavailable")
        );
        assert!(desk.batches().is_empty());
        assert_eq!(desk.foreground, USER);
    }
}

#[test]
fn an_unknown_cursor_is_not_put_back() {
    let mut desk = Desk::new().on(plain(Plain::CursorPos), vec![Reply::Point(None)]);
    let event = PointerEvent::Move { at: spot(0, 0) };
    assert_eq!(desk.run(|tape| foreground::pointer(tape, "100", &event)), Ok(()));
    assert_eq!(desk.count(|call| matches!(call, Call::Plain(Plain::SetCursorPos { .. }))), 0);
}

#[test]
fn injected_chord_mirrors_its_presses() {
    let mut desk = Desk::new();
    let keys = [KeyName::Meta, KeyName::Char('@'), KeyName::Char('a')];
    assert_eq!(desk.run(|tape| foreground::key_chord(tape, "100", &keys)), Ok(()));
    assert_eq!(
        desk.batches(),
        vec![
            &[stroke(0x5b, 1), stroke(0x11, 0), stroke(0x12, 0), stroke(0x51, 0), stroke(0x41, 0)][..],
            &[stroke(0x41, 2), stroke(0x51, 2), stroke(0x12, 2), stroke(0x11, 2), stroke(0x5b, 3)][..],
        ]
    );
    assert!(desk.calls.contains(&plain(Plain::Sleep { millis: 40 })));
    assert_eq!(desk.foreground, USER);
    assert_eq!(desk.count(|call| matches!(call, Call::Plain(Plain::SetCursorPos { .. }))), 0);
}

#[test]
fn injected_chord_is_looked_up_first() {
    let mut desk = Desk::new();
    let keys = [KeyName::Ctrl, KeyName::Char('\u{20ac}')];
    assert_eq!(
        desk.run(|tape| foreground::key_chord(tape, "100", &keys)),
        failed("'\u{20ac}' is absent from the active keyboard layout")
    );
    assert_eq!(desk.calls, vec![plain(Plain::VkKeyScan { unit: 0x20ac })]);
}

#[test]
fn injected_text_is_one_batch() {
    let mut desk = Desk::new();
    let text = "a\n\u{1f600}";
    assert_eq!(desk.run(|tape| foreground::type_text(tape, "100", text)), Ok(()));
    let typed = |scan, flags| InputEvent::Keyboard { vk: 0, scan, flags };
    assert_eq!(
        desk.batches(),
        vec![
            &[
                typed(0x61, 4),
                typed(0x61, 6),
                stroke(0x0d, 0),
                stroke(0x0d, 2),
                typed(0xd83d, 4),
                typed(0xd83d, 6),
                typed(0xde00, 4),
                typed(0xde00, 6),
            ][..]
        ]
    );
    assert_eq!(desk.foreground, USER);
}

#[test]
fn plain_text_is_its_code_units() {
    let mut desk = Desk::new();
    let text = "h\u{e9}llo \u{1f600}";
    assert_eq!(desk.run(|tape| foreground::type_text(tape, "100", text)), Ok(()));
    let scans: Vec<u16> = desk.batches()[0]
        .iter()
        .step_by(2)
        .map(|event| match event {
            InputEvent::Keyboard { scan, .. } => *scan,
            _ => unreachable!(),
        })
        .collect();
    assert_eq!(scans, wide(text));
    assert_eq!(desk.calls[0], Call::TextUnits { text: text.to_string() });
    assert_eq!(desk.calls[1], plain(Plain::IsWindow { window: TARGET }));
}

#[test]
fn windows_are_typed_the_units_of_their_text() {
    let asked = || Call::TextUnits { text: "long".to_string() };
    let units = || vec![Reply::TextUnits(vec![TextUnit::Char('x'), TextUnit::Enter])];
    let mut desk = Desk::new().on(asked(), units());
    assert_eq!(desk.run(|tape| background::type_text(tape, "100", "long")), Ok(()));
    let keys: Vec<(u32, usize)> = desk.posts().iter().map(|post| (post.1, post.2)).collect();
    assert_eq!(keys, vec![(0x102, 0x78), (0x100, 0x0d), (0x101, 0x0d)]);
    let first = posting(0x102, 0x78, 1);
    let at = desk.calls.iter().position(|call| *call == first).unwrap();
    assert_eq!(desk.calls[at - 1], asked());
    assert_eq!(desk.count(|call| matches!(call, Call::TextUnits { .. })), 1);

    let mut desk = Desk::new().on(asked(), units());
    assert_eq!(desk.run(|tape| foreground::type_text(tape, "100", "long")), Ok(()));
    assert_eq!(desk.calls[0], asked());
    assert_eq!(desk.batches()[0].len(), 4);
    assert_eq!(desk.count(|call| matches!(call, Call::TextUnits { .. })), 1);
}

#[test]
fn no_text_takes_no_foreground() {
    let mut desk = Desk::new();
    assert_eq!(desk.run(|tape| foreground::type_text(tape, "100", "")), Ok(()));
    assert_eq!(desk.count(is_change), 0);
    let unsupported = Call::TextUnsupported { class: "Edit".to_string() };
    let mut desk = Desk::new().on(unsupported, vec![Reply::Text(Some("no way in".to_string()))]);
    assert_eq!(
        desk.run(|tape| foreground::type_text(tape, "100", "a")),
        failed("window 100 (Edit) cannot take typed text: no way in")
    );
    assert_eq!(desk.count(is_change), 0);
}

#[test]
fn empty_batches_are_not_sent() {
    let mut desk = Desk::new();
    assert_eq!(desk.run(|tape| foreground::send(tape, vec![])), Ok(()));
    assert!(desk.calls.is_empty());
}

// Entry points.

#[test]
fn the_desktop_has_one_route() {
    let mut desk = Desk::new();
    for mode in [DeliveryMode::Background, DeliveryMode::Foreground] {
        let event = PointerEvent::Move { at: spot(8, 9) };
        let moved = desk.run(|tape| pointer(tape, &Target::Desktop, &event, mode));
        assert_eq!(moved, Ok(()));
        assert_eq!(desk.calls, vec![go(8, 9)]);
        let typed = desk.run(|tape| type_text(tape, &Target::Desktop, "a\n", mode));
        assert_eq!(typed, Ok(()));
        assert_eq!(desk.calls, vec![Call::GlobalText { text: "a\n".to_string() }]);
        let pressed =
            desk.run(|tape| key_chord(tape, &Target::Desktop, &[KeyName::Enter], mode));
        assert_eq!(pressed, Ok(()));
        assert_eq!(desk.calls, vec![key(KeyName::Enter, Direction::Click)]);
    }
    let call = Call::GlobalText { text: String::new() };
    let mut desk = Desk::new().on(call, broken("no keyboard"));
    assert_eq!(
        desk.run(|tape| type_text(tape, &Target::Desktop, "", DeliveryMode::Background)),
        failed("Win32 global input failed: no keyboard")
    );
}

#[test]
fn windows_are_reached_by_mode() {
    let mut desk = Desk::new();
    let event = PointerEvent::Move { at: spot(30, 50) };
    let keys = [KeyName::Enter];
    let target = window("100");

    let mode = DeliveryMode::Background;
    assert_eq!(desk.run(|tape| pointer(tape, &target, &event, mode)), Ok(()));
    assert_eq!((desk.posts().len(), desk.count(is_device_call)), (1, 0));
    assert_eq!(desk.run(|tape| type_text(tape, &target, "a", mode)), Ok(()));
    assert_eq!((desk.posts().len(), desk.count(is_device_call)), (1, 0));
    assert_eq!(desk.run(|tape| key_chord(tape, &target, &keys, mode)), Ok(()));
    assert_eq!((desk.posts().len(), desk.count(is_device_call)), (2, 0));

    let mode = DeliveryMode::Foreground;
    assert_eq!(desk.run(|tape| pointer(tape, &target, &event, mode)), Ok(()));
    assert_eq!((desk.posts().len(), desk.batches().len()), (0, 1));
    assert_eq!(desk.run(|tape| type_text(tape, &target, "a", mode)), Ok(()));
    assert_eq!((desk.posts().len(), desk.batches().len()), (0, 1));
    assert_eq!(desk.run(|tape| key_chord(tape, &target, &keys, mode)), Ok(()));
    assert_eq!((desk.posts().len(), desk.batches().len()), (0, 2));
}

#[test]
fn empty_chords_are_refused() {
    let mut desk = Desk::new();
    for target in [Target::Desktop, window("100"), window("nonsense")] {
        for mode in [DeliveryMode::Background, DeliveryMode::Foreground] {
            assert_eq!(
                desk.run(|tape| key_chord(tape, &target, &[], mode)),
                failed("key chord is empty")
            );
            assert!(desk.calls.is_empty());
        }
    }
}

#[test]
fn invalid_identifiers_make_no_call() {
    let mut desk = Desk::new();
    let mode = DeliveryMode::Background;
    let target = window("-5");
    let event = click(1, NONE);
    let failure = desk.run(|tape| pointer(tape, &target, &event, mode)).unwrap_err();
    assert_eq!(failure.kind, ErrorKind::InvalidTarget);
    assert!(desk.calls.is_empty());
    let failure = desk.run(|tape| type_text(tape, &target, "a", mode)).unwrap_err();
    assert_eq!(failure.kind, ErrorKind::InvalidTarget);
    assert!(desk.calls.is_empty());
    let failure = desk.run(|tape| raise_window(tape, "-5")).unwrap_err();
    assert_eq!(failure.kind, ErrorKind::InvalidTarget);
    assert!(desk.calls.is_empty());
}

#[test]
fn raising_restores_and_activates() {
    let mut desk = Desk::new();
    assert_eq!(desk.run(|tape| raise_window(tape, "100")), Ok(()));
    assert_eq!(desk.foreground, TARGET);
    assert!(!desk.calls.contains(&plain(Plain::Restore { window: TARGET })));

    let iconic = plain(Plain::IsIconic { window: TARGET });
    let mut desk = Desk::new().on(iconic, vec![Reply::Flag(true)]);
    assert_eq!(desk.run(|tape| raise_window(tape, "100")), Ok(()));
    assert_eq!(desk.calls[2], plain(Plain::Restore { window: TARGET }));

    let mut desk = Desk::new();
    desk.yields = false;
    assert_eq!(
        desk.run(|tape| raise_window(tape, "100")),
        failed("Windows refused to raise window 100 (foreground lock)")
    );
    assert_eq!(desk.batches(), vec![&TOKEN[..]]);
    assert!(desk.posts().is_empty());
}

#[test]
fn a_tape_repeats_its_calls() {
    let replies = [Reply::Flag(true), Reply::Word(42)];
    for given in 0..=2 {
        let mut tape = Tape::new(&replies[..given]);
        let mut asked = Vec::new();
        for call in [Plain::IsWindow { window: 1 }, Plain::ProcessOf { window: 1 }, Plain::Now] {
            asked.push(tape.plain(call).is_some());
        }
        assert_eq!(asked, vec![given > 0, given > 1, false]);
        let pending = tape.into_pending().unwrap();
        let expected = [Plain::IsWindow { window: 1 }, Plain::ProcessOf { window: 1 }, Plain::Now];
        assert_eq!(pending, plain(expected[given]));
    }
}

/// Runs a procedure to its end, then again on every shorter and on one longer
/// sequence of answers.
fn check_replay<T: PartialEq + std::fmt::Debug>(
    mut desk: Desk,
    procedure: impl Fn(&mut Tape<'_>) -> Option<T>,
) {
    let mut replies: Vec<Reply> = Vec::new();
    desk.calls.clear();
    let value = loop {
        let mut tape = Tape::new(&replies);
        if let Some(value) = procedure(&mut tape) {
            break value;
        }
        let call = tape.into_pending().unwrap();
        replies.push(desk.answer(&call));
        desk.calls.push(call);
    };
    for given in 0..desk.calls.len() {
        let mut tape = Tape::new(&replies[..given]);
        assert!(procedure(&mut tape).is_none());
        assert_eq!(tape.into_pending().as_ref(), Some(&desk.calls[given]));
    }
    replies.push(Reply::Flag(true));
    let mut tape = Tape::new(&replies);
    assert_eq!(procedure(&mut tape), Some(value));
    assert!(tape.into_pending().is_none());
}

#[test]
fn runs_on_more_answers_begin_with_the_same_calls() {
    let target = window("100");
    let keys = [KeyName::Ctrl, KeyName::Char('@')];
    let path = drag(&[(30, 50), (31, 52)], CTRL_SHIFT);
    for mode in [DeliveryMode::Background, DeliveryMode::Foreground] {
        check_replay(Desk::new(), |tape| pointer(tape, &target, &path, mode));
        check_replay(Desk::new(), |tape| pointer(tape, &Target::Desktop, &path, mode));
        check_replay(Desk::new(), |tape| key_chord(tape, &target, &keys, mode));
        check_replay(Desk::new(), |tape| type_text(tape, &target, "a\n", mode));
    }
    check_replay(Desk::new(), |tape| raise_window(tape, "100"));
    check_replay(Desk::new(), |tape| contain_activation(tape, TARGET));
    check_replay(Desk::new(), |tape| contain_pattern_activation(tape, TARGET));
    let mut desk = Desk::new();
    let guard = desk.run(|tape| contain_activation(tape, TARGET));
    check_replay(desk, |tape| release(tape, guard));
}

#[test]
fn answers_of_another_shape_read_as_empty() {
    let odd = Reply::Nothing;
    assert!(!odd.flag());
    assert_eq!(odd.handle(), 0);
    assert_eq!(odd.handles(), Vec::<usize>::new());
    assert_eq!(odd.found(), None);
    assert_eq!(odd.word(), 0);
    assert_eq!(odd.words(), Vec::<u32>::new());
    assert_eq!(odd.maybe(), None);
    assert_eq!(odd.signed(), 0);
    assert_eq!(odd.scan(), -1);
    assert_eq!(odd.time(), 0);
    assert_eq!(odd.units(), None);
    assert!(odd.text_units().is_empty());
    assert_eq!(odd.point(), None);
    assert_eq!(odd.located(), Ok(Point { x: 0, y: 0 }));
    assert_eq!(odd.text(), None);
    assert_eq!(odd.posted(), Ok(()));
    assert_eq!(odd.performed(), None);
}
