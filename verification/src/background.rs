//! Input posted to a window without touching the user's focus.

use vstd::prelude::*;
use vstd::string::*;

use crate::activation::{contain_activation, release};
use crate::delivery::{
    drop_reason, ensure_delivery, ensure_integrity, ensure_text_supported, hwnd, refuse,
};
use crate::emitter::{post, KeyEmitter, Turn};
use crate::error::{CoreResult, DesktopError, ErrorKind, Fault, Outcome};
use crate::keys::{modifier_keys, KeyName, Modifiers, MouseButton};
use crate::message::{
    mouse_flags, mouse_messages, packed_point, saturating_travel, wheel_wparam,
};
use crate::request::{EventKind, Gesture, Point, PointerEvent, Spot, TextUnit};
use crate::tape::{Call, Flow, Plain, Reply, Request, Tape, Trail};
use crate::text::encode_utf16;
use crate::win32::{
    CS_DBLCLKS, SMTO_ABORTIFHUNG, VK_RETURN, WHEEL_DELTA, WM_CHAR, WM_MOUSEHWHEEL, WM_MOUSEMOVE,
    WM_MOUSEWHEEL, WM_NCHITTEST,
};
use crate::window::{class_name, deepest_child, is_chromium};
use crate::{activation, delivery, emitter, error, keys, message, tape, text, window};

verus! {

/// Milliseconds between a posted button press and its release.
pub const CLICK_HOLD: u64 = 35;

/// Milliseconds between the clicks of a posted multi-click.
pub const CLICK_GAP: u64 = 80;

/// Milliseconds between posted drag moves.
pub const DRAG_STEP: u64 = 16;

/// Milliseconds between posted key transitions and typed characters.
pub const KEY_GAP: u64 = 4;

/// Extra milliseconds after a posted Return while rich editors build a
/// paragraph.
pub const ENTER_SETTLE: u64 = 20;

/// Milliseconds a window has to answer a hit test.
pub const HIT_TEST_TIMEOUT: u32 = 200;

/// Physical screen point for a logical desktop coordinate.
pub open spec fn screen_point_flow(t: Trail, at: Spot) -> Flow<Result<Point, Fault>> {
    t.plain(Plain::Locate { at }).bind(|point: Reply, t: Trail| t.give(point.located_value()))
}

/// Physical screen point for a logical desktop coordinate.
pub fn screen_point(tape: &mut Tape, at: Spot) -> (point: Option<CoreResult<Point>>)
    ensures
        Flow::of(final(tape)@, tape::seen(point)) == screen_point_flow(old(tape)@, at),
{
    let point = tape.plain(Plain::Locate { at })?.located();
    Some(point)
}

/// The error for a window that cannot map a screen point.
pub open spec fn unmapped_fault() -> Fault {
    error::input_fault("ScreenToClient failed for target window"@)
}

/// The error for a window that cannot map a screen point.
fn unmapped() -> (failure: DesktopError)
    ensures
        failure@ == unmapped_fault(),
{
    DesktopError::input_failed("ScreenToClient failed for target window".to_owned())
}

/// Deepest child of `root` under a physical screen point, with the point in
/// that child's client coordinates.
pub open spec fn child_under_flow(t: Trail, root: usize, point: Point) -> Flow<
    Result<(usize, Point), Fault>,
> {
    window::deepest_child_flow(t, root, point).bind(
        |child: Option<(usize, Point)>, t: Trail|
            match child {
                Some(found) => t.give(Ok(found)),
                None => t.give(Err(unmapped_fault())),
            },
    )
}

/// Deepest child of `root` under a physical screen point, with the point in
/// that child's client coordinates.
pub fn child_under(tape: &mut Tape, root: usize, point: Point) -> (child: Option<
    CoreResult<(usize, Point)>,
>)
    ensures
        Flow::of(final(tape)@, tape::seen(child)) == child_under_flow(old(tape)@, root, point),
{
    match deepest_child(tape, root, point)? {
        Some(found) => Some(Ok(found)),
        None => Some(Err(unmapped())),
    }
}

/// Deepest child of `root` under a logical desktop coordinate, with the packed
/// client coordinates for that child.
pub open spec fn child_at_flow(t: Trail, root: usize, at: Spot) -> Flow<
    Result<(usize, isize), Fault>,
> {
    screen_point_flow(t, at).bind_ok(
        |point: Point, t: Trail|
            child_under_flow(t, root, point).bind_ok(
                |child: (usize, Point), t: Trail|
                    match message::packed(child.1.x, child.1.y) {
                        Ok(location) => t.give(Ok((child.0, location))),
                        Err(fault) => t.give(Err(fault)),
                    },
            ),
    )
}

/// Deepest child of `root` under a logical desktop coordinate, with the packed
/// client coordinates for that child.
pub fn child_at(tape: &mut Tape, root: usize, at: Spot) -> (child: Option<
    CoreResult<(usize, isize)>,
>)
    ensures
        Flow::of(final(tape)@, tape::seen(child)) == child_at_flow(old(tape)@, root, at),
{
    let point = match screen_point(tape, at)? {
        Ok(point) => point,
        Err(failure) => {
            return Some(Err(failure));
        },
    };
    let (child, client) = match child_under(tape, root, point)? {
        Ok(found) => found,
        Err(failure) => {
            return Some(Err(failure));
        },
    };
    match packed_point(client.x, client.y) {
        Ok(location) => Some(Ok((child, location))),
        Err(failure) => Some(Err(failure)),
    }
}

/// Packed client coordinates of a logical desktop coordinate in `window`.
pub open spec fn client_point_flow(t: Trail, window: usize, at: Spot) -> Flow<
    Result<isize, Fault>,
> {
    screen_point_flow(t, at).bind_ok(
        |point: Point, t: Trail|
            t.plain(Plain::ScreenToClient { window, point }).bind(
                |mapped: Reply, t: Trail|
                    match mapped.point_value() {
                        Some(client) => t.give(message::packed(client.x, client.y)),
                        None => t.give(Err(unmapped_fault())),
                    },
            ),
    )
}

/// Packed client coordinates of a logical desktop coordinate in `window`.
pub fn client_point(tape: &mut Tape, window: usize, at: Spot) -> (location: Option<
    CoreResult<isize>,
>)
    ensures
        Flow::of(final(tape)@, tape::seen(location)) == client_point_flow(old(tape)@, window, at),
{
    let point = match screen_point(tape, at)? {
        Ok(point) => point,
        Err(failure) => {
            return Some(Err(failure));
        },
    };
    match tape.plain(Plain::ScreenToClient { window, point })?.point() {
        Some(client) => Some(packed_point(client.x, client.y)),
        None => Some(Err(unmapped())),
    }
}

/// Hit-test code of `root` at a physical screen point, where the point can be
/// packed and the window answers in time.
pub open spec fn hit_test_flow(t: Trail, root: usize, point: Point) -> Flow<Option<isize>> {
    match message::packed(point.x, point.y) {
        Err(_) => t.give(None),
        Ok(location) => t.plain(
            Plain::SendTimeout {
                window: root,
                message: WM_NCHITTEST,
                wparam: 0,
                lparam: location,
                flags: SMTO_ABORTIFHUNG,
                timeout: HIT_TEST_TIMEOUT,
            },
        ).bind(
            |answer: Reply, t: Trail|
                match answer.found_value() {
                    Some(hit) => t.give(Some(hit as isize)),
                    None => t.give(None),
                },
        ),
    }
}

/// `WM_NCHITTEST` code of `root` at a physical screen point, or `None` when the
/// window does not answer in time.
pub fn hit_test(tape: &mut Tape, root: usize, point: Point) -> (hit: Option<Option<isize>>)
    ensures
        Flow::of(final(tape)@, hit) == hit_test_flow(old(tape)@, root, point),
{
    let location = match packed_point(point.x, point.y) {
        Ok(location) => location,
        Err(_) => {
            return Some(None);
        },
    };
    let answer = tape.plain(
        Plain::SendTimeout {
            window: root,
            message: WM_NCHITTEST,
            wparam: 0,
            lparam: location,
            flags: SMTO_ABORTIFHUNG,
            timeout: HIT_TEST_TIMEOUT,
        },
    )?;
    match answer.found() {
        Some(hit) => Some(Some(hit as isize)),
        None => Some(None),
    }
}

/// What is posted while modifiers are held.
pub enum Posting<P> {
    Clicks {
        target: usize,
        point: isize,
        button: MouseButton,
        count: u32,
        flags: usize,
        wants_double: bool,
    },
    Drag { target: usize, start: isize, path: P, button: MouseButton, flags: usize },
}

impl<'a> View for Posting<&'a [Spot]> {
    type V = Posting<Seq<Spot>>;

    open spec fn view(&self) -> Posting<Seq<Spot>> {
        match self {
            Posting::Clicks { target, point, button, count, flags, wants_double } =>
                Posting::Clicks {
                target: *target,
                point: *point,
                button: *button,
                count: *count,
                flags: *flags,
                wants_double: *wants_double,
            },
            Posting::Drag { target, start, path, button, flags } => Posting::Drag {
                target: *target,
                start: *start,
                path: path@,
                button: *button,
                flags: *flags,
            },
        }
    }
}

/// Waits before every click but the first.
pub open spec fn click_gap_flow(t: Trail, index: u32) -> Flow<Outcome> {
    if index > 0 {
        t.plain(Plain::Sleep { millis: CLICK_GAP }).bind(|_slept: Reply, t: Trail| t.give(Ok(())))
    } else {
        t.give(Ok(()))
    }
}

/// A posted press, a hold and the release.
pub open spec fn press_flow(
    t: Trail,
    target: usize,
    point: isize,
    press: u32,
    up: u32,
    flags: usize,
    button_flag: usize,
) -> Flow<Outcome> {
    emitter::post_flow(t, target, press, flags | button_flag, point).bind_ok(
        |_pressed: (), t: Trail|
            t.plain(Plain::Sleep { millis: CLICK_HOLD }).bind(
                |_held: Reply, t: Trail| emitter::post_flow(t, target, up, flags, point),
            ),
    )
}

/// One posted click: a move, the press, a hold and the release.
pub open spec fn click_flow(
    t: Trail,
    target: usize,
    point: isize,
    button: MouseButton,
    flags: usize,
    wants_double: bool,
    index: u32,
) -> Flow<Outcome> {
    let (down, up, double, button_flag) = message::button_messages(button);
    click_gap_flow(t, index).bind_ok(
        |_waited: (), t: Trail|
            t.plain(Plain::PostsDoubleClick { index, wants_double }).bind(
                |doubles: Reply, t: Trail|
                    emitter::post_flow(t, target, WM_MOUSEMOVE, flags, point).bind_ok(
                        |_moved: (), t: Trail|
                            press_flow(
                                t,
                                target,
                                point,
                                if doubles.flag_value() {
                                    double
                                } else {
                                    down
                                },
                                up,
                                flags,
                                button_flag,
                            ),
                    ),
            ),
    )
}

/// The clicks from index `index` on, up to the first that fails.
pub open spec fn clicks_flow(
    t: Trail,
    target: usize,
    point: isize,
    button: MouseButton,
    count: u32,
    flags: usize,
    wants_double: bool,
    index: nat,
) -> Flow<Outcome>
    decreases count - index,
{
    if index >= count {
        t.give(Ok(()))
    } else {
        click_flow(t, target, point, button, flags, wants_double, index as u32).bind_ok(
            |_clicked: (), t: Trail|
                clicks_flow(t, target, point, button, count, flags, wants_double, index + 1),
        )
    }
}

/// Moves over the points from index `i` on, up to the first that fails, and
/// yields the last location, which begins as `end`.
pub open spec fn drag_moves_flow(
    t: Trail,
    target: usize,
    path: Seq<Spot>,
    i: nat,
    flags: usize,
    end: isize,
) -> Flow<Result<isize, Fault>>
    decreases path.len() - i,
{
    if i >= path.len() {
        t.give(Ok(end))
    } else {
        client_point_flow(t, target, path[i as int]).bind_ok(
            |location: isize, t: Trail|
                emitter::post_flow(t, target, WM_MOUSEMOVE, flags, location).bind_ok(
                    |_moved: (), t: Trail|
                        t.plain(Plain::Sleep { millis: DRAG_STEP }).bind(
                            |_slept: Reply, t: Trail|
                                drag_moves_flow(t, target, path, i + 1, flags, location),
                        ),
                ),
        )
    }
}

/// What is posted while modifiers are held.
pub open spec fn posting_flow(t: Trail, posting: Posting<Seq<Spot>>) -> Flow<Outcome> {
    match posting {
        Posting::Clicks { target, point, button, count, flags, wants_double } => clicks_flow(
            t,
            target,
            point,
            button,
            count,
            flags,
            wants_double,
            0,
        ),
        Posting::Drag { target, start, path, button, flags } => {
            let (down, up, _, button_flag) = message::button_messages(button);
            emitter::post_flow(t, target, WM_MOUSEMOVE, flags, start).bind_ok(
                |_moved: (), t: Trail|
                    emitter::post_flow(t, target, down, flags | button_flag, start).bind_ok(
                        |_pressed: (), t: Trail|
                            t.plain(Plain::Sleep { millis: CLICK_HOLD }).bind(
                                |_held: Reply, t: Trail|
                                    drag_moves_flow(
                                        t,
                                        target,
                                        path,
                                        1,
                                        flags | button_flag,
                                        start,
                                    ).bind_ok(
                                        |end: isize, t: Trail|
                                            emitter::post_flow(t, target, up, flags, end),
                                    ),
                            ),
                    ),
            )
        },
    }
}

/// Posts the modifiers going down, then `posting`, then the modifiers going up
/// in reverse.
pub open spec fn with_modifiers_flow(
    t: Trail,
    window: usize,
    modifiers: Modifiers,
    posting: Posting<Seq<Spot>>,
) -> Flow<Outcome> {
    let keys = keys::held_keys(modifiers);
    emitter::press_held_flow(t, window, 0, keys, 0).bind(
        |pressed: Turn, t: Trail|
            match pressed.result {
                Err(fault) => t.give(Err(fault)),
                Ok(_) => posting_flow(t, posting).bind(
                    |posted: Outcome, t: Trail|
                        emitter::release_held_flow(
                            t,
                            window,
                            pressed.alt,
                            keys,
                            keys.len(),
                            posted,
                        ).bind(|released: Turn, t: Trail| t.give(released.result)),
                ),
            },
    )
}

/// One posted click: a move, the press, a hold and the release.
fn click(
    tape: &mut Tape,
    target: usize,
    point: isize,
    button: MouseButton,
    flags: usize,
    wants_double: bool,
    index: u32,
) -> (outcome: Option<CoreResult<()>>)
    ensures
        Flow::of(final(tape)@, tape::seen(outcome)) == click_flow(
            old(tape)@,
            target,
            point,
            button,
            flags,
            wants_double,
            index,
        ),
{
    let (down, up, double, button_flag) = mouse_messages(button);
    if index > 0 {
        tape.plain(Plain::Sleep { millis: CLICK_GAP })?;
    }
    let press = if tape.plain(Plain::PostsDoubleClick { index, wants_double })?.flag() {
        double
    } else {
        down
    };
    if let Err(failure) = post(tape, target, WM_MOUSEMOVE, flags, point)? {
        return Some(Err(failure));
    }
    if let Err(failure) = post(tape, target, press, flags | button_flag, point)? {
        return Some(Err(failure));
    }
    tape.plain(Plain::Sleep { millis: CLICK_HOLD })?;
    post(tape, target, up, flags, point)
}

/// Moves over the points from index 1 on, up to the first that fails, and
/// returns the last location.
fn drag_moves(tape: &mut Tape, target: usize, path: &[Spot], flags: usize, start: isize) -> (end:
    Option<CoreResult<isize>>)
    requires
        path@.len() > 0,
    ensures
        Flow::of(final(tape)@, tape::seen(end)) == drag_moves_flow(
            old(tape)@,
            target,
            path@,
            1,
            flags,
            start,
        ),
{
    let mut end = start;
    let mut i: usize = 1;
    while i < path.len()
        invariant
            1 <= i <= path@.len(),
            drag_moves_flow(tape@, target, path@, i as nat, flags, end) == drag_moves_flow(
                old(tape)@,
                target,
                path@,
                1,
                flags,
                start,
            ),
        decreases path@.len() - i,
    {
        end = match client_point(tape, target, path[i])? {
            Ok(location) => location,
            Err(failure) => {
                return Some(Err(failure));
            },
        };
        if let Err(failure) = post(tape, target, WM_MOUSEMOVE, flags, end)? {
            return Some(Err(failure));
        }
        tape.plain(Plain::Sleep { millis: DRAG_STEP })?;
        i = i + 1;
    }
    Some(Ok(end))
}

/// What is posted while modifiers are held.
fn run_posting(tape: &mut Tape, posting: &Posting<&[Spot]>) -> (outcome: Option<CoreResult<()>>)
    requires
        posting matches Posting::Drag { path, .. } ==> path@.len() > 0,
    ensures
        Flow::of(final(tape)@, tape::seen(outcome)) == posting_flow(old(tape)@, posting@),
{
    match posting {
        Posting::Clicks { target, point, button, count, flags, wants_double } => {
            let mut index: u32 = 0;
            while index < *count
                invariant
                    index <= *count,
                    clicks_flow(
                        tape@,
                        *target,
                        *point,
                        *button,
                        *count,
                        *flags,
                        *wants_double,
                        index as nat,
                    ) == posting_flow(old(tape)@, posting@),
                decreases *count - index,
            {
                if let Err(failure) = click(
                    tape,
                    *target,
                    *point,
                    *button,
                    *flags,
                    *wants_double,
                    index,
                )? {
                    return Some(Err(failure));
                }
                index = index + 1;
            }
            Some(Ok(()))
        },
        Posting::Drag { target, start, path, button, flags } => {
            let (down, up, _, button_flag) = mouse_messages(*button);
            if let Err(failure) = post(tape, *target, WM_MOUSEMOVE, *flags, *start)? {
                return Some(Err(failure));
            }
            if let Err(failure) = post(tape, *target, down, *flags | button_flag, *start)? {
                return Some(Err(failure));
            }
            tape.plain(Plain::Sleep { millis: CLICK_HOLD })?;
            match drag_moves(tape, *target, path, *flags | button_flag, *start)? {
                Ok(end) => post(tape, *target, up, *flags, end),
                Err(failure) => Some(Err(failure)),
            }
        },
    }
}

/// Posts the modifiers going down, then `posting`, then the modifiers going up
/// in reverse. Modifiers that went down go up again whatever fails.
pub fn with_modifiers(
    tape: &mut Tape,
    hwnd: usize,
    modifiers: Modifiers,
    posting: &Posting<&[Spot]>,
) -> (outcome: Option<CoreResult<()>>)
    requires
        posting matches Posting::Drag { path, .. } ==> path@.len() > 0,
    ensures
        Flow::of(final(tape)@, tape::seen(outcome)) == with_modifiers_flow(
            old(tape)@,
            hwnd,
            modifiers,
            posting@,
        ),
{
    let keys = modifier_keys(modifiers);
    let mut emitter = KeyEmitter { hwnd, alt_depth: 0 };
    if let Err(failure) = emitter.press_held(tape, keys.as_slice())? {
        return Some(Err(failure));
    }
    let posted = run_posting(tape, posting)?;
    emitter.release_held(tape, keys.as_slice(), keys.len(), posted)
}

/// [`with_modifiers_flow`] while `root` is kept from taking the foreground.
pub open spec fn contained_flow(
    t: Trail,
    root: usize,
    window: usize,
    modifiers: Modifiers,
    posting: Posting<Seq<Spot>>,
) -> Flow<Outcome> {
    activation::contain_flow(t, root, false).bind(
        |guard: Option<activation::Containment>, t: Trail|
            with_modifiers_flow(t, window, modifiers, posting).bind(
                |outcome: Outcome, t: Trail|
                    activation::release_flow(t, guard).bind(
                        |_released: (), t: Trail| t.give(outcome),
                    ),
            ),
    )
}

/// [`with_modifiers`] while `root` is kept from taking the foreground.
fn contained(
    tape: &mut Tape,
    root: usize,
    window: usize,
    modifiers: Modifiers,
    posting: &Posting<&[Spot]>,
) -> (outcome: Option<CoreResult<()>>)
    requires
        posting matches Posting::Drag { path, .. } ==> path@.len() > 0,
    ensures
        Flow::of(final(tape)@, tape::seen(outcome)) == contained_flow(
            old(tape)@,
            root,
            window,
            modifiers,
            posting@,
        ),
{
    let guard = contain_activation(tape, root)?;
    let outcome = with_modifiers(tape, window, modifiers, posting)?;
    release(tape, guard)?;
    Some(outcome)
}

/// Kind of input that a gesture is.
pub open spec fn gesture_kind(gesture: Gesture) -> EventKind {
    match gesture {
        Gesture::Click { .. } => EventKind::MouseClick,
        Gesture::Move { .. } | Gesture::Drag { .. } => EventKind::MouseMove,
        Gesture::Scroll { .. } => EventKind::MouseScroll,
    }
}

/// Where a gesture is a single left click without modifiers.
pub open spec fn plain_click(gesture: Gesture) -> Option<Spot> {
    match gesture {
        Gesture::Click { at, button, count, modifiers } => if button is Left && count == 1
            && modifiers.none() {
            Some(at)
        } else {
            None
        },
        _ => None,
    }
}

/// What becomes of a gesture that `root` would drop: UI Automation may invoke
/// the control under a plain click, except in Chromium; all else is refused.
pub open spec fn dropped_flow(
    t: Trail,
    id: Seq<char>,
    root: usize,
    class: Seq<char>,
    gesture: Gesture,
    reason: Seq<char>,
) -> Flow<Outcome> {
    match plain_click(gesture) {
        None => delivery::refuse_flow(t, id, class, gesture_kind(gesture), reason),
        Some(at) => window::is_chromium_flow(t, class).bind(
            |chromium: bool, t: Trail|
                if chromium {
                    delivery::refuse_flow(t, id, class, gesture_kind(gesture), reason)
                } else {
                    screen_point_flow(t, at).bind_ok(
                        |point: Point, t: Trail|
                            t.plain(Plain::InvokeAtPoint { root, point }).bind(
                                |invoked: Reply, t: Trail|
                                    if invoked.flag_value() {
                                        t.give(Ok(()))
                                    } else {
                                        delivery::refuse_flow(
                                            t,
                                            id,
                                            class,
                                            gesture_kind(gesture),
                                            reason,
                                        )
                                    },
                            ),
                    )
                },
        ),
    }
}

/// A click posted to the deepest child of `root` under it.
pub open spec fn posted_click_flow(
    t: Trail,
    root: usize,
    at: Spot,
    button: MouseButton,
    count: u32,
    modifiers: Modifiers,
) -> Flow<Outcome> {
    child_at_flow(t, root, at).bind_ok(
        |child: (usize, isize), t: Trail|
            t.plain(Plain::ClassStyle { window: child.0 }).bind(
                |style: Reply, t: Trail|
                    contained_flow(
                        t,
                        root,
                        child.0,
                        modifiers,
                        Posting::Clicks {
                            target: child.0,
                            point: child.1,
                            button,
                            count,
                            flags: message::modifier_flags(modifiers),
                            wants_double: style.word_value() & CS_DBLCLKS != 0,
                        },
                    ),
            ),
    )
}

/// The error for a drag that starts where only the real pointer can drag.
pub open spec fn non_client_fault(id: Seq<char>, region: Seq<char>) -> Fault {
    Fault {
        kind: ErrorKind::BackgroundUnavailable,
        message: "window "@ + id + " drag starts on its "@ + region
            + ", where only real pointer input drives the system move/size loop; retry with takeover:true or use ax actions"@,
    }
}

/// The non-client region of `root` under a point, where dragging it moves or
/// sizes the window.
pub open spec fn drag_region_flow(t: Trail, root: usize, point: Point) -> Flow<Option<Seq<char>>> {
    hit_test_flow(t, root, point).bind(
        |hit: Option<isize>, t: Trail|
            match hit {
                None => t.give(None),
                Some(hit) => t.plain(Plain::NonClientRegion { hit }).bind(
                    |region: Reply, t: Trail| t.give(region.text_value()),
                ),
            },
    )
}

/// A drag posted to the deepest child of `root` under its first point.
pub open spec fn posted_drag_flow(
    t: Trail,
    id: Seq<char>,
    root: usize,
    path: Seq<Spot>,
    button: MouseButton,
    modifiers: Modifiers,
) -> Flow<Outcome> {
    if path.len() == 0 {
        t.give(Err(error::input_fault("drag path is empty"@)))
    } else {
        screen_point_flow(t, path[0]).bind_ok(
            |start: Point, t: Trail|
                drag_region_flow(t, root, start).bind(
                    |region: Option<Seq<char>>, t: Trail|
                        match region {
                            Some(region) => t.give(Err(non_client_fault(id, region))),
                            None => child_under_flow(t, root, start).bind_ok(
                                |child: (usize, Point), t: Trail|
                                    match message::packed(child.1.x, child.1.y) {
                                        Err(fault) => t.give(Err(fault)),
                                        Ok(location) => contained_flow(
                                            t,
                                            root,
                                            child.0,
                                            modifiers,
                                            Posting::Drag {
                                                target: child.0,
                                                start: location,
                                                path,
                                                button,
                                                flags: message::modifier_flags(modifiers),
                                            },
                                        ),
                                    },
                            ),
                        },
                ),
        )
    }
}

/// Posts wheel travel along one axis, where there is any.
pub open spec fn wheel_flow(
    t: Trail,
    window: usize,
    message: u32,
    travel: int,
    location: isize,
) -> Flow<Outcome> {
    if travel == 0 {
        t.give(Ok(()))
    } else {
        match message::wheel_bits(travel as i32) {
            Err(fault) => t.give(Err(fault)),
            Ok(wparam) => emitter::post_flow(t, window, message, wparam, location),
        }
    }
}

/// Wheel travel posted to the deepest child of `root` under a point. Wheel
/// messages carry screen coordinates.
pub open spec fn posted_scroll_flow(
    t: Trail,
    root: usize,
    at: Spot,
    horizontal: i32,
    vertical: i32,
) -> Flow<Outcome> {
    screen_point_flow(t, at).bind_ok(
        |point: Point, t: Trail|
            child_under_flow(t, root, point).bind_ok(
                |child: (usize, Point), t: Trail|
                    match message::packed(point.x, point.y) {
                        Err(fault) => t.give(Err(fault)),
                        Ok(location) => wheel_flow(
                            t,
                            child.0,
                            WM_MOUSEHWHEEL,
                            message::wheel_travel(horizontal as int, WHEEL_DELTA as int),
                            location,
                        ).bind_ok(
                            |_turned: (), t: Trail|
                                wheel_flow(
                                    t,
                                    child.0,
                                    WM_MOUSEWHEEL,
                                    message::wheel_travel(vertical as int, -WHEEL_DELTA),
                                    location,
                                ),
                        ),
                    },
            ),
    )
}

/// A gesture that `root` receives.
pub open spec fn posted_gesture_flow(t: Trail, id: Seq<char>, root: usize, gesture: Gesture) -> Flow<
    Outcome,
> {
    match gesture {
        Gesture::Click { at, button, count, modifiers } => posted_click_flow(
            t,
            root,
            at,
            button,
            count,
            modifiers,
        ),
        Gesture::Move { at } => child_at_flow(t, root, at).bind_ok(
            |child: (usize, isize), t: Trail|
                emitter::post_flow(t, child.0, WM_MOUSEMOVE, 0, child.1),
        ),
        Gesture::Drag { path, button, modifiers } => posted_drag_flow(
            t,
            id,
            root,
            path,
            button,
            modifiers,
        ),
        Gesture::Scroll { at, horizontal, vertical } => posted_scroll_flow(
            t,
            root,
            at,
            horizontal,
            vertical,
        ),
    }
}

/// A gesture posted to the window that `id` names.
pub open spec fn pointer_flow(t: Trail, id: Seq<char>, gesture: Gesture) -> Flow<Outcome> {
    delivery::hwnd_flow(t, id).bind_ok(
        |root: usize, t: Trail|
            delivery::ensure_integrity_flow(t, id, root).bind_ok(
                |_allowed: (), t: Trail|
                    window::class_name_flow(t, root).bind(
                        |class: Seq<char>, t: Trail|
                            delivery::drop_reason_flow(t, root, class, gesture_kind(gesture)).bind(
                                |reason: Option<Seq<char>>, t: Trail|
                                    match reason {
                                        Some(reason) => dropped_flow(
                                            t,
                                            id,
                                            root,
                                            class,
                                            gesture,
                                            reason,
                                        ),
                                        None => posted_gesture_flow(t, id, root, gesture),
                                    },
                            ),
                    ),
            ),
    )
}

/// Kind of input that a gesture is.
fn kind_of(event: &PointerEvent) -> (kind: EventKind)
    ensures
        kind == gesture_kind(event@),
{
    match event {
        PointerEvent::Click { .. } => EventKind::MouseClick,
        PointerEvent::Move { .. } | PointerEvent::Drag { .. } => EventKind::MouseMove,
        PointerEvent::Scroll { .. } => EventKind::MouseScroll,
    }
}

/// Where a gesture is a single left click without modifiers.
fn plain_click_of(event: &PointerEvent) -> (at: Option<Spot>)
    ensures
        at == plain_click(event@),
{
    match event {
        PointerEvent::Click { at, button: MouseButton::Left, count: 1, modifiers } => {
            if *modifiers == (Modifiers { ctrl: false, alt: false, shift: false, meta: false }) {
                Some(*at)
            } else {
                None
            }
        },
        _ => None,
    }
}

/// What becomes of a gesture that `root` would drop.
fn dropped(
    tape: &mut Tape,
    id: &str,
    root: usize,
    class: &String,
    event: &PointerEvent,
    reason: &str,
) -> (outcome: Option<CoreResult<()>>)
    ensures
        Flow::of(final(tape)@, tape::seen(outcome)) == dropped_flow(
            old(tape)@,
            id@,
            root,
            class@,
            event@,
            reason@,
        ),
{
    if let Some(at) = plain_click_of(event) {
        if !is_chromium(tape, class.clone())? {
            let point = match screen_point(tape, at)? {
                Ok(point) => point,
                Err(failure) => {
                    return Some(Err(failure));
                },
            };
            if tape.plain(Plain::InvokeAtPoint { root, point })?.flag() {
                return Some(Ok(()));
            }
        }
    }
    refuse(tape, id, class.as_str(), kind_of(event), reason)
}

/// A click posted to the deepest child of `root` under it.
fn posted_click(
    tape: &mut Tape,
    root: usize,
    at: Spot,
    button: MouseButton,
    count: u32,
    modifiers: Modifiers,
) -> (outcome: Option<CoreResult<()>>)
    ensures
        Flow::of(final(tape)@, tape::seen(outcome)) == posted_click_flow(
            old(tape)@,
            root,
            at,
            button,
            count,
            modifiers,
        ),
{
    let (target, point) = match child_at(tape, root, at)? {
        Ok(child) => child,
        Err(failure) => {
            return Some(Err(failure));
        },
    };
    let style = tape.plain(Plain::ClassStyle { window: target })?.word();
    let posting = Posting::Clicks {
        target,
        point,
        button,
        count,
        flags: mouse_flags(modifiers),
        wants_double: style & CS_DBLCLKS != 0,
    };
    contained(tape, root, target, modifiers, &posting)
}

/// The non-client region of `root` under a point, where dragging it moves or
/// sizes the window.
fn drag_region(tape: &mut Tape, root: usize, point: Point) -> (region: Option<Option<String>>)
    ensures
        Flow::of(final(tape)@, window::read_reason(region)) == drag_region_flow(
            old(tape)@,
            root,
            point,
        ),
{
    match hit_test(tape, root, point)? {
        None => Some(None),
        Some(hit) => match tape.plain(Plain::NonClientRegion { hit })?.text() {
            Some(region) => Some(Some(region.to_owned())),
            None => Some(None),
        },
    }
}

/// A drag posted to the deepest child of `root` under its first point.
fn posted_drag(
    tape: &mut Tape,
    id: &str,
    root: usize,
    path: &[Spot],
    button: MouseButton,
    modifiers: Modifiers,
) -> (outcome: Option<CoreResult<()>>)
    ensures
        Flow::of(final(tape)@, tape::seen(outcome)) == posted_drag_flow(
            old(tape)@,
            id@,
            root,
            path@,
            button,
            modifiers,
        ),
{
    if path.len() == 0 {
        return Some(Err(DesktopError::input_failed("drag path is empty".to_owned())));
    }
    let start = match screen_point(tape, path[0])? {
        Ok(start) => start,
        Err(failure) => {
            return Some(Err(failure));
        },
    };
    if let Some(region) = drag_region(tape, root, start)? {
        let mut message = "window ".to_owned();
        message.append(id);
        message.append(" drag starts on its ");
        message.append(region.as_str());
        message.append(
            ", where only real pointer input drives the system move/size loop; retry with takeover:true or use ax actions",
        );
        return Some(Err(DesktopError::background_unavailable(message)));
    }
    let (target, client) = match child_under(tape, root, start)? {
        Ok(child) => child,
        Err(failure) => {
            return Some(Err(failure));
        },
    };
    let location = match packed_point(client.x, client.y) {
        Ok(location) => location,
        Err(failure) => {
            return Some(Err(failure));
        },
    };
    let posting = Posting::Drag {
        target,
        start: location,
        path,
        button,
        flags: mouse_flags(modifiers),
    };
    contained(tape, root, target, modifiers, &posting)
}

/// Posts wheel travel along one axis, where there is any.
fn wheel(tape: &mut Tape, window: usize, message: u32, travel: i32, location: isize) -> (outcome:
    Option<CoreResult<()>>)
    ensures
        Flow::of(final(tape)@, tape::seen(outcome)) == wheel_flow(
            old(tape)@,
            window,
            message,
            travel as int,
            location,
        ),
{
    if travel == 0 {
        return Some(Ok(()));
    }
    match wheel_wparam(travel) {
        Err(failure) => Some(Err(failure)),
        Ok(wparam) => post(tape, window, message, wparam, location),
    }
}

/// Wheel travel posted to the deepest child of `root` under a point. Unhandled
/// wheel input bubbles from the child up its parent chain.
fn posted_scroll(tape: &mut Tape, root: usize, at: Spot, horizontal: i32, vertical: i32) -> (outcome:
    Option<CoreResult<()>>)
    ensures
        Flow::of(final(tape)@, tape::seen(outcome)) == posted_scroll_flow(
            old(tape)@,
            root,
            at,
            horizontal,
            vertical,
        ),
{
    let point = match screen_point(tape, at)? {
        Ok(point) => point,
        Err(failure) => {
            return Some(Err(failure));
        },
    };
    let (target, _) = match child_under(tape, root, point)? {
        Ok(child) => child,
        Err(failure) => {
            return Some(Err(failure));
        },
    };
    let location = match packed_point(point.x, point.y) {
        Ok(location) => location,
        Err(failure) => {
            return Some(Err(failure));
        },
    };
    let horizontal = saturating_travel(horizontal, WHEEL_DELTA);
    let vertical = saturating_travel(vertical, -WHEEL_DELTA);
    if let Err(failure) = wheel(tape, target, WM_MOUSEHWHEEL, horizontal, location)? {
        return Some(Err(failure));
    }
    wheel(tape, target, WM_MOUSEWHEEL, vertical, location)
}

/// Posts pointer input to the deepest child window under the point.
///
/// Toolkits that drop posted clicks still get a single unmodified left click
/// when UI Automation can invoke the control under the point, except Chromium,
/// whose Invoke reports success without acting.
pub fn pointer(tape: &mut Tape, id: &str, event: &PointerEvent) -> (outcome: Option<CoreResult<()>>)
    ensures
        Flow::of(final(tape)@, tape::seen(outcome)) == pointer_flow(old(tape)@, id@, event@),
{
    let root = match hwnd(tape, id)? {
        Ok(root) => root,
        Err(failure) => {
            return Some(Err(failure));
        },
    };
    if let Err(failure) = ensure_integrity(tape, id, root)? {
        return Some(Err(failure));
    }
    let class = class_name(tape, root)?;
    if let Some(reason) = drop_reason(tape, root, &class, kind_of(event))? {
        return dropped(tape, id, root, &class, event, reason.as_str());
    }
    match event {
        PointerEvent::Click { at, button, count, modifiers } => posted_click(
            tape,
            root,
            *at,
            *button,
            *count,
            *modifiers,
        ),
        PointerEvent::Move { at } => {
            match child_at(tape, root, *at)? {
                Ok((target, location)) => post(tape, target, WM_MOUSEMOVE, 0, location),
                Err(failure) => Some(Err(failure)),
            }
        },
        PointerEvent::Drag { path, button, modifiers } => posted_drag(
            tape,
            id,
            root,
            path.as_slice(),
            *button,
            *modifiers,
        ),
        PointerEvent::Scroll { at, horizontal, vertical } => posted_scroll(
            tape,
            root,
            *at,
            *horizontal,
            *vertical,
        ),
    }
}

/// Kind of input that a chord is.
pub open spec fn chord_kind(keys: Seq<KeyName>) -> EventKind {
    if keys.len() > 1 || exists|i: int| 0 <= i < keys.len() && (#[trigger] keys[i]).modifies() {
        EventKind::KeyCombo
    } else {
        EventKind::Keystroke
    }
}

/// Kind of input that a chord is: a combination once it has a second key or a
/// modifier.
pub fn kind_of_chord(keys: &[KeyName]) -> (kind: EventKind)
    ensures
        kind == chord_kind(keys@),
{
    if keys.len() > 1 {
        return EventKind::KeyCombo;
    }
    if keys.len() == 1 && keys[0].is_modifier() {
        assert(keys@[0].modifies());
        return EventKind::KeyCombo;
    }
    EventKind::Keystroke
}

/// Keys posted to the focused descendant of the window that `id` names: down in
/// order, and up in reverse.
pub open spec fn key_chord_flow(t: Trail, id: Seq<char>, keys: Seq<KeyName>) -> Flow<Outcome> {
    delivery::hwnd_flow(t, id).bind_ok(
        |root: usize, t: Trail|
            delivery::ensure_delivery_flow(t, id, root, chord_kind(keys)).bind_ok(
                |_delivers: (), t: Trail|
                    KeyEmitter::focused_flow(t, root).bind(
                        |window: usize, t: Trail| posted_chord_flow(t, window, keys),
                    ),
            ),
    )
}

/// The posted part of [`key_chord_flow`].
pub open spec fn posted_chord_flow(t: Trail, window: usize, keys: Seq<KeyName>) -> Flow<Outcome> {
    emitter::press_held_flow(t, window, 0, keys, 0).bind(
        |pressed: Turn, t: Trail|
            match pressed.result {
                Err(fault) => t.give(Err(fault)),
                Ok(_) => t.plain(Plain::Sleep { millis: KEY_GAP }).bind(
                    |_slept: Reply, t: Trail|
                        emitter::release_held_flow(
                            t,
                            window,
                            pressed.alt,
                            keys,
                            keys.len(),
                            Ok(()),
                        ).bind(|released: Turn, t: Trail| t.give(released.result)),
                ),
            },
    )
}

/// Posts keys to the focused descendant of the window that `id` names: down in
/// order, and up in reverse. Keys that went down go up again whatever fails.
pub fn key_chord(tape: &mut Tape, id: &str, keys: &[KeyName]) -> (outcome: Option<CoreResult<()>>)
    ensures
        Flow::of(final(tape)@, tape::seen(outcome)) == key_chord_flow(old(tape)@, id@, keys@),
{
    let root = match hwnd(tape, id)? {
        Ok(root) => root,
        Err(failure) => {
            return Some(Err(failure));
        },
    };
    if let Err(failure) = ensure_delivery(tape, id, root, kind_of_chord(keys))? {
        return Some(Err(failure));
    }
    let mut emitter = KeyEmitter::focused(tape, root)?;
    if let Err(failure) = emitter.press_held(tape, keys)? {
        return Some(Err(failure));
    }
    tape.plain(Plain::Sleep { millis: KEY_GAP })?;
    emitter.release_held(tape, keys, keys.len(), Ok(()))
}

/// Posts the code units from index `i` on, up to the first that fails.
pub open spec fn typed_units_flow(t: Trail, window: usize, units: Seq<u16>, i: nat) -> Flow<Outcome>
    decreases units.len() - i,
{
    if i >= units.len() {
        t.give(Ok(()))
    } else {
        emitter::post_flow(t, window, WM_CHAR, units[i as int] as usize, 1).bind_ok(
            |_posted: (), t: Trail| typed_units_flow(t, window, units, i + 1),
        )
    }
}

/// Types Return as a key.
pub open spec fn typed_return_flow(t: Trail, window: usize, alt: u8) -> Flow<Turn> {
    emitter::transition_flow(t, window, alt, VK_RETURN, true).bind_turn(
        |alt: u8, t: Trail|
            t.plain(Plain::Sleep { millis: KEY_GAP }).bind(
                |_slept: Reply, t: Trail|
                    emitter::transition_flow(t, window, alt, VK_RETURN, false).bind_turn(
                        |alt: u8, t: Trail|
                            t.plain(
                                Plain::Sleep { millis: (KEY_GAP + ENTER_SETTLE) as u64 },
                            ).bind(
                                |_settled: Reply, t: Trail| t.give(Turn { result: Ok(()), alt }),
                            ),
                    ),
            ),
    )
}

/// Types one character.
pub open spec fn typed_character_flow(t: Trail, window: usize, alt: u8, c: char) -> Flow<Turn> {
    typed_units_flow(t, window, text::utf16(c), 0).bind(
        |posted: Outcome, t: Trail|
            match posted {
                Err(fault) => t.give(Turn { result: Err(fault), alt }),
                Ok(_) => t.plain(Plain::Sleep { millis: KEY_GAP }).bind(
                    |_slept: Reply, t: Trail| t.give(Turn { result: Ok(()), alt }),
                ),
            },
    )
}

/// Types one unit of text: Return as a key, anything else as characters.
pub open spec fn typed_flow(t: Trail, window: usize, alt: u8, unit: TextUnit) -> Flow<Turn> {
    match unit {
        TextUnit::Enter => typed_return_flow(t, window, alt),
        TextUnit::Char(c) => typed_character_flow(t, window, alt, c),
    }
}

/// Types the units of text from index `i` on, up to the first that fails.
pub open spec fn typed_text_flow(
    t: Trail,
    window: usize,
    alt: u8,
    units: Seq<TextUnit>,
    i: nat,
) -> Flow<Outcome>
    decreases units.len() - i,
{
    if i >= units.len() {
        t.give(Ok(()))
    } else {
        typed_flow(t, window, alt, units[i as int]).bind(
            |typed: Turn, t: Trail|
                match typed.result {
                    Ok(_) => typed_text_flow(t, window, typed.alt, units, i + 1),
                    Err(fault) => t.give(Err(fault)),
                },
        )
    }
}

/// Text posted to the focused descendant of the window that `id` names.
pub open spec fn type_text_flow(t: Trail, id: Seq<char>, text: Seq<char>) -> Flow<Outcome> {
    delivery::hwnd_flow(t, id).bind_ok(
        |root: usize, t: Trail|
            delivery::ensure_text_supported_flow(t, id, root).bind_ok(
                |_supported: (), t: Trail|
                    delivery::ensure_delivery_flow(t, id, root, EventKind::TextInput).bind_ok(
                        |_delivers: (), t: Trail|
                            KeyEmitter::focused_flow(t, root).bind(
                                |window: usize, t: Trail|
                                    t.ask(Request::TextUnits { text }).bind(
                                        |units: Reply, t: Trail|
                                            typed_text_flow(
                                                t,
                                                window,
                                                0,
                                                units.text_units_value(),
                                                0,
                                            ),
                                    ),
                            ),
                    ),
            ),
    )
}

/// Types one unit of text: Return as a key, anything else as characters.
fn type_unit(tape: &mut Tape, emitter: &mut KeyEmitter, unit: TextUnit) -> (outcome: Option<
    CoreResult<()>,
>)
    ensures
        final(emitter).hwnd == old(emitter).hwnd,
        Flow::of(final(tape)@, emitter::turned(outcome, final(emitter).alt_depth)) == typed_flow(
            old(tape)@,
            old(emitter).hwnd,
            old(emitter).alt_depth,
            unit,
        ),
{
    match unit {
        TextUnit::Enter => {
            if let Err(failure) = emitter.transition(tape, VK_RETURN, true)? {
                return Some(Err(failure));
            }
            tape.plain(Plain::Sleep { millis: KEY_GAP })?;
            if let Err(failure) = emitter.transition(tape, VK_RETURN, false)? {
                return Some(Err(failure));
            }
            tape.plain(Plain::Sleep { millis: KEY_GAP + ENTER_SETTLE })?;
            Some(Ok(()))
        },
        TextUnit::Char(c) => {
            let units = encode_utf16(c);
            let mut i: usize = 0;
            while i < units.len()
                invariant
                    i <= units.len(),
                    unit == TextUnit::Char(c),
                    units@ == text::utf16(c),
                    emitter.hwnd == old(emitter).hwnd,
                    emitter.alt_depth == old(emitter).alt_depth,
                    typed_units_flow(tape@, emitter.hwnd, units@, i as nat) == typed_units_flow(
                        old(tape)@,
                        emitter.hwnd,
                        units@,
                        0,
                    ),
                decreases units.len() - i,
            {
                if let Err(failure) = post(tape, emitter.hwnd, WM_CHAR, units[i] as usize, 1)? {
                    return Some(Err(failure));
                }
                i = i + 1;
            }
            tape.plain(Plain::Sleep { millis: KEY_GAP })?;
            Some(Ok(()))
        },
    }
}

/// Types text into the focused descendant of the window that `id` names.
pub fn type_text(tape: &mut Tape, id: &str, text: &str) -> (outcome: Option<CoreResult<()>>)
    ensures
        Flow::of(final(tape)@, tape::seen(outcome)) == type_text_flow(old(tape)@, id@, text@),
{
    let root = match hwnd(tape, id)? {
        Ok(root) => root,
        Err(failure) => {
            return Some(Err(failure));
        },
    };
    if let Err(failure) = ensure_text_supported(tape, id, root)? {
        return Some(Err(failure));
    }
    if let Err(failure) = ensure_delivery(tape, id, root, EventKind::TextInput)? {
        return Some(Err(failure));
    }
    let mut emitter = KeyEmitter::focused(tape, root)?;
    let units = tape.ask(Call::TextUnits { text: text.to_owned() })?.text_units();
    let mut i: usize = 0;
    while i < units.len()
        invariant
            i <= units@.len(),
            typed_text_flow(tape@, emitter.hwnd, emitter.alt_depth, units@, i as nat)
                == type_text_flow(old(tape)@, id@, text@),
        decreases units@.len() - i,
    {
        if let Err(failure) = type_unit(tape, &mut emitter, units[i])? {
            return Some(Err(failure));
        }
        i = i + 1;
    }
    Some(Ok(()))
}

/// The call that posts one message.
pub open spec fn posted(window: usize, message: u32, wparam: usize, lparam: isize) -> Request {
    Request::Plain(Plain::Post { window, message, wparam, lparam })
}

/// Whether the calls of click `i` follow what `t` had made before the first
/// click: a pause where it is not the first, the question whether it is posted
/// as a double click, a move, a press, a pause and a release, all to one point.
pub open spec fn is_click(
    calls: Seq<Request>,
    t: Trail,
    target: usize,
    point: isize,
    button: MouseButton,
    flags: usize,
    wants_double: bool,
    i: int,
) -> bool {
    let (down, up, double, button_flag) = message::button_messages(button);
    let at = t.calls.len() + 6 * i;
    let press = if t.upcoming(6 * i).flag_value() {
        double
    } else {
        down
    };
    &&& i > 0 ==> calls[at - 1] == Request::Plain(Plain::Sleep { millis: CLICK_GAP })
    &&& calls[at] == Request::Plain(Plain::PostsDoubleClick { index: i as u32, wants_double })
    &&& calls[at + 1] == posted(target, WM_MOUSEMOVE, flags, point)
    &&& calls[at + 2] == posted(target, press, flags | button_flag, point)
    &&& calls[at + 3] == Request::Plain(Plain::Sleep { millis: CLICK_HOLD })
    &&& calls[at + 4] == posted(target, up, flags, point)
}

/// How many calls `n` clicks take.
pub open spec fn click_calls(n: nat) -> int {
    if n == 0 {
        0
    } else {
        6 * n - 1
    }
}

proof fn lemma_clicks_in_order(
    first: Trail,
    t: Trail,
    target: usize,
    point: isize,
    button: MouseButton,
    count: u32,
    flags: usize,
    wants_double: bool,
    index: nat,
)
    requires
        index <= count,
        t.replies == first.replies,
        t.calls.len() == first.calls.len() + click_calls(index),
        clicks_flow(t, target, point, button, count, flags, wants_double, index).value == Some(
            Ok::<(), Fault>(()),
        ),
    ensures
        ({
            let calls = clicks_flow(
                t,
                target,
                point,
                button,
                count,
                flags,
                wants_double,
                index,
            ).trail.calls;
            &&& calls.len() == first.calls.len() + click_calls(count as nat)
            &&& forall|k: int| 0 <= k < t.calls.len() ==> calls[k] == #[trigger] t.calls[k]
            &&& forall|i: int|
                index <= i < count ==> #[trigger] is_click(
                    calls,
                    first,
                    target,
                    point,
                    button,
                    flags,
                    wants_double,
                    i,
                )
        }),
    decreases count - index,
{
    if index < count {
        let clicked = click_flow(t, target, point, button, flags, wants_double, index as u32);
        let now = clicked.trail.calls;
        lemma_clicks_in_order(
            first,
            clicked.trail,
            target,
            point,
            button,
            count,
            flags,
            wants_double,
            index + 1,
        );
        let calls = clicks_flow(
            t,
            target,
            point,
            button,
            count,
            flags,
            wants_double,
            index,
        ).trail.calls;
        assert forall|k: int| 0 <= k < t.calls.len() implies calls[k] == #[trigger] t.calls[k] by {
            assert(calls[k] == now[k]);
        }
        let at = first.calls.len() as int + 6 * index;
        assert(is_click(now, first, target, point, button, flags, wants_double, index as int));
        assert(index > 0 ==> calls[at - 1] == now[at - 1]);
        assert(calls[at] == now[at]);
        assert(calls[at + 1] == now[at + 1]);
        assert(calls[at + 2] == now[at + 2]);
        assert(calls[at + 3] == now[at + 3]);
        assert(calls[at + 4] == now[at + 4]);
    }
}

/// Clicks that were all posted are as many as were asked for, in order: each is
/// a move, a press and a release at one point, with a pause between two clicks,
/// and nothing else is posted.
pub proof fn law_clicks_are_counted(
    t: Trail,
    target: usize,
    point: isize,
    button: MouseButton,
    count: u32,
    flags: usize,
    wants_double: bool,
)
    requires
        posting_flow(
            t,
            Posting::Clicks { target, point, button, count, flags, wants_double },
        ).value == Some(Ok::<(), Fault>(())),
    ensures
        ({
            let calls = posting_flow(
                t,
                Posting::Clicks { target, point, button, count, flags, wants_double },
            ).trail.calls;
            &&& calls.len() == t.calls.len() + click_calls(count as nat)
            &&& t.calls.is_prefix_of(calls)
            &&& forall|i: int|
                0 <= i < count ==> #[trigger] is_click(
                    calls,
                    t,
                    target,
                    point,
                    button,
                    flags,
                    wants_double,
                    i,
                )
        }),
{
    lemma_clicks_in_order(t, t, target, point, button, count, flags, wants_double, 0);
    let calls = clicks_flow(t, target, point, button, count, flags, wants_double, 0).trail.calls;
    assert(t.calls =~= calls.subrange(0, t.calls.len() as int));
}

/// Where in the target point `j` of a drag lies that begins at `t`: the first
/// at `start`, any other where the target maps it to.
pub open spec fn drag_location(t: Trail, start: isize, j: int) -> isize {
    if j == 0 {
        start
    } else {
        let client = t.upcoming(4 * j).point_value()->0;
        message::packed(client.x, client.y)->Ok_0
    }
}

/// Whether the calls for point `j` of a drag that begins at `t` locate it, map
/// it into the target, move there with the button down and pause.
pub open spec fn is_drag_step(
    calls: Seq<Request>,
    t: Trail,
    target: usize,
    start: isize,
    path: Seq<Spot>,
    flags: usize,
    j: int,
) -> bool {
    let at = t.calls.len() + 4 * j;
    let point = t.upcoming(4 * j - 1).located_value()->Ok_0;
    &&& calls[at - 1] == Request::Plain(Plain::Locate { at: path[j] })
    &&& calls[at] == Request::Plain(Plain::ScreenToClient { window: target, point })
    &&& calls[at + 1] == posted(target, WM_MOUSEMOVE, flags, drag_location(t, start, j))
    &&& calls[at + 2] == Request::Plain(Plain::Sleep { millis: DRAG_STEP })
}

proof fn lemma_drag_in_order(
    first: Trail,
    t: Trail,
    target: usize,
    start: isize,
    path: Seq<Spot>,
    i: nat,
    flags: usize,
    last: isize,
)
    requires
        1 <= i,
        i <= path.len() || i == 1,
        t.replies == first.replies,
        t.calls.len() == first.calls.len() + 4 * i - 1,
        drag_moves_flow(t, target, path, i, flags, drag_location(first, start, i - 1)).value
            == Some(Ok::<isize, Fault>(last)),
    ensures
        ({
            let end = drag_moves_flow(
                t,
                target,
                path,
                i,
                flags,
                drag_location(first, start, i - 1),
            ).trail;
            let n = if path.len() == 0 {
                1
            } else {
                path.len()
            };
            &&& end.replies == t.replies
            &&& end.calls.len() == first.calls.len() + 4 * n - 1
            &&& last == drag_location(first, start, n - 1)
            &&& forall|k: int| 0 <= k < t.calls.len() ==> end.calls[k] == #[trigger] t.calls[k]
            &&& forall|j: int|
                i <= j < path.len() ==> #[trigger] is_drag_step(
                    end.calls,
                    first,
                    target,
                    start,
                    path,
                    flags,
                    j,
                )
        }),
    decreases path.len() - i,
{
    if i < path.len() {
        let location = drag_location(first, start, i as int);
        let mapped = client_point_flow(t, target, path[i as int]);
        let moved = emitter::post_flow(mapped.trail, target, WM_MOUSEMOVE, flags, location);
        let slept = moved.trail.plain(Plain::Sleep { millis: DRAG_STEP });
        let now = slept.trail.calls;
        assert(mapped.value == Some(Ok::<isize, Fault>(location)));
        lemma_drag_in_order(first, slept.trail, target, start, path, i + 1, flags, last);
        let calls = drag_moves_flow(slept.trail, target, path, i + 1, flags, location).trail.calls;
        assert forall|k: int| 0 <= k < t.calls.len() implies calls[k] == #[trigger] t.calls[k] by {
            assert(calls[k] == now[k]);
        }
        let at = first.calls.len() as int + 4 * i;
        assert(is_drag_step(now, first, target, start, path, flags, i as int));
        assert(calls[at - 1] == now[at - 1]);
        assert(calls[at] == now[at]);
        assert(calls[at + 1] == now[at + 1]);
        assert(calls[at + 2] == now[at + 2]);
    }
}

/// A drag that was posted to its end moves to its first point and presses the
/// button there, moves once for every further point with the button down, and
/// releases it at the last. Nothing else is posted.
pub proof fn law_finished_drag_is_posted_in_order(
    t: Trail,
    target: usize,
    start: isize,
    path: Seq<Spot>,
    button: MouseButton,
    flags: usize,
)
    requires
        posting_flow(t, Posting::Drag { target, start, path, button, flags }).value == Some(
            Ok::<(), Fault>(()),
        ),
    ensures
        ({
            let calls = posting_flow(
                t,
                Posting::Drag { target, start, path, button, flags },
            ).trail.calls;
            let (down, up, _, button_flag) = message::button_messages(button);
            let n = if path.len() == 0 {
                1
            } else {
                path.len()
            };
            let at = t.calls.len() as int;
            &&& calls.len() == at + 4 * n
            &&& t.calls.is_prefix_of(calls)
            &&& calls[at] == posted(target, WM_MOUSEMOVE, flags, start)
            &&& calls[at + 1] == posted(target, down, flags | button_flag, start)
            &&& calls[at + 2] == Request::Plain(Plain::Sleep { millis: CLICK_HOLD })
            &&& forall|j: int|
                1 <= j < n ==> #[trigger] is_drag_step(
                    calls,
                    t,
                    target,
                    start,
                    path,
                    flags | button_flag,
                    j,
                )
            &&& calls.last() == posted(target, up, flags, drag_location(t, start, n - 1))
        }),
{
    let (down, up, _, button_flag) = message::button_messages(button);
    let held = flags | button_flag;
    let moved = emitter::post_flow(t, target, WM_MOUSEMOVE, flags, start);
    let pressed = emitter::post_flow(moved.trail, target, down, held, start);
    let paused = pressed.trail.plain(Plain::Sleep { millis: CLICK_HOLD });
    let dragged = drag_moves_flow(paused.trail, target, path, 1, held, start);
    let last = (dragged.value->0)->Ok_0;
    lemma_drag_in_order(t, paused.trail, target, start, path, 1, held, last);
    let calls = posting_flow(t, Posting::Drag { target, start, path, button, flags }).trail.calls;
    let before = dragged.trail.calls;
    let at = t.calls.len() as int;
    assert(calls == before.push(posted(target, up, flags, last)));
    assert forall|k: int| 0 <= k < at implies calls[k] == #[trigger] t.calls[k] by {
        assert(before[k] == paused.trail.calls[k]);
    }
    assert(t.calls =~= calls.subrange(0, at));
    assert(before[at] == paused.trail.calls[at]);
    assert(before[at + 1] == paused.trail.calls[at + 1]);
    assert(before[at + 2] == paused.trail.calls[at + 2]);
    assert forall|j: int| 1 <= j < path.len() implies #[trigger] is_drag_step(
        calls,
        t,
        target,
        start,
        path,
        held,
        j,
    ) by {
        assert(is_drag_step(before, t, target, start, path, held, j));
        let step = at + 4 * j;
        assert(calls[step - 1] == before[step - 1]);
        assert(calls[step] == before[step]);
        assert(calls[step + 1] == before[step + 1]);
        assert(calls[step + 2] == before[step + 2]);
    }
}

/// The messages that type UTF-16 code units.
pub open spec fn typed_calls(window: usize, units: Seq<u16>) -> Seq<Request> {
    Seq::new(
        units.len(),
        |i: int|
            Request::Plain(
                Plain::Post { window, message: WM_CHAR, wparam: units[i] as usize, lparam: 1 },
            ),
    )
}

/// Code units that were all posted were posted in order, one message each.
pub proof fn law_code_units_are_posted_in_order(t: Trail, window: usize, units: Seq<u16>, i: nat)
    requires
        i <= units.len(),
        typed_units_flow(t, window, units, i).value == Some(Ok::<(), Fault>(())),
    ensures
        typed_units_flow(t, window, units, i).trail.calls == t.calls + typed_calls(
            window,
            units.skip(i as int),
        ),
    decreases units.len() - i,
{
    let rest = units.skip(i as int);
    if i < units.len() {
        let posted = emitter::post_flow(t, window, WM_CHAR, units[i as int] as usize, 1);
        law_code_units_are_posted_in_order(posted.trail, window, units, i + 1);
        assert(t.calls + typed_calls(window, rest) =~= posted.trail.calls + typed_calls(
            window,
            units.skip(i as int + 1),
        ));
    } else {
        assert(t.calls + typed_calls(window, rest) =~= t.calls);
    }
}

/// Only a single left click without modifiers may be handed to UI Automation.
pub proof fn law_only_plain_clicks_are_invoked(
    t: Trail,
    id: Seq<char>,
    root: usize,
    class: Seq<char>,
    gesture: Gesture,
    reason: Seq<char>,
)
    requires
        plain_click(gesture) is None,
    ensures
        dropped_flow(t, id, root, class, gesture, reason) == delivery::refuse_flow(
            t,
            id,
            class,
            gesture_kind(gesture),
            reason,
        ),
        dropped_flow(t, id, root, class, gesture, reason).value matches Some(outcome)
            ==> outcome is Err,
{
}

/// A posted chord of named keys leaves none of them down: where `k` keys went
/// down, as many go up again, the last first, whatever fails. Where not all
/// went down, the caller gets the failure of the next one.
pub proof fn law_chord_leaves_no_key_down(t: Trail, window: usize, keys: Seq<KeyName>) -> (k: nat)
    requires
        emitter::all_named(keys),
        posted_chord_flow(t, window, keys).value is Some,
    ensures
        ({
            let end = posted_chord_flow(t, window, keys);
            let start = t.calls.len();
            // The calls that come before the first key goes up.
            let pressed = if k < keys.len() {
                2 * (k + 1)
            } else {
                2 * k + 1
            };
            &&& k <= keys.len()
            &&& k < keys.len() ==> end.value->0 is Err
            &&& end.trail.calls.len() == start + pressed + 2 * k
            &&& forall|j: int|
                0 <= j < k ==> emitter::posts_key(
                    end.trail.calls[start + 2 * j + 1],
                    window,
                    #[trigger] keys[j],
                    true,
                )
            &&& forall|j: int|
                0 <= j < k ==> emitter::posts_key(
                    end.trail.calls[start + pressed + 2 * (k - 1 - j) + 1],
                    window,
                    #[trigger] keys[j],
                    false,
                )
        }),
{
    let down = emitter::press_held_flow(t, window, 0, keys, 0);
    let k = emitter::law_failed_press_is_undone(t, window, 0, keys);
    let turn = down.value->0;
    if turn.result is Ok {
        let slept = down.trail.plain(Plain::Sleep { millis: KEY_GAP });
        emitter::law_held_keys_go_up(slept.trail, window, turn.alt, keys, keys.len(), Ok(()));
        let end = posted_chord_flow(t, window, keys);
        assert forall|j: int| 0 <= j < k implies emitter::posts_key(
            end.trail.calls[t.calls.len() + 2 * j + 1],
            window,
            #[trigger] keys[j],
            true,
        ) by {
            let i = t.calls.len() + 2 * j + 1;
            assert(slept.trail.calls[i] == down.trail.calls[i]);
            assert(end.trail.calls[i] == slept.trail.calls[i]);
        }
    }
    k
}

/// Modifiers that went down for posted input go up again, the last first and as
/// the last step, whatever the input came to, and its own failure is the one
/// reported.
pub proof fn law_modifiers_are_released(
    t: Trail,
    window: usize,
    modifiers: Modifiers,
    posting: Posting<Seq<Spot>>,
)
    requires
        with_modifiers_flow(t, window, modifiers, posting).value is Some,
    ensures
        ({
            let keys = keys::held_keys(modifiers);
            let pressed = emitter::press_held_flow(t, window, 0, keys, 0);
            let posted = posting_flow(pressed.trail, posting);
            let end = with_modifiers_flow(t, window, modifiers, posting);
            &&& (pressed.value->0).result is Ok ==> {
                &&& end.trail.calls.len() == posted.trail.calls.len() + 2 * keys.len()
                &&& forall|j: int|
                    0 <= j < keys.len() ==> emitter::posts_key(
                        end.trail.calls[posted.trail.calls.len() + 2 * (keys.len() - 1 - j) + 1],
                        window,
                        #[trigger] keys[j],
                        false,
                    )
                &&& posted.value->0 is Err ==> end.value == posted.value
            }
            &&& (pressed.value->0).result matches Err(fault) ==> end.value == Some(
                Err::<(), Fault>(fault),
            ) && end.trail == pressed.trail
        }),
{
    let keys = keys::held_keys(modifiers);
    assert(emitter::all_named(keys)) by {
        assert forall|i: int| 0 <= i < keys.len() implies !(#[trigger] keys[i] is Char) by {
            keys::law_held_keys_are_the_modifiers(modifiers, keys[i]);
            assert(keys.contains(keys[i]));
        }
    }
    let pressed = emitter::press_held_flow(t, window, 0, keys, 0);
    let turn = pressed.value->0;
    if turn.result is Ok {
        let posted = posting_flow(pressed.trail, posting);
        emitter::law_held_keys_go_up(
            posted.trail,
            window,
            turn.alt,
            keys,
            keys.len(),
            posted.value->0,
        );
    }
}

} // verus!
