//! Input injected while the target window is the foreground window.

use vstd::prelude::*;
use vstd::string::*;

use crate::activation::{activate, wait_for_foreground};
use crate::background::screen_point;
use crate::delivery::{ensure_integrity, ensure_text_supported, hwnd};
use crate::emitter::{implicit_modifiers, virtual_key};
use crate::error::{CoreResult, DesktopError, Fault, Outcome};
use crate::keys::{fixed_virtual_key, modifier_keys, KeyName, Modifiers, MouseButton};
use crate::message::{
    button_flags, mouse_event, move_input, normalized, saturating_travel, scanned_key, travel_data,
    unicode_event,
};
use crate::request::{Gesture, InputEvent, Point, PointerEvent, Spot, TextUnit};
use crate::tape::{Call, Flow, Plain, Reply, Request, Tape, Trail};
use crate::text::{decimal, encode_utf16};
use crate::win32::{
    MOUSEEVENTF_HWHEEL, MOUSEEVENTF_WHEEL, SM_CXVIRTUALSCREEN, SM_CYVIRTUALSCREEN,
    SM_XVIRTUALSCREEN, SM_YVIRTUALSCREEN, VK_RETURN, WHEEL_DELTA,
};
use crate::{activation, background, delivery, emitter, error, global, keys, message, tape, text};

verus! {

/// Milliseconds the target keeps the foreground after pointer input, so
/// retained-mode toolkits finish press/capture handling before focus and
/// cursor return.
pub const POINTER_SETTLE: u64 = 120;

/// Milliseconds the target keeps the foreground after keyboard input.
pub const KEY_SETTLE: u64 = 40;

/// Longest wait in milliseconds for Windows to confirm the target as
/// foreground.
pub const ACTIVATION_TIMEOUT: u64 = 500;

/// Milliseconds between a confirmed activation and the first input.
pub const ACTIVATION_PAUSE: u64 = 20;

/// Milliseconds between drag moves.
pub const DRAG_STEP: u64 = 16;

/// Activates the target for foreground input and hands the foreground back to
/// the user's window once the target has consumed it.
#[derive(Clone, Copy, Debug, PartialEq, Eq, Structural)]
pub struct ForegroundGuard {
    pub previous: usize,
    pub target: usize,
    pub settle: u64,
}

/// The error for a window that Windows did not let come to the front.
pub open spec fn activation_fault(id: Seq<char>) -> Fault {
    error::input_fault(
        "Windows refused to activate window "@ + id + " (foreground lock); no input was sent"@,
    )
}

/// Activates `window` where it is not null, whatever comes of it.
pub open spec fn activate_any_flow(t: Trail, window: usize) -> Flow<()> {
    if window == 0 {
        t.give(())
    } else {
        activation::activate_flow(t, window).bind(|_active: bool, t: Trail| t.give(()))
    }
}

/// Brings `target` to the front where it is not there yet.
pub open spec fn bring_forward_flow(t: Trail, id: Seq<char>, target: usize, previous: usize) -> Flow<
    Outcome,
> {
    if previous == target {
        t.give(Ok(()))
    } else {
        activation::activate_flow(t, target).bind(
            |_active: bool, t: Trail|
                activation::wait_for_foreground_flow(t, target, ACTIVATION_TIMEOUT).bind(
                    |reached: bool, t: Trail|
                        if reached {
                            t.plain(Plain::Sleep { millis: ACTIVATION_PAUSE }).bind(
                                |_slept: Reply, t: Trail| t.give(Ok(())),
                            )
                        } else {
                            activate_any_flow(t, previous).bind(
                                |_back: (), t: Trail| t.give(Err(activation_fault(id))),
                            )
                        },
                ),
        )
    }
}

impl ForegroundGuard {
    /// Brings the window that `id` names to the front.
    pub open spec fn activate_flow(t: Trail, id: Seq<char>, settle: u64) -> Flow<
        Result<ForegroundGuard, Fault>,
    > {
        delivery::hwnd_flow(t, id).bind_ok(
            |target: usize, t: Trail|
                delivery::ensure_integrity_flow(t, id, target).bind_ok(
                    |_allowed: (), t: Trail|
                        t.plain(Plain::ForegroundWindow).bind(
                            |previous: Reply, t: Trail|
                                bring_forward_flow(
                                    t,
                                    id,
                                    target,
                                    previous.handle_value(),
                                ).bind_ok(
                                    |_forward: (), t: Trail|
                                        t.give(
                                            Ok(
                                                ForegroundGuard {
                                                    previous: previous.handle_value(),
                                                    target,
                                                    settle,
                                                },
                                            ),
                                        ),
                                ),
                        ),
                ),
        )
    }

    /// Brings the window that `id` names to the front. Where Windows refuses,
    /// the user's window is activated again and nothing else is sent.
    pub fn activate(tape: &mut Tape, id: &str, settle: u64) -> (guard: Option<
        CoreResult<ForegroundGuard>,
    >)
        ensures
            Flow::of(final(tape)@, tape::seen(guard)) == Self::activate_flow(
                old(tape)@,
                id@,
                settle,
            ),
    {
        let target = match hwnd(tape, id)? {
            Ok(target) => target,
            Err(failure) => {
                return Some(Err(failure));
            },
        };
        if let Err(failure) = ensure_integrity(tape, id, target)? {
            return Some(Err(failure));
        }
        let previous = tape.plain(Plain::ForegroundWindow)?.handle();
        if previous != target {
            activate(tape, target)?;
            if !wait_for_foreground(tape, target, ACTIVATION_TIMEOUT)? {
                if previous != 0 {
                    activate(tape, previous)?;
                }
                let mut message = "Windows refused to activate window ".to_owned();
                message.append(id);
                message.append(" (foreground lock); no input was sent");
                return Some(Err(DesktopError::input_failed(message)));
            }
            tape.plain(Plain::Sleep { millis: ACTIVATION_PAUSE })?;
        }
        Some(Ok(ForegroundGuard { previous, target, settle }))
    }

    /// Lets the target settle and hands the foreground back.
    pub open spec fn hand_back_flow(self, t: Trail) -> Flow<()> {
        t.plain(Plain::Sleep { millis: self.settle }).bind(
            |_slept: Reply, t: Trail|
                t.plain(Plain::IsWindow { window: self.previous }).bind(
                    |alive: Reply, t: Trail|
                        if alive.flag_value() && self.previous != self.target {
                            activation::activate_flow(t, self.previous).bind(
                                |_active: bool, t: Trail| t.give(()),
                            )
                        } else {
                            t.give(())
                        },
                ),
        )
    }

    /// Lets the target settle and hands the foreground back to the user's
    /// window where it still exists.
    pub fn hand_back(self, tape: &mut Tape) -> (done: Option<()>)
        ensures
            Flow::of(final(tape)@, done) == self.hand_back_flow(old(tape)@),
    {
        tape.plain(Plain::Sleep { millis: self.settle })?;
        let alive = tape.plain(Plain::IsWindow { window: self.previous })?.flag();
        if alive && self.previous != self.target {
            activate(tape, self.previous)?;
        }
        Some(())
    }
}

/// Runs `input` while the window that `id` names is the foreground window.
pub open spec fn in_front_flow(
    t: Trail,
    id: Seq<char>,
    settle: u64,
    input: spec_fn(Trail) -> Flow<Outcome>,
) -> Flow<Outcome> {
    ForegroundGuard::activate_flow(t, id, settle).bind_ok(
        |guard: ForegroundGuard, t: Trail|
            input(t).bind(
                |done: Outcome, t: Trail|
                    guard.hand_back_flow(t).bind(|_back: (), t: Trail| t.give(done)),
            ),
    )
}

/// Returns the user's pointer to where it was saved.
pub open spec fn restore_cursor_flow(t: Trail, saved: Option<Point>) -> Flow<()> {
    match saved {
        None => t.give(()),
        Some(point) => t.plain(Plain::SetCursorPos { point }).bind(
            |_set: Reply, t: Trail| t.give(()),
        ),
    }
}

/// Returns the user's pointer to where it was saved, once foreground pointer
/// input, which must travel the real cursor, has been consumed.
fn restore_cursor(tape: &mut Tape, saved: Option<Point>) -> (done: Option<()>)
    ensures
        Flow::of(final(tape)@, done) == restore_cursor_flow(old(tape)@, saved),
{
    if let Some(point) = saved {
        tape.plain(Plain::SetCursorPos { point })?;
    }
    Some(())
}

/// Injects events in one batch, where there are any.
pub open spec fn send_flow(t: Trail, events: Seq<InputEvent>) -> Flow<Outcome> {
    if events.len() == 0 {
        t.give(Ok(()))
    } else {
        t.ask(Request::SendInput { events }).bind(
            |sent: Reply, t: Trail|
                if sent.word_value() == events.len() {
                    t.give(Ok(()))
                } else {
                    t.give(
                        Err(
                            error::input_fault(
                                "Win32 SendInput inserted "@ + text::digits(
                                    sent.word_value() as nat,
                                ) + " of "@ + text::digits(events.len()) + " events"@,
                            ),
                        ),
                    )
                },
        )
    }
}

/// Injects events in one batch, where there are any.
pub fn send(tape: &mut Tape, events: Vec<InputEvent>) -> (outcome: Option<CoreResult<()>>)
    ensures
        Flow::of(final(tape)@, tape::seen(outcome)) == send_flow(old(tape)@, events@),
{
    let count = events.len();
    if count == 0 {
        return Some(Ok(()));
    }
    let sent = tape.ask(Call::SendInput { events })?.word();
    if sent as u64 == count as u64 {
        return Some(Ok(()));
    }
    let mut message = "Win32 SendInput inserted ".to_owned();
    message.append(decimal(sent as u64).as_str());
    message.append(" of ");
    message.append(decimal(count as u64).as_str());
    message.append(" events");
    Some(Err(DesktopError::input_failed(message)))
}

/// A pixel metric of the virtual desktop.
pub open spec fn metric_flow(t: Trail, metric: i32) -> Flow<i32> {
    t.plain(Plain::Metric { metric }).bind(|value: Reply, t: Trail| t.give(value.signed_value()))
}

/// A pixel metric of the virtual desktop.
fn pixels(tape: &mut Tape, metric: i32) -> (value: Option<i32>)
    ensures
        Flow::of(final(tape)@, value) == metric_flow(old(tape)@, metric),
{
    let value = tape.plain(Plain::Metric { metric })?.signed();
    Some(value)
}

/// Absolute move to a logical desktop coordinate across the virtual desktop.
pub open spec fn move_event_flow(t: Trail, at: Spot) -> Flow<Result<InputEvent, Fault>> {
    background::screen_point_flow(t, at).bind_ok(
        |point: Point, t: Trail|
            metric_flow(t, SM_XVIRTUALSCREEN).bind(
                |x: i32, t: Trail|
                    metric_flow(t, SM_YVIRTUALSCREEN).bind(
                        |y: i32, t: Trail|
                            metric_flow(t, SM_CXVIRTUALSCREEN).bind(
                                |width: i32, t: Trail|
                                    metric_flow(t, SM_CYVIRTUALSCREEN).bind(
                                        |height: i32, t: Trail|
                                            t.give(moved(point, x, y, width, height)),
                                    ),
                            ),
                    ),
            ),
    )
}

/// Absolute move to a point of a virtual desktop with this origin and size.
pub open spec fn moved(point: Point, x: i32, y: i32, width: i32, height: i32) -> Result<
    InputEvent,
    Fault,
> {
    if width <= 1 || height <= 1 {
        Err(error::input_fault("Win32 virtual desktop geometry is unavailable"@))
    } else {
        Ok(
            message::absolute_move(
                message::axis_position(point.x as int, x as int, width as int),
                message::axis_position(point.y as int, y as int, height as int),
            ),
        )
    }
}

/// Absolute move to a logical desktop coordinate across the virtual desktop.
pub fn move_event(tape: &mut Tape, at: Spot) -> (event: Option<CoreResult<InputEvent>>)
    ensures
        Flow::of(final(tape)@, tape::seen(event)) == move_event_flow(old(tape)@, at),
{
    let point = match screen_point(tape, at)? {
        Ok(point) => point,
        Err(failure) => {
            return Some(Err(failure));
        },
    };
    let x = pixels(tape, SM_XVIRTUALSCREEN)?;
    let y = pixels(tape, SM_YVIRTUALSCREEN)?;
    let width = pixels(tape, SM_CXVIRTUALSCREEN)?;
    let height = pixels(tape, SM_CYVIRTUALSCREEN)?;
    if width <= 1 || height <= 1 {
        return Some(
            Err(
                DesktopError::input_failed(
                    "Win32 virtual desktop geometry is unavailable".to_owned(),
                ),
            ),
        );
    }
    let nx = normalized(point.x, x, width);
    let ny = normalized(point.y, y, height);
    Some(Ok(move_input(nx, ny)))
}

/// What is injected while keys are held.
pub enum Injection<P> {
    Nothing,
    Clicks { at: InputEvent, button: MouseButton, count: u32 },
    Drag { start: InputEvent, path: P, button: MouseButton },
}

impl<'a> View for Injection<&'a [Spot]> {
    type V = Injection<Seq<Spot>>;

    open spec fn view(&self) -> Injection<Seq<Spot>> {
        match self {
            Injection::Nothing => Injection::Nothing,
            Injection::Clicks { at, button, count } => Injection::Clicks {
                at: *at,
                button: *button,
                count: *count,
            },
            Injection::Drag { start, path, button } => Injection::Drag {
                start: *start,
                path: path@,
                button: *button,
            },
        }
    }
}

/// Events of one click: a move, the press and the release.
pub open spec fn click_events(at: InputEvent, button: MouseButton) -> Seq<InputEvent> {
    let (down, up) = message::injected_button(button);
    seq![at, message::mouse_input(down, 0), message::mouse_input(up, 0)]
}

/// `left` more clicks, up to the first that fails.
pub open spec fn clicks_flow(t: Trail, at: InputEvent, button: MouseButton, left: nat) -> Flow<
    Outcome,
>
    decreases left,
{
    if left == 0 {
        t.give(Ok(()))
    } else {
        send_flow(t, click_events(at, button)).bind_ok(
            |_clicked: (), t: Trail| clicks_flow(t, at, button, (left - 1) as nat),
        )
    }
}

/// Moves to a logical desktop coordinate.
pub open spec fn send_move_flow(t: Trail, at: Spot) -> Flow<Outcome> {
    move_event_flow(t, at).bind_ok(|event: InputEvent, t: Trail| send_flow(t, seq![event]))
}

/// Moves to the points from index `i` on, up to the first move that fails.
pub open spec fn moves_flow(t: Trail, path: Seq<Spot>, i: nat) -> Flow<Outcome>
    decreases path.len() - i,
{
    if i >= path.len() {
        t.give(Ok(()))
    } else {
        t.plain(Plain::Sleep { millis: DRAG_STEP }).bind(
            |_slept: Reply, t: Trail|
                send_move_flow(t, path[i as int]).bind_ok(
                    |_moved: (), t: Trail| moves_flow(t, path, i + 1),
                ),
        )
    }
}

/// What is injected while keys are held. Once a drag has pressed its button, it
/// releases it whatever its moves come to.
pub open spec fn injection_flow(t: Trail, injection: Injection<Seq<Spot>>) -> Flow<Outcome> {
    match injection {
        Injection::Nothing => t.give(Ok(())),
        Injection::Clicks { at, button, count } => clicks_flow(t, at, button, count as nat),
        Injection::Drag { start, path, button } => {
            let (down, up) = message::injected_button(button);
            send_flow(t, seq![start, message::mouse_input(down, 0)]).bind_ok(
                |_pressed: (), t: Trail|
                    moves_flow(t, path, 1).bind(
                        |movement: Outcome, t: Trail|
                            send_flow(t, seq![message::mouse_input(up, 0)]).bind(
                                |released: Outcome, t: Trail|
                                    t.give(global::first_failure(movement, released)),
                            ),
                    ),
            )
        },
    }
}

/// Sends `presses`, runs `injection`, and always sends `releases`, also after a
/// partially inserted press batch.
pub open spec fn holding_flow(
    t: Trail,
    presses: Seq<InputEvent>,
    releases: Seq<InputEvent>,
    injection: Injection<Seq<Spot>>,
) -> Flow<Outcome> {
    send_flow(t, presses).bind(
        |pressed: Outcome, t: Trail|
            match pressed {
                Err(fault) => send_flow(t, releases).bind(
                    |_released: Outcome, t: Trail| t.give(Err(fault)),
                ),
                Ok(_) => injection_flow(t, injection).bind(
                    |done: Outcome, t: Trail|
                        send_flow(t, releases).bind(
                            |released: Outcome, t: Trail|
                                t.give(global::first_failure(done, released)),
                        ),
                ),
            },
    )
}

/// A batch of one event.
fn single(event: InputEvent) -> (events: Vec<InputEvent>)
    ensures
        events@ == seq![event],
{
    let mut events: Vec<InputEvent> = Vec::new();
    events.push(event);
    assert(events@ =~= seq![event]);
    events
}

/// A batch of one event and then another.
fn pair(first: InputEvent, second: InputEvent) -> (events: Vec<InputEvent>)
    ensures
        events@ == seq![first, second],
{
    let mut events = single(first);
    events.push(second);
    assert(events@ =~= seq![first, second]);
    events
}

/// Moves to a logical desktop coordinate.
fn send_move(tape: &mut Tape, at: Spot) -> (outcome: Option<CoreResult<()>>)
    ensures
        Flow::of(final(tape)@, tape::seen(outcome)) == send_move_flow(old(tape)@, at),
{
    match move_event(tape, at)? {
        Ok(event) => send(tape, single(event)),
        Err(failure) => Some(Err(failure)),
    }
}

/// Moves to the points from index 1 on, up to the first move that fails.
fn follow(tape: &mut Tape, path: &[Spot]) -> (outcome: Option<CoreResult<()>>)
    requires
        path@.len() > 0,
    ensures
        Flow::of(final(tape)@, tape::seen(outcome)) == moves_flow(old(tape)@, path@, 1),
{
    let mut i: usize = 1;
    while i < path.len()
        invariant
            1 <= i <= path@.len(),
            moves_flow(tape@, path@, i as nat) == moves_flow(old(tape)@, path@, 1),
        decreases path@.len() - i,
    {
        tape.plain(Plain::Sleep { millis: DRAG_STEP })?;
        if let Err(failure) = send_move(tape, path[i])? {
            return Some(Err(failure));
        }
        i = i + 1;
    }
    Some(Ok(()))
}

/// What is injected while keys are held.
fn inject(tape: &mut Tape, injection: &Injection<&[Spot]>) -> (outcome: Option<CoreResult<()>>)
    requires
        injection matches Injection::Drag { path, .. } ==> path@.len() > 0,
    ensures
        Flow::of(final(tape)@, tape::seen(outcome)) == injection_flow(old(tape)@, injection@),
{
    match injection {
        Injection::Nothing => Some(Ok(())),
        Injection::Clicks { at, button, count } => {
            let (down, up) = button_flags(*button);
            let mut left: u32 = *count;
            while left > 0
                invariant
                    (down, up) == message::injected_button(*button),
                    clicks_flow(tape@, *at, *button, left as nat) == injection_flow(
                        old(tape)@,
                        injection@,
                    ),
                decreases left,
            {
                let mut events = pair(*at, mouse_event(down, 0));
                events.push(mouse_event(up, 0));
                assert(events@ =~= click_events(*at, *button));
                if let Err(failure) = send(tape, events)? {
                    return Some(Err(failure));
                }
                left = left - 1;
            }
            Some(Ok(()))
        },
        Injection::Drag { start, path, button } => {
            let (down, up) = button_flags(*button);
            if let Err(failure) = send(tape, pair(*start, mouse_event(down, 0)))? {
                return Some(Err(failure));
            }
            let movement = follow(tape, path)?;
            let released = send(tape, single(mouse_event(up, 0)))?;
            if movement.is_ok() {
                Some(released)
            } else {
                Some(movement)
            }
        },
    }
}

/// Sends `presses`, runs `injection`, and always sends `releases`, also after a
/// partially inserted press batch.
pub fn holding(
    tape: &mut Tape,
    presses: Vec<InputEvent>,
    releases: Vec<InputEvent>,
    injection: &Injection<&[Spot]>,
) -> (outcome: Option<CoreResult<()>>)
    requires
        injection matches Injection::Drag { path, .. } ==> path@.len() > 0,
    ensures
        Flow::of(final(tape)@, tape::seen(outcome)) == holding_flow(
            old(tape)@,
            presses@,
            releases@,
            injection@,
        ),
{
    if let Err(failure) = send(tape, presses)? {
        send(tape, releases)?;
        return Some(Err(failure));
    }
    let done = inject(tape, injection)?;
    let released = send(tape, releases)?;
    if done.is_ok() {
        Some(released)
    } else {
        Some(done)
    }
}

/// Looks up the scan code of a virtual-key transition.
pub open spec fn key_event_flow(t: Trail, vk: u16, up: bool) -> Flow<InputEvent> {
    t.plain(Plain::MapVirtualKey { vk }).bind(
        |scan: Reply, t: Trail| t.give(message::key_input(vk, up, scan.word_value())),
    )
}

/// Virtual-key transition carrying the hardware scan code and extended flag.
pub fn key_event(tape: &mut Tape, vk: u16, up: bool) -> (event: Option<InputEvent>)
    ensures
        Flow::of(final(tape)@, event) == key_event_flow(old(tape)@, vk, up),
{
    let scan = tape.plain(Plain::MapVirtualKey { vk })?.word();
    Some(scanned_key(vk, up, scan))
}

/// `so_far` and then a transition of each virtual key from index `i` on.
pub open spec fn key_events_flow(
    t: Trail,
    vks: Seq<u16>,
    up: bool,
    i: nat,
    so_far: Seq<InputEvent>,
) -> Flow<Seq<InputEvent>>
    decreases vks.len() - i,
{
    if i >= vks.len() {
        t.give(so_far)
    } else {
        key_event_flow(t, vks[i as int], up).bind(
            |event: InputEvent, t: Trail| key_events_flow(t, vks, up, i + 1, so_far.push(event)),
        )
    }
}

/// A batch of events as contracts see it.
pub open spec fn batch(events: Option<Vec<InputEvent>>) -> Option<Seq<InputEvent>> {
    match events {
        Some(events) => Some(events@),
        None => None,
    }
}

/// A transition of each virtual key.
fn key_events(tape: &mut Tape, vks: &[u16], up: bool) -> (events: Option<Vec<InputEvent>>)
    ensures
        Flow::of(final(tape)@, batch(events)) == key_events_flow(
            old(tape)@,
            vks@,
            up,
            0,
            Seq::empty(),
        ),
{
    let mut events: Vec<InputEvent> = Vec::new();
    assert(events@ =~= Seq::empty());
    let mut i: usize = 0;
    while i < vks.len()
        invariant
            i <= vks@.len(),
            key_events_flow(tape@, vks@, up, i as nat, events@) == key_events_flow(
                old(tape)@,
                vks@,
                up,
                0,
                Seq::empty(),
            ),
        decreases vks@.len() - i,
    {
        let event = key_event(tape, vks[i], up)?;
        events.push(event);
        i = i + 1;
    }
    Some(events)
}

/// The same virtual keys, last first.
fn reversed(vks: &[u16]) -> (back: Vec<u16>)
    ensures
        back@ == vks@.reverse(),
{
    let mut back: Vec<u16> = Vec::new();
    let mut left: usize = vks.len();
    while left > 0
        invariant
            left <= vks@.len(),
            back@ == vks@.reverse().take(vks@.len() - left),
        decreases left,
    {
        proof {
            let done = vks@.len() - left;
            assert(vks@.reverse().take(done + 1) =~= vks@.reverse().take(done).push(
                vks@[left - 1],
            ));
        }
        back.push(vks[left - 1]);
        left = left - 1;
    }
    assert(back@ =~= vks@.reverse());
    back
}

/// The presses of the virtual keys in order, and their releases in reverse.
pub open spec fn strokes_flow(t: Trail, vks: Seq<u16>) -> Flow<(Seq<InputEvent>, Seq<InputEvent>)> {
    key_events_flow(t, vks, false, 0, Seq::empty()).bind(
        |presses: Seq<InputEvent>, t: Trail|
            key_events_flow(t, vks.reverse(), true, 0, Seq::empty()).bind(
                |releases: Seq<InputEvent>, t: Trail| t.give((presses, releases)),
            ),
    )
}

/// Two batches of events as contracts see them.
pub open spec fn batches(events: Option<(Vec<InputEvent>, Vec<InputEvent>)>) -> Option<
    (Seq<InputEvent>, Seq<InputEvent>),
> {
    match events {
        Some(events) => Some((events.0@, events.1@)),
        None => None,
    }
}

/// The presses of the virtual keys in order, and their releases in reverse.
fn strokes(tape: &mut Tape, vks: &[u16]) -> (events: Option<(Vec<InputEvent>, Vec<InputEvent>)>)
    ensures
        Flow::of(final(tape)@, batches(events)) == strokes_flow(old(tape)@, vks@),
{
    let presses = key_events(tape, vks, false)?;
    let releases = key_events(tape, reversed(vks).as_slice(), true)?;
    Some((presses, releases))
}

/// Virtual keys of the held modifiers, in the order they are pressed.
pub open spec fn modifier_codes(modifiers: Modifiers) -> Seq<u16> {
    keys::held_keys(modifiers).map_values(|key: KeyName| keys::fixed_key(key)->0)
}

/// Injects `injection` while the modifiers are held.
pub open spec fn with_modifiers_flow(
    t: Trail,
    modifiers: Modifiers,
    injection: Injection<Seq<Spot>>,
) -> Flow<Outcome> {
    strokes_flow(t, modifier_codes(modifiers)).bind(
        |events: (Seq<InputEvent>, Seq<InputEvent>), t: Trail|
            holding_flow(t, events.0, events.1, injection),
    )
}

/// Virtual keys of the held modifiers, in the order they are pressed.
fn codes_of(modifiers: Modifiers) -> (vks: Vec<u16>)
    ensures
        vks@ == modifier_codes(modifiers),
{
    let held = modifier_keys(modifiers);
    let mut vks: Vec<u16> = Vec::new();
    let mut i: usize = 0;
    while i < held.len()
        invariant
            i <= held.len(),
            held@ == keys::held_keys(modifiers),
            vks@ == modifier_codes(modifiers).take(i as int),
        decreases held.len() - i,
    {
        assert(held@[i as int].modifies());
        let vk = fixed_virtual_key(held[i]).unwrap();
        assert(modifier_codes(modifiers).take(i + 1) =~= modifier_codes(modifiers).take(
            i as int,
        ).push(vk));
        vks.push(vk);
        i = i + 1;
    }
    assert(vks@ =~= modifier_codes(modifiers));
    vks
}

/// Injects `injection` while the modifiers are held.
pub fn with_modifiers(
    tape: &mut Tape,
    modifiers: Modifiers,
    injection: &Injection<&[Spot]>,
) -> (outcome: Option<CoreResult<()>>)
    requires
        injection matches Injection::Drag { path, .. } ==> path@.len() > 0,
    ensures
        Flow::of(final(tape)@, tape::seen(outcome)) == with_modifiers_flow(
            old(tape)@,
            modifiers,
            injection@,
        ),
{
    let vks = codes_of(modifiers);
    let (presses, releases) = strokes(tape, vks.as_slice())?;
    holding(tape, presses, releases, injection)
}

/// Turns the wheel along one axis, where there is any travel.
pub open spec fn wheel_flow(t: Trail, flags: u32, travel: int) -> Flow<Outcome> {
    if travel == 0 {
        t.give(Ok(()))
    } else {
        send_flow(t, seq![message::mouse_input(flags, message::wheel_data(travel))])
    }
}

/// Turns the wheel along one axis, where there is any travel.
fn wheel(tape: &mut Tape, flags: u32, travel: i32) -> (outcome: Option<CoreResult<()>>)
    ensures
        Flow::of(final(tape)@, tape::seen(outcome)) == wheel_flow(
            old(tape)@,
            flags,
            travel as int,
        ),
{
    if travel == 0 {
        Some(Ok(()))
    } else {
        send(tape, single(mouse_event(flags, travel_data(travel))))
    }
}

/// Clicks in the foreground window.
pub open spec fn click_gesture_flow(
    t: Trail,
    at: Spot,
    button: MouseButton,
    count: u32,
    modifiers: Modifiers,
) -> Flow<Outcome> {
    move_event_flow(t, at).bind_ok(
        |at: InputEvent, t: Trail|
            with_modifiers_flow(t, modifiers, Injection::Clicks { at, button, count }),
    )
}

/// A drag in the foreground window.
pub open spec fn drag_gesture_flow(
    t: Trail,
    path: Seq<Spot>,
    button: MouseButton,
    modifiers: Modifiers,
) -> Flow<Outcome> {
    if path.len() == 0 {
        t.give(Err(error::input_fault("drag path is empty"@)))
    } else {
        move_event_flow(t, path[0]).bind_ok(
            |start: InputEvent, t: Trail|
                with_modifiers_flow(t, modifiers, Injection::Drag { start, path, button }),
        )
    }
}

/// Wheel travel over the foreground window.
pub open spec fn scroll_gesture_flow(t: Trail, at: Spot, horizontal: i32, vertical: i32) -> Flow<
    Outcome,
> {
    send_move_flow(t, at).bind_ok(
        |_moved: (), t: Trail|
            wheel_flow(
                t,
                MOUSEEVENTF_HWHEEL,
                message::wheel_travel(horizontal as int, WHEEL_DELTA as int),
            ).bind_ok(
                |_turned: (), t: Trail|
                    wheel_flow(
                        t,
                        MOUSEEVENTF_WHEEL,
                        message::wheel_travel(vertical as int, -WHEEL_DELTA),
                    ),
            ),
    )
}

/// A gesture in the foreground window.
pub open spec fn gesture_flow(t: Trail, gesture: Gesture) -> Flow<Outcome> {
    match gesture {
        Gesture::Click { at, button, count, modifiers } => click_gesture_flow(
            t,
            at,
            button,
            count,
            modifiers,
        ),
        Gesture::Move { at } => send_move_flow(t, at),
        Gesture::Drag { path, button, modifiers } => drag_gesture_flow(
            t,
            path,
            button,
            modifiers,
        ),
        Gesture::Scroll { at, horizontal, vertical } => scroll_gesture_flow(
            t,
            at,
            horizontal,
            vertical,
        ),
    }
}

/// A gesture injected into the window that `id` names. The cursor returns after
/// the foreground has been handed back, also where it was never taken.
pub open spec fn pointer_flow(t: Trail, id: Seq<char>, gesture: Gesture) -> Flow<Outcome> {
    t.plain(Plain::CursorPos).bind(
        |saved: Reply, t: Trail|
            in_front_flow(t, id, POINTER_SETTLE, |t: Trail| gesture_flow(t, gesture)).bind(
                |done: Outcome, t: Trail|
                    restore_cursor_flow(t, saved.point_value()).bind(
                        |_restored: (), t: Trail| t.give(done),
                    ),
            ),
    )
}

/// A gesture in the foreground window.
fn run_gesture(tape: &mut Tape, event: &PointerEvent) -> (outcome: Option<CoreResult<()>>)
    ensures
        Flow::of(final(tape)@, tape::seen(outcome)) == gesture_flow(old(tape)@, event@),
{
    match event {
        PointerEvent::Click { at, button, count, modifiers } => {
            match move_event(tape, *at)? {
                Ok(at) => with_modifiers(
                    tape,
                    *modifiers,
                    &Injection::Clicks { at, button: *button, count: *count },
                ),
                Err(failure) => Some(Err(failure)),
            }
        },
        PointerEvent::Move { at } => send_move(tape, *at),
        PointerEvent::Drag { path, button, modifiers } => {
            if path.len() == 0 {
                return Some(Err(DesktopError::input_failed("drag path is empty".to_owned())));
            }
            match move_event(tape, path[0])? {
                Ok(start) => with_modifiers(
                    tape,
                    *modifiers,
                    &Injection::Drag { start, path: path.as_slice(), button: *button },
                ),
                Err(failure) => Some(Err(failure)),
            }
        },
        PointerEvent::Scroll { at, horizontal, vertical } => {
            // Windows routes the wheel to the window under the cursor.
            if let Err(failure) = send_move(tape, *at)? {
                return Some(Err(failure));
            }
            let horizontal = saturating_travel(*horizontal, WHEEL_DELTA);
            let vertical = saturating_travel(*vertical, -WHEEL_DELTA);
            if let Err(failure) = wheel(tape, MOUSEEVENTF_HWHEEL, horizontal)? {
                return Some(Err(failure));
            }
            wheel(tape, MOUSEEVENTF_WHEEL, vertical)
        },
    }
}

/// A gesture while the window that `id` names is in front.
fn gesture_in_front(tape: &mut Tape, id: &str, event: &PointerEvent) -> (outcome: Option<
    CoreResult<()>,
>)
    ensures
        Flow::of(final(tape)@, tape::seen(outcome)) == in_front_flow(
            old(tape)@,
            id@,
            POINTER_SETTLE,
            |t: Trail| gesture_flow(t, event@),
        ),
{
    let guard = match ForegroundGuard::activate(tape, id, POINTER_SETTLE)? {
        Ok(guard) => guard,
        Err(failure) => {
            return Some(Err(failure));
        },
    };
    let done = run_gesture(tape, event)?;
    guard.hand_back(tape)?;
    Some(done)
}

/// Injects a gesture into the window that `id` names. The cursor returns after
/// the foreground has been handed back.
pub fn pointer(tape: &mut Tape, id: &str, event: &PointerEvent) -> (outcome: Option<CoreResult<()>>)
    ensures
        Flow::of(final(tape)@, tape::seen(outcome)) == pointer_flow(old(tape)@, id@, event@),
{
    let saved = tape.plain(Plain::CursorPos)?.point();
    let done = gesture_in_front(tape, id, event)?;
    restore_cursor(tape, saved)?;
    Some(done)
}

/// `so_far` and then the virtual keys of the keys from index `i` on, each after
/// the implicit modifiers that its layout position asks for.
pub open spec fn virtual_keys_flow(t: Trail, keys: Seq<KeyName>, i: nat, so_far: Seq<u16>) -> Flow<
    Result<Seq<u16>, Fault>,
>
    decreases keys.len() - i,
{
    if i >= keys.len() {
        t.give(Ok(so_far))
    } else {
        emitter::virtual_key_flow(t, keys[i as int]).bind_ok(
            |vk: (u16, u8), t: Trail|
                virtual_keys_flow(
                    t,
                    keys,
                    i + 1,
                    so_far + emitter::implied_keys(vk.1) + seq![vk.0],
                ),
        )
    }
}

/// Virtual keys as contracts see them.
pub open spec fn codes(vks: Option<CoreResult<Vec<u16>>>) -> Option<Result<Seq<u16>, Fault>> {
    match vks {
        Some(Ok(vks)) => Some(Ok(vks@)),
        Some(Err(error)) => Some(Err(error@)),
        None => None,
    }
}

/// The virtual keys of the keys, each after the implicit modifiers that its
/// layout position asks for.
pub fn virtual_keys(tape: &mut Tape, keys: &[KeyName]) -> (vks: Option<CoreResult<Vec<u16>>>)
    ensures
        Flow::of(final(tape)@, codes(vks)) == virtual_keys_flow(
            old(tape)@,
            keys@,
            0,
            Seq::empty(),
        ),
{
    let mut vks: Vec<u16> = Vec::new();
    assert(vks@ =~= Seq::empty());
    let mut i: usize = 0;
    while i < keys.len()
        invariant
            i <= keys@.len(),
            virtual_keys_flow(tape@, keys@, i as nat, vks@) == virtual_keys_flow(
                old(tape)@,
                keys@,
                0,
                Seq::empty(),
            ),
        decreases keys@.len() - i,
    {
        let ghost before = vks@;
        let (vk, implicit) = match virtual_key(tape, keys[i])? {
            Ok(found) => found,
            Err(failure) => {
                return Some(Err(failure));
            },
        };
        let mut modifiers = implicit_modifiers(implicit);
        vks.append(&mut modifiers);
        vks.push(vk);
        assert(vks@ =~= before + emitter::implied_keys(implicit) + seq![vk]);
        i = i + 1;
    }
    Some(Ok(vks))
}

/// Keys injected into the window that `id` names: down in order, and up in
/// reverse. The keys are looked up before the window is touched.
pub open spec fn key_chord_flow(t: Trail, id: Seq<char>, keys: Seq<KeyName>) -> Flow<Outcome> {
    virtual_keys_flow(t, keys, 0, Seq::empty()).bind_ok(
        |vks: Seq<u16>, t: Trail|
            strokes_flow(t, vks).bind(
                |events: (Seq<InputEvent>, Seq<InputEvent>), t: Trail|
                    in_front_flow(
                        t,
                        id,
                        KEY_SETTLE,
                        |t: Trail| holding_flow(t, events.0, events.1, Injection::Nothing),
                    ),
            ),
    )
}

/// Injects keys into the window that `id` names: down in order, and up in
/// reverse.
pub fn key_chord(tape: &mut Tape, id: &str, keys: &[KeyName]) -> (outcome: Option<CoreResult<()>>)
    ensures
        Flow::of(final(tape)@, tape::seen(outcome)) == key_chord_flow(old(tape)@, id@, keys@),
{
    let vks = match virtual_keys(tape, keys)? {
        Ok(vks) => vks,
        Err(failure) => {
            return Some(Err(failure));
        },
    };
    let (presses, releases) = strokes(tape, vks.as_slice())?;
    let guard = match ForegroundGuard::activate(tape, id, KEY_SETTLE)? {
        Ok(guard) => guard,
        Err(failure) => {
            return Some(Err(failure));
        },
    };
    let done = holding(tape, presses, releases, &Injection::Nothing)?;
    guard.hand_back(tape)?;
    Some(done)
}

/// A press and a release for each UTF-16 code unit.
pub open spec fn unit_events(units: Seq<u16>) -> Seq<InputEvent> {
    Seq::new(2 * units.len(), |i: int| message::unicode_input(units[i / 2], i % 2 == 1))
}

/// `so_far` and then the events that type the units from index `i` on.
pub open spec fn text_events_flow(
    t: Trail,
    units: Seq<TextUnit>,
    i: nat,
    so_far: Seq<InputEvent>,
) -> Flow<Seq<InputEvent>>
    decreases units.len() - i,
{
    if i >= units.len() {
        t.give(so_far)
    } else {
        match units[i as int] {
            TextUnit::Enter => key_event_flow(t, VK_RETURN, false).bind(
                |press: InputEvent, t: Trail|
                    key_event_flow(t, VK_RETURN, true).bind(
                        |release: InputEvent, t: Trail|
                            text_events_flow(t, units, i + 1, so_far.push(press).push(release)),
                    ),
            ),
            TextUnit::Char(c) => text_events_flow(
                t,
                units,
                i + 1,
                so_far + unit_events(text::utf16(c)),
            ),
        }
    }
}

/// A press and a release for each UTF-16 code unit of a character.
fn character_events(c: char) -> (events: Vec<InputEvent>)
    ensures
        events@ == unit_events(text::utf16(c)),
{
    let units = encode_utf16(c);
    let mut events: Vec<InputEvent> = Vec::new();
    let mut i: usize = 0;
    while i < units.len()
        invariant
            i <= units.len(),
            units@ == text::utf16(c),
            events@ == unit_events(units@).take(2 * i),
        decreases units.len() - i,
    {
        assert(unit_events(units@).take(2 * (i + 1)) =~= unit_events(units@).take(2 * i).push(
            message::unicode_input(units@[i as int], false),
        ).push(message::unicode_input(units@[i as int], true)));
        events.push(unicode_event(units[i], false));
        events.push(unicode_event(units[i], true));
        i = i + 1;
    }
    assert(events@ =~= unit_events(units@));
    events
}

/// The events that type the units.
fn text_events(tape: &mut Tape, units: &[TextUnit]) -> (events: Option<Vec<InputEvent>>)
    ensures
        Flow::of(final(tape)@, batch(events)) == text_events_flow(
            old(tape)@,
            units@,
            0,
            Seq::empty(),
        ),
{
    let mut events: Vec<InputEvent> = Vec::new();
    assert(events@ =~= Seq::empty());
    let mut i: usize = 0;
    while i < units.len()
        invariant
            i <= units@.len(),
            text_events_flow(tape@, units@, i as nat, events@) == text_events_flow(
                old(tape)@,
                units@,
                0,
                Seq::empty(),
            ),
        decreases units@.len() - i,
    {
        match units[i] {
            TextUnit::Enter => {
                let press = key_event(tape, VK_RETURN, false)?;
                let release = key_event(tape, VK_RETURN, true)?;
                events.push(press);
                events.push(release);
            },
            TextUnit::Char(c) => {
                let mut typed = character_events(c);
                events.append(&mut typed);
            },
        }
        i = i + 1;
    }
    Some(events)
}

/// The events that type a text, unit by unit.
pub open spec fn typed_events_flow(t: Trail, text: Seq<char>) -> Flow<Seq<InputEvent>> {
    t.ask(Request::TextUnits { text }).bind(
        |units: Reply, t: Trail| text_events_flow(t, units.text_units_value(), 0, Seq::empty()),
    )
}

/// Text injected into the window that `id` names, in one batch.
pub open spec fn type_text_flow(t: Trail, id: Seq<char>, text: Seq<char>) -> Flow<Outcome> {
    typed_events_flow(t, text).bind(
        |events: Seq<InputEvent>, t: Trail|
            delivery::hwnd_flow(t, id).bind_ok(
                |root: usize, t: Trail|
                    delivery::ensure_text_supported_flow(t, id, root).bind_ok(
                        |_supported: (), t: Trail|
                            if events.len() == 0 {
                                t.give(Ok(()))
                            } else {
                                in_front_flow(
                                    t,
                                    id,
                                    KEY_SETTLE,
                                    |t: Trail| send_flow(t, events),
                                )
                            },
                    ),
            ),
    )
}

/// Types text into the window that `id` names, in one batch.
pub fn type_text(tape: &mut Tape, id: &str, text: &str) -> (outcome: Option<CoreResult<()>>)
    ensures
        Flow::of(final(tape)@, tape::seen(outcome)) == type_text_flow(old(tape)@, id@, text@),
{
    let units = tape.ask(Call::TextUnits { text: text.to_owned() })?.text_units();
    let events = text_events(tape, units.as_slice())?;
    let root = match hwnd(tape, id)? {
        Ok(root) => root,
        Err(failure) => {
            return Some(Err(failure));
        },
    };
    if let Err(failure) = ensure_text_supported(tape, id, root)? {
        return Some(Err(failure));
    }
    if events.len() == 0 {
        return Some(Ok(()));
    }
    let guard = match ForegroundGuard::activate(tape, id, KEY_SETTLE)? {
        Ok(guard) => guard,
        Err(failure) => {
            return Some(Err(failure));
        },
    };
    let done = send(tape, events)?;
    guard.hand_back(tape)?;
    Some(done)
}

/// Releases are always sent, as the last step, also where the presses or what
/// came between failed. The first failure is the one reported.
pub proof fn law_releases_are_always_sent(
    t: Trail,
    presses: Seq<InputEvent>,
    releases: Seq<InputEvent>,
    injection: Injection<Seq<Spot>>,
)
    requires
        holding_flow(t, presses, releases, injection).value is Some,
        releases.len() > 0,
    ensures
        holding_flow(t, presses, releases, injection).trail.calls.last() == (Request::SendInput {
            events: releases,
        }),
        send_flow(t, presses).value matches Some(Err(fault)) ==> holding_flow(
            t,
            presses,
            releases,
            injection,
        ).value == Some(Err::<(), Fault>(fault)),
        send_flow(t, presses).value == Some(Ok::<(), Fault>(())) ==> (injection_flow(
            send_flow(t, presses).trail,
            injection,
        ).value matches Some(Err(fault)) ==> holding_flow(
            t,
            presses,
            releases,
            injection,
        ).value == Some(Err::<(), Fault>(fault))),
{
}

proof fn lemma_key_events(t: Trail, vks: Seq<u16>, up: bool, i: nat, so_far: Seq<InputEvent>)
    requires
        i <= vks.len(),
        key_events_flow(t, vks, up, i, so_far).value is Some,
    ensures
        ({
            let end = key_events_flow(t, vks, up, i, so_far);
            &&& end.trail.replies == t.replies
            &&& end.trail.calls.len() == t.calls.len() + vks.len() - i
            &&& (end.value->0).len() == so_far.len() + vks.len() - i
            &&& forall|j: int|
                0 <= j < so_far.len() ==> (end.value->0)[j] == #[trigger] so_far[j]
            &&& forall|j: int|
                i <= j < vks.len() ==> (end.value->0)[so_far.len() + j - i] == message::key_input(
                    #[trigger] vks[j],
                    up,
                    t.upcoming(j - i).word_value(),
                )
        }),
    decreases vks.len() - i,
{
    if i < vks.len() {
        let event = key_event_flow(t, vks[i as int], up);
        let more = so_far.push(event.value->0);
        lemma_key_events(event.trail, vks, up, i + 1, more);
        let end = key_events_flow(t, vks, up, i, so_far);
        assert forall|j: int| 0 <= j < so_far.len() implies (end.value->0)[j]
            == #[trigger] so_far[j] by {
            assert(more[j] == so_far[j]);
        }
        assert forall|j: int| i <= j < vks.len() implies (end.value->0)[so_far.len() + j - i]
            == message::key_input(#[trigger] vks[j], up, t.upcoming(j - i).word_value()) by {
            if j == i {
                assert((end.value->0)[so_far.len() as int] == more[so_far.len() as int]);
                assert(t.upcoming(0) == t.replies[t.calls.len() as int]);
            } else {
                assert(event.trail.upcoming(j - (i + 1)) == t.upcoming(j - i));
            }
        }
    }
}

/// Keys are pressed in order and released in reverse, each with the scan code
/// that was looked up for it.
pub proof fn law_releases_mirror_presses(t: Trail, vks: Seq<u16>)
    requires
        strokes_flow(t, vks).value is Some,
    ensures
        ({
            let (presses, releases) = strokes_flow(t, vks).value->0;
            &&& presses.len() == vks.len()
            &&& releases.len() == vks.len()
            &&& forall|j: int|
                0 <= j < vks.len() ==> #[trigger] presses[j] == message::key_input(
                    vks[j],
                    false,
                    t.upcoming(j).word_value(),
                )
            &&& forall|j: int|
                0 <= j < vks.len() ==> #[trigger] releases[j] == message::key_input(
                    vks[vks.len() - 1 - j],
                    true,
                    t.upcoming(vks.len() + j).word_value(),
                )
        }),
{
    let pressed = key_events_flow(t, vks, false, 0, Seq::empty());
    lemma_key_events(t, vks, false, 0, Seq::empty());
    lemma_key_events(pressed.trail, vks.reverse(), true, 0, Seq::empty());
    let (presses, releases) = strokes_flow(t, vks).value->0;
    assert forall|j: int| 0 <= j < vks.len() implies #[trigger] presses[j] == message::key_input(
        vks[j],
        false,
        t.upcoming(j).word_value(),
    ) by {
        assert(vks[j] == vks[j]);
    }
    assert forall|j: int| 0 <= j < vks.len() implies #[trigger] releases[j] == message::key_input(
        vks[vks.len() - 1 - j],
        true,
        t.upcoming(vks.len() + j).word_value(),
    ) by {
        assert(vks.reverse()[j] == vks[vks.len() - 1 - j]);
        assert(pressed.trail.upcoming(j) == t.upcoming(vks.len() + j));
    }
}

/// Once a drag has pressed its button, the last thing it does is to release it,
/// whatever its moves come to.
pub proof fn law_drag_releases_its_button(
    t: Trail,
    start: InputEvent,
    path: Seq<Spot>,
    button: MouseButton,
)
    requires
        injection_flow(t, Injection::Drag { start, path, button }).value is Some,
        t.upcoming(0).word_value() == 2,
    ensures
        injection_flow(t, Injection::Drag { start, path, button }).trail.calls.last() == (
        Request::SendInput {
            events: seq![message::mouse_input(message::injected_button(button).1, 0)],
        }),
{
}

/// The user's cursor goes back to where it was, as the last step, whatever the
/// gesture comes to.
pub proof fn law_cursor_returns_last(t: Trail, id: Seq<char>, gesture: Gesture, point: Point)
    requires
        pointer_flow(t, id, gesture).value is Some,
        t.upcoming(0).point_value() == Some(point),
    ensures
        pointer_flow(t, id, gesture).trail.calls.last() == Request::Plain(
            Plain::SetCursorPos { point },
        ),
{
}

/// Input is only injected once the target, or a window it owns, was seen in
/// front: where it was not there from the start, that is the last answer before
/// the pause that ends the activation.
pub proof fn law_input_waits_for_the_target(
    t: Trail,
    id: Seq<char>,
    target: usize,
    previous: usize,
)
    requires
        bring_forward_flow(t, id, target, previous).value == Some(Ok::<(), Fault>(())),
        previous != target,
    ensures
        ({
            let end = bring_forward_flow(t, id, target, previous).trail;
            &&& end.calls.last() == Request::Plain(Plain::Sleep { millis: ACTIVATION_PAUSE })
            &&& end.replies[end.calls.len() - 2].handle_value() == target
        }),
{
    let active = activation::activate_flow(t, target);
    activation::law_wait_is_observed(active.trail, target, ACTIVATION_TIMEOUT);
}

/// The user's window is activated again after the input, where it still exists
/// and was not the target itself.
pub proof fn law_foreground_is_handed_back(guard: ForegroundGuard, t: Trail)
    requires
        guard.hand_back_flow(t).value is Some,
        t.upcoming(1).flag_value(),
        guard.previous != guard.target,
    ensures
        guard.hand_back_flow(t).trail == activation::activate_flow(
            t.after(Request::Plain(Plain::Sleep { millis: guard.settle })).after(
                Request::Plain(Plain::IsWindow { window: guard.previous }),
            ),
            guard.previous,
        ).trail,
{
}

/// Whether the units type a text without line breaks.
pub open spec fn spells(units: Seq<TextUnit>, text: Seq<char>) -> bool {
    &&& units.len() == text.len()
    &&& forall|i: int| 0 <= i < units.len() ==> #[trigger] units[i] == TextUnit::Char(text[i])
}

proof fn lemma_unit_events_join(a: Seq<u16>, b: Seq<u16>)
    ensures
        unit_events(a) + unit_events(b) == unit_events(a + b),
{
    assert forall|i: int| 0 <= i < 2 * (a.len() + b.len()) implies (unit_events(a) + unit_events(
        b,
    ))[i] == unit_events(a + b)[i] by {
        if i < 2 * a.len() {
            assert((a + b)[i / 2] == a[i / 2]);
        } else {
            assert((i - 2 * a.len()) / 2 == i / 2 - a.len());
            assert((i - 2 * a.len()) % 2 == i % 2);
            assert((a + b)[i / 2] == b[i / 2 - a.len()]);
        }
    }
    assert(unit_events(a) + unit_events(b) =~= unit_events(a + b));
}

proof fn lemma_plain_text(
    t: Trail,
    units: Seq<TextUnit>,
    text: Seq<char>,
    i: nat,
    so_far: Seq<InputEvent>,
)
    requires
        i <= text.len(),
        spells(units, text),
    ensures
        text_events_flow(t, units, i, so_far) == t.give(
            so_far + unit_events(text::encoded(text.skip(i as int))),
        ),
    decreases text.len() - i,
{
    let rest = text.skip(i as int);
    if i < text.len() {
        assert(units[i as int] == TextUnit::Char(text[i as int]));
        let typed = unit_events(text::utf16(text[i as int]));
        lemma_plain_text(t, units, text, i + 1, so_far + typed);
        assert(rest[0] == text[i as int]);
        assert(rest.skip(1) =~= text.skip(i as int + 1));
        lemma_unit_events_join(text::utf16(rest[0]), text::encoded(rest.skip(1)));
        assert((so_far + typed) + unit_events(text::encoded(rest.skip(1))) =~= so_far + (typed
            + unit_events(text::encoded(rest.skip(1)))));
    } else {
        assert(text::encoded(rest) =~= Seq::empty());
        assert(so_far + unit_events(text::encoded(rest)) =~= so_far);
    }
}

/// Text without line breaks is injected as its UTF-16 code units in order, a
/// press and a release each, without any other lookup than that of its units.
pub proof fn law_plain_text_is_its_code_units(t: Trail, text: Seq<char>)
    requires
        typed_events_flow(t, text).value is Some,
        spells(t.upcoming(0).text_units_value(), text),
    ensures
        typed_events_flow(t, text) == t.after(Request::TextUnits { text }).give(
            unit_events(text::encoded(text)),
        ),
{
    let units = t.upcoming(0).text_units_value();
    lemma_plain_text(t.after(Request::TextUnits { text }), units, text, 0, Seq::empty());
    assert(text.skip(0) =~= text);
    assert(Seq::empty() + unit_events(text::encoded(text)) =~= unit_events(text::encoded(text)));
}

/// Modifiers that are held for injected input are released as the last step,
/// whatever the input came to: one event for each, the last first.
pub proof fn law_modifiers_are_released(
    t: Trail,
    modifiers: Modifiers,
    injection: Injection<Seq<Spot>>,
)
    requires
        with_modifiers_flow(t, modifiers, injection).value is Some,
        !modifiers.none(),
    ensures
        ({
            let vks = modifier_codes(modifiers);
            let end = with_modifiers_flow(t, modifiers, injection).trail;
            &&& vks.len() == keys::held_keys(modifiers).len()
            &&& end.calls.last() == (Request::SendInput {
                events: Seq::new(
                    vks.len(),
                    |j: int|
                        message::key_input(
                            vks[vks.len() - 1 - j],
                            true,
                            t.upcoming(vks.len() + j).word_value(),
                        ),
                ),
            })
        }),
{
    let vks = modifier_codes(modifiers);
    let struck = strokes_flow(t, vks);
    let (presses, releases) = struck.value->0;
    keys::law_held_keys_are_the_modifiers(modifiers, KeyName::Ctrl);
    law_releases_mirror_presses(t, vks);
    law_releases_are_always_sent(struck.trail, presses, releases, injection);
    assert(releases =~= Seq::new(
        vks.len(),
        |j: int|
            message::key_input(
                vks[vks.len() - 1 - j],
                true,
                t.upcoming(vks.len() + j).word_value(),
            ),
    ));
}

} // verus!
