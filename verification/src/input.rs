//! Entry points: input for the desktop or for one window.

use vstd::prelude::*;
use vstd::string::*;

use crate::activation::{activate, wait_for_foreground};
use crate::delivery::hwnd;
use crate::error::{CoreResult, DesktopError, Fault, Outcome};
use crate::global::{global_key_chord, global_pointer, global_text};
use crate::keys::KeyName;
use crate::request::{DeliveryMode, Gesture, PointerEvent, Target};
use crate::tape::{Flow, Plain, Reply, Tape, Trail};
use crate::{activation, background, delivery, error, foreground, global, tape, text};

verus! {

/// Longest wait in milliseconds for Windows to confirm a raised window as
/// foreground.
pub const RAISE_TIMEOUT: u64 = 500;

/// How a request reaches its target.
pub enum Route {
    /// Through the user's own pointer and keyboard focus.
    Global,
    /// Posted to the window with this identifier.
    Posted(Seq<char>),
    /// Injected while the window with this identifier is in front.
    Injected(Seq<char>),
}

/// How a request reaches its target: the mode only matters for a window.
pub open spec fn route(target: Target, mode: DeliveryMode) -> Route {
    match target {
        Target::Desktop => Route::Global,
        Target::Window(id) => match mode {
            DeliveryMode::Background => Route::Posted(id@),
            DeliveryMode::Foreground => Route::Injected(id@),
        },
    }
}

/// A gesture, along its route.
pub open spec fn pointer_flow(t: Trail, route: Route, gesture: Gesture) -> Flow<Outcome> {
    match route {
        Route::Global => global::global_pointer_flow(t, gesture),
        Route::Posted(id) => background::pointer_flow(t, id, gesture),
        Route::Injected(id) => foreground::pointer_flow(t, id, gesture),
    }
}

/// Makes a pointer gesture on a target.
pub fn pointer(tape: &mut Tape, target: &Target, event: &PointerEvent, mode: DeliveryMode) -> (outcome:
    Option<CoreResult<()>>)
    ensures
        Flow::of(final(tape)@, tape::seen(outcome)) == pointer_flow(
            old(tape)@,
            route(*target, mode),
            event@,
        ),
{
    match target {
        Target::Desktop => global_pointer(tape, event),
        Target::Window(id) => match mode {
            DeliveryMode::Background => background::pointer(tape, id.as_str(), event),
            DeliveryMode::Foreground => foreground::pointer(tape, id.as_str(), event),
        },
    }
}

/// Text, along its route. A window is given its units, one by one.
pub open spec fn type_text_flow(t: Trail, route: Route, text: Seq<char>) -> Flow<Outcome> {
    match route {
        Route::Global => global::global_text_flow(t, text),
        Route::Posted(id) => background::type_text_flow(t, id, text),
        Route::Injected(id) => foreground::type_text_flow(t, id, text),
    }
}

/// Types text into a target: the desktop is given the text as it is, and a
/// window its units.
pub fn type_text(tape: &mut Tape, target: &Target, text: &str, mode: DeliveryMode) -> (outcome:
    Option<CoreResult<()>>)
    ensures
        Flow::of(final(tape)@, tape::seen(outcome)) == type_text_flow(
            old(tape)@,
            route(*target, mode),
            text@,
        ),
{
    match target {
        Target::Desktop => global_text(tape, text),
        Target::Window(id) => match mode {
            DeliveryMode::Background => background::type_text(tape, id.as_str(), text),
            DeliveryMode::Foreground => foreground::type_text(tape, id.as_str(), text),
        },
    }
}

/// A chord of at least one key, along its route.
pub open spec fn key_chord_flow(t: Trail, route: Route, keys: Seq<KeyName>) -> Flow<Outcome> {
    if keys.len() == 0 {
        t.give(Err(error::input_fault("key chord is empty"@)))
    } else {
        match route {
            Route::Global => global::global_key_chord_flow(t, keys),
            Route::Posted(id) => background::key_chord_flow(t, id, keys),
            Route::Injected(id) => foreground::key_chord_flow(t, id, keys),
        }
    }
}

/// Presses a chord of at least one key on a target.
pub fn key_chord(tape: &mut Tape, target: &Target, keys: &[KeyName], mode: DeliveryMode) -> (outcome:
    Option<CoreResult<()>>)
    ensures
        Flow::of(final(tape)@, tape::seen(outcome)) == key_chord_flow(
            old(tape)@,
            route(*target, mode),
            keys@,
        ),
{
    if keys.len() == 0 {
        return Some(Err(DesktopError::input_failed("key chord is empty".to_owned())));
    }
    match target {
        Target::Desktop => global_key_chord(tape, keys),
        Target::Window(id) => match mode {
            DeliveryMode::Background => background::key_chord(tape, id.as_str(), keys),
            DeliveryMode::Foreground => foreground::key_chord(tape, id.as_str(), keys),
        },
    }
}

/// Restores `window` where it is minimized.
pub open spec fn restore_flow(t: Trail, window: usize) -> Flow<()> {
    t.plain(Plain::IsIconic { window }).bind(
        |iconic: Reply, t: Trail|
            if iconic.flag_value() {
                t.plain(Plain::Restore { window }).bind(|_restored: Reply, t: Trail| t.give(()))
            } else {
                t.give(())
            },
    )
}

/// The error for a window that Windows did not let come to the front.
pub open spec fn raise_fault(id: Seq<char>) -> Fault {
    error::input_fault("Windows refused to raise window "@ + id + " (foreground lock)"@)
}

/// Restores a minimized window and makes it the foreground window.
pub open spec fn raise_window_flow(t: Trail, id: Seq<char>) -> Flow<Outcome> {
    delivery::hwnd_flow(t, id).bind_ok(
        |window: usize, t: Trail|
            restore_flow(t, window).bind(
                |_restored: (), t: Trail|
                    activation::activate_flow(t, window).bind(
                        |_active: bool, t: Trail|
                            activation::wait_for_foreground_flow(t, window, RAISE_TIMEOUT).bind(
                                |reached: bool, t: Trail|
                                    if reached {
                                        t.give(Ok(()))
                                    } else {
                                        t.give(Err(raise_fault(id)))
                                    },
                            ),
                    ),
            ),
    )
}

/// Restores a minimized window and makes it the foreground window.
pub fn raise_window(tape: &mut Tape, id: &str) -> (outcome: Option<CoreResult<()>>)
    ensures
        Flow::of(final(tape)@, tape::seen(outcome)) == raise_window_flow(old(tape)@, id@),
{
    let window = match hwnd(tape, id)? {
        Ok(window) => window,
        Err(failure) => {
            return Some(Err(failure));
        },
    };
    if tape.plain(Plain::IsIconic { window })?.flag() {
        tape.plain(Plain::Restore { window })?;
    }
    activate(tape, window)?;
    if wait_for_foreground(tape, window, RAISE_TIMEOUT)? {
        return Some(Ok(()));
    }
    let mut message = "Windows refused to raise window ".to_owned();
    message.append(id);
    message.append(" (foreground lock)");
    Some(Err(DesktopError::input_failed(message)))
}

/// The delivery mode does not matter for the desktop.
pub proof fn law_desktop_has_one_route(mode: DeliveryMode)
    ensures
        route(Target::Desktop, mode) is Global,
{
}

/// An empty chord is refused without any call, whatever its route.
pub proof fn law_empty_chord_is_refused(t: Trail, route: Route)
    ensures
        key_chord_flow(t, route, Seq::empty()) == t.give(
            Err::<(), Fault>(error::input_fault("key chord is empty"@)),
        ),
{
}

/// A window counts as raised only once it, or a window it owns, was seen in
/// front.
pub proof fn law_raised_window_was_seen(t: Trail, id: Seq<char>)
    requires
        raise_window_flow(t, id).value == Some(Ok::<(), Fault>(())),
    ensures
        text::word_of(id) == Some(
            activation::last_reply(raise_window_flow(t, id).trail).handle_value(),
        ),
{
    let found = delivery::hwnd_flow(t, id);
    let window = (found.value->0)->Ok_0;
    let restored = restore_flow(found.trail, window);
    let active = activation::activate_flow(restored.trail, window);
    activation::law_wait_is_observed(active.trail, window, RAISE_TIMEOUT);
}

} // verus!
