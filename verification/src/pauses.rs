//! How input is paced: where a procedure sleeps, and for how long.

use vstd::prelude::*;

use crate::background::Posting;
use crate::deeds::{lemma_success, picked, picked_ask, repeated};
use crate::error::Fault;
use crate::foreground::{self, Injection};
use crate::keys::{KeyName, MouseButton};
use crate::request::{InputEvent, Spot, TextUnit};
use crate::tape::{Plain, Reply, Request, Trail};
use crate::win32::{WM_CHAR, WM_MOUSEMOVE};
use crate::{background, effects, emitter, global, message, text};

verus! {

/// A sleep of this many milliseconds.
pub open spec fn pause(millis: u64) -> Request {
    Request::Plain(Plain::Sleep { millis })
}

/// Whether a call is a sleep.
pub open spec fn pausing() -> spec_fn(Request, Reply) -> bool {
    |call: Request, answer: Reply| call matches Request::Plain(Plain::Sleep { .. })
}

/// Whether a call posts a message to `window`.
pub open spec fn posts_to(call: Request, window: usize) -> bool {
    call matches Request::Plain(Plain::Post { window: to, .. }) && to == window
}

/// A posted click holds its button for 35 milliseconds, and every click but the
/// first waits for 80 milliseconds before it begins.
pub proof fn law_posted_click_is_held(
    t: Trail,
    target: usize,
    point: isize,
    button: MouseButton,
    flags: usize,
    wants_double: bool,
    index: u32,
)
    requires
        background::click_flow(
            t,
            target,
            point,
            button,
            flags,
            wants_double,
            index,
        ).value == Some(Ok::<(), Fault>(())),
    ensures
        ({
            let end = background::click_flow(
                t,
                target,
                point,
                button,
                flags,
                wants_double,
                index,
            ).trail;
            let n = end.calls.len() as int;
            &&& posts_to(end.calls[n - 1], target)
            &&& end.calls[n - 2] == pause(35)
            &&& posts_to(end.calls[n - 3], target)
            &&& posts_to(end.calls[n - 4], target)
            &&& index == 0 ==> n == t.calls.len() + 5
            &&& index > 0 ==> n == t.calls.len() + 6 && end.calls[t.calls.len() as int] == pause(80)
        }),
{
}

proof fn lemma_drag_moves(
    t: Trail,
    target: usize,
    path: Seq<Spot>,
    i: nat,
    flags: usize,
    end: isize,
)
    requires
        i <= path.len(),
        background::drag_moves_flow(t, target, path, i, flags, end).value matches Some(Ok(_)),
    ensures
        picked(
            background::drag_moves_flow(t, target, path, i, flags, end).trail,
            pausing(),
        ) == picked(t, pausing()) + repeated(pause(16), (path.len() - i) as nat),
    decreases path.len() - i,
{
    broadcast use picked_ask;

    if i < path.len() {
        let mapped = background::client_point_flow(t, target, path[i as int]);
        let location = (mapped.value->0)->Ok_0;
        let moved = emitter::post_flow(
            mapped.trail,
            target,
            WM_MOUSEMOVE,
            flags,
            location,
        );
        let slept = moved.trail.plain(Plain::Sleep { millis: background::DRAG_STEP });
        lemma_drag_moves(slept.trail, target, path, i + 1, flags, location);
        assert(picked(t, pausing()).push(pause(16)) + repeated(
            pause(16),
            (path.len() - i - 1) as nat,
        ) =~= picked(t, pausing()) + repeated(pause(16), (path.len() - i) as nat));
    } else {
        assert(picked(t, pausing()) + repeated(pause(16), 0) =~= picked(t, pausing()));
    }
}

/// A posted drag holds its button for 35 milliseconds before it moves, and for
/// 16 milliseconds after every move.
pub proof fn law_posted_drag_is_paced(
    t: Trail,
    target: usize,
    start: isize,
    path: Seq<Spot>,
    button: MouseButton,
    flags: usize,
)
    requires
        path.len() > 0,
        background::posting_flow(
            t,
            Posting::Drag { target, start, path, button, flags },
        ).value == Some(Ok::<(), Fault>(())),
    ensures
        picked(
            background::posting_flow(
                t,
                Posting::Drag { target, start, path, button, flags },
            ).trail,
            pausing(),
        ) == picked(t, pausing()).push(pause(35)) + repeated(pause(16), (path.len() - 1) as nat),
{
    broadcast use picked_ask;

    let (down, _, _, bit) = message::button_messages(button);
    let moved = emitter::post_flow(t, target, WM_MOUSEMOVE, flags, start);
    let pressed = emitter::post_flow(moved.trail, target, down, flags | bit, start);
    let held = pressed.trail.plain(Plain::Sleep { millis: background::CLICK_HOLD });
    lemma_drag_moves(held.trail, target, path, 1, flags | bit, start);
}

proof fn lemma_injected_moves(t: Trail, path: Seq<Spot>, i: nat)
    requires
        i <= path.len(),
        foreground::moves_flow(t, path, i).value == Some(Ok::<(), Fault>(())),
    ensures
        picked(foreground::moves_flow(t, path, i).trail, pausing()) == picked(t, pausing())
            + repeated(pause(16), (path.len() - i) as nat),
    decreases path.len() - i,
{
    broadcast use picked_ask;

    if i < path.len() {
        let slept = t.plain(Plain::Sleep { millis: foreground::DRAG_STEP });
        let moved = foreground::send_move_flow(slept.trail, path[i as int]);
        lemma_injected_moves(moved.trail, path, i + 1);
        assert(picked(t, pausing()).push(pause(16)) + repeated(
            pause(16),
            (path.len() - i - 1) as nat,
        ) =~= picked(t, pausing()) + repeated(pause(16), (path.len() - i) as nat));
    } else {
        assert(picked(t, pausing()) + repeated(pause(16), 0) =~= picked(t, pausing()));
    }
}

/// An injected drag waits for 16 milliseconds before every move.
pub proof fn law_injected_drag_is_paced(
    t: Trail,
    start: InputEvent,
    path: Seq<Spot>,
    button: MouseButton,
)
    requires
        path.len() > 0,
        foreground::injection_flow(t, Injection::Drag { start, path, button }).value == Some(
            Ok::<(), Fault>(()),
        ),
    ensures
        picked(
            foreground::injection_flow(t, Injection::Drag { start, path, button }).trail,
            pausing(),
        ) == picked(t, pausing()) + repeated(pause(16), (path.len() - 1) as nat),
{
    broadcast use picked_ask;

    let (down, _) = message::injected_button(button);
    let pressed = foreground::send_flow(t, seq![start, message::mouse_input(down, 0)]);
    let moved = foreground::moves_flow(pressed.trail, path, 1);
    assert(moved.value == Some(Ok::<(), Fault>(()))) by {
        lemma_success(moved.value->0);
    }
    lemma_injected_moves(pressed.trail, path, 1);
}

proof fn lemma_transitions(
    t: Trail,
    window: usize,
    alt: u8,
    vks: Seq<u16>,
    i: nat,
    down: bool,
)
    requires
        emitter::transitions_flow(t, window, alt, vks, i, down).value is Some,
    ensures
        picked(emitter::transitions_flow(t, window, alt, vks, i, down).trail, pausing())
            == picked(t, pausing()),
    decreases vks.len() - i,
{
    broadcast use picked_ask;

    if i < vks.len() {
        let turn = emitter::transition_flow(t, window, alt, vks[i as int], down);
        if turn.value->0.result is Ok {
            lemma_transitions(turn.trail, window, turn.value->0.alt, vks, i + 1, down);
        }
    }
}

proof fn lemma_key(t: Trail, window: usize, alt: u8, key: KeyName, down: bool)
    requires
        emitter::key_flow(t, window, alt, key, down).value is Some,
    ensures
        picked(emitter::key_flow(t, window, alt, key, down).trail, pausing()) == picked(
            t,
            pausing(),
        ),
{
    broadcast use picked_ask;

    let found = emitter::virtual_key_flow(t, key);
    if let Some(Ok(vk)) = found.value {
        lemma_transitions(
            found.trail,
            window,
            alt,
            emitter::strokes(vk.0, vk.1, down),
            0,
            down,
        );
    }
}

proof fn lemma_released(
    t: Trail,
    window: usize,
    alt: u8,
    keys: Seq<KeyName>,
    n: nat,
    so_far: Result<(), Fault>,
)
    requires
        emitter::release_held_flow(t, window, alt, keys, n, so_far).value is Some,
    ensures
        picked(emitter::release_held_flow(t, window, alt, keys, n, so_far).trail, pausing())
            == picked(t, pausing()),
    decreases n,
{
    if n > 0 {
        let turn = emitter::key_flow(t, window, alt, keys[n - 1], false);
        lemma_key(t, window, alt, keys[n - 1], false);
        lemma_released(
            turn.trail,
            window,
            turn.value->0.alt,
            keys,
            (n - 1) as nat,
            global::first_failure(so_far, turn.value->0.result),
        );
    }
}

proof fn lemma_pressed(t: Trail, window: usize, alt: u8, keys: Seq<KeyName>, i: nat)
    requires
        emitter::press_held_flow(t, window, alt, keys, i).value is Some,
    ensures
        picked(emitter::press_held_flow(t, window, alt, keys, i).trail, pausing()) == picked(
            t,
            pausing(),
        ),
    decreases keys.len() - i,
{
    if i < keys.len() {
        let turn = emitter::key_flow(t, window, alt, keys[i as int], true);
        lemma_key(t, window, alt, keys[i as int], true);
        if turn.value->0.result is Ok {
            lemma_pressed(turn.trail, window, turn.value->0.alt, keys, i + 1);
        } else {
            lemma_released(
                turn.trail,
                window,
                turn.value->0.alt,
                keys,
                i,
                turn.value->0.result,
            );
        }
    }
}

/// A posted chord that went down stays down for 4 milliseconds.
pub proof fn law_posted_chord_is_held(t: Trail, window: usize, keys: Seq<KeyName>)
    requires
        background::posted_chord_flow(t, window, keys).value is Some,
    ensures
        ({
            let pressed = emitter::press_held_flow(t, window, 0, keys, 0);
            let end = background::posted_chord_flow(t, window, keys).trail;
            &&& pressed.value->0.result is Ok ==> {
                &&& picked(end, pausing()) == picked(t, pausing()).push(pause(4))
                &&& end.calls[pressed.trail.calls.len() as int] == pause(4)
            }
            &&& pressed.value->0.result is Err ==> picked(end, pausing()) == picked(t, pausing())
        }),
{
    broadcast use {
        picked_ask,
        effects::group_within,
        effects::release_held_within,
    };

    let pressed = emitter::press_held_flow(t, window, 0, keys, 0);
    lemma_pressed(t, window, 0, keys, 0);
    if pressed.value->0.result is Ok {
        let slept = pressed.trail.plain(Plain::Sleep { millis: background::KEY_GAP });
        let alt = pressed.value->0.alt;
        lemma_released(slept.trail, window, alt, keys, keys.len(), Ok(()));
        let released = emitter::release_held_flow(
            slept.trail,
            window,
            alt,
            keys,
            keys.len(),
            Ok(()),
        );
        let any = |c: Request| true;
        assert(effects::permits_queries(any));
        assert(effects::permits_posts(any, window));
        assert(effects::within(slept.trail, released.trail, any));
        reveal(effects::within);
        let at = pressed.trail.calls.len() as int;
        assert(released.trail.calls[at] == slept.trail.calls[at]);
    }
}

/// The sleeps of typed units: 4 milliseconds after a character, and for a Return
/// 4 while it is down and 24 after it.
pub open spec fn typing(units: Seq<TextUnit>, i: nat) -> Seq<Request>
    decreases units.len() - i,
{
    if i >= units.len() {
        Seq::empty()
    } else {
        (match units[i as int] {
            TextUnit::Enter => seq![pause(4), pause(24)],
            TextUnit::Char(_) => seq![pause(4)],
        }) + typing(units, i + 1)
    }
}

proof fn lemma_units(t: Trail, window: usize, units: Seq<u16>, i: nat)
    requires
        background::typed_units_flow(t, window, units, i).value is Some,
    ensures
        picked(background::typed_units_flow(t, window, units, i).trail, pausing()) == picked(
            t,
            pausing(),
        ),
    decreases units.len() - i,
{
    broadcast use picked_ask;

    if i < units.len() {
        let one = emitter::post_flow(
            t,
            window,
            WM_CHAR,
            units[i as int] as usize,
            1,
        );
        if one.value->0 is Ok {
            lemma_units(one.trail, window, units, i + 1);
        }
    }
}

/// Posted text is paced: after every character and every Return there is a
/// pause, and a longer one after a Return.
pub proof fn law_posted_text_is_paced(
    t: Trail,
    window: usize,
    alt: u8,
    units: Seq<TextUnit>,
    i: nat,
)
    requires
        background::typed_text_flow(t, window, alt, units, i).value == Some(Ok::<(), Fault>(())),
    ensures
        picked(background::typed_text_flow(t, window, alt, units, i).trail, pausing()) == picked(
            t,
            pausing(),
        ) + typing(units, i),
    decreases units.len() - i,
{
    broadcast use picked_ask;

    if i < units.len() {
        let one = background::typed_flow(t, window, alt, units[i as int]);
        law_posted_text_is_paced(one.trail, window, one.value->0.alt, units, i + 1);
        let first = match units[i as int] {
            TextUnit::Enter => seq![pause(4), pause(24)],
            TextUnit::Char(_) => seq![pause(4)],
        };
        if let TextUnit::Char(c) = units[i as int] {
            lemma_units(t, window, text::utf16(c), 0);
        }
        assert(picked(one.trail, pausing()) =~= picked(t, pausing()) + first);
        assert(picked(one.trail, pausing()) + typing(units, i + 1) =~= picked(t, pausing())
            + typing(units, i));
    } else {
        assert(picked(t, pausing()) + typing(units, i) =~= picked(t, pausing()));
    }
}

} // verus!
