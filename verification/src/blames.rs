//! Requests fail for a reason: every failure goes back to an answer that did not
//! let the request go on, or to the request itself.

use vstd::prelude::*;

use crate::background::Posting;
use crate::error::Outcome;
use crate::foreground::{ForegroundGuard, Injection};
use crate::keys::{KeyName, Modifiers, MouseButton};
use crate::request::{EventKind, Gesture, InputEvent, Point, Spot, TextUnit};
use crate::tape::{Flow, Plain, Reply, Request, Trail};
use crate::win32::{
    CS_DBLCLKS, CWP_SKIPDISABLED, CWP_SKIPINVISIBLE, CWP_SKIPTRANSPARENT, MOUSEEVENTF_HWHEEL,
    MOUSEEVENTF_WHEEL, SM_CXVIRTUALSCREEN, SM_CYVIRTUALSCREEN, SM_XVIRTUALSCREEN,
    SM_YVIRTUALSCREEN, VK_RETURN, WM_CHAR, WM_MOUSEHWHEEL, WM_MOUSEMOVE, WM_MOUSEWHEEL,
};
use crate::{
    activation, background, deeds, delivery, effects, emitter, foreground, gates, global, input,
    keys, message, sights, text, window,
};

verus! {

/// How a request reaches which window.
pub struct Address {
    /// Whether it is posted, so that coordinates have to fit into a message.
    pub posted: bool,
    /// The window that the request names.
    pub window: usize,
}

/// Whether a point can be part of a message.
pub open spec fn fits(point: Point) -> bool {
    -0x8000 <= point.x <= 0x7fff && -0x8000 <= point.y <= 0x7fff
}

/// Whether this answer alone stops a request.
pub open spec fn stops(call: Request, answer: Reply, address: Address) -> bool {
    match call {
        Request::SendInput { events } => answer.word_value() != events.len(),
        Request::TextUnsupported { .. } => answer.text_value() is Some,
        Request::DropReason { .. } => answer.text_value() is Some,
        Request::Plain(plain) => match plain {
            Plain::Post { .. } => answer.posted_value() is Err,
            Plain::Locate { .. } => match answer.located_value() {
                Ok(point) => address.posted && !fits(point),
                Err(_) => true,
            },
            Plain::ScreenToClient { .. } => match answer.point_value() {
                Some(point) => !fits(point),
                None => true,
            },
            Plain::Metric { metric } => (metric == SM_CXVIRTUALSCREEN || metric
                == SM_CYVIRTUALSCREEN) && answer.signed_value() <= 1,
            Plain::VkKeyScan { .. } => answer.scan_value() == -1,
            Plain::IsWindow { window } => window == address.window && !answer.flag_value(),
            Plain::NonClientRegion { .. } => answer.text_value() is Some,
            _ => false,
        },
        _ => false,
    }
}

/// Whether the clock, at this index, is half a second past an earlier look at it.
pub open spec fn late(u: Trail, k: int) -> bool {
    &&& u.calls[k] == Request::Plain(Plain::Now)
    &&& exists|j: int|
        0 <= j < k && #[trigger] u.calls[j] == Request::Plain(Plain::Now)
            && u.replies[k].time_value() >= u.replies[j].time_value() + 500_000_000
}

/// Whether the integrity level read at this index is above one read before.
pub open spec fn outranked(u: Trail, k: int) -> bool {
    &&& u.calls[k] matches Request::Plain(Plain::SubAuthority { .. })
    &&& u.replies[k].maybe_value() matches Some(target)
    &&& exists|j: int|
        0 <= j < k && (#[trigger] u.calls[j] matches Request::Plain(Plain::SubAuthority { .. }))
            && (u.replies[j].maybe_value() matches Some(own) && target > own)
}

/// Whether the answer at this index stops a request.
pub open spec fn is_cause(u: Trail, k: int, address: Address) -> bool {
    stops(u.calls[k], u.replies[k], address) || late(u, k) || outranked(u, k)
}

/// Whether one of the answers from `t` on to `u` stops a request.
#[verifier::opaque]
pub open spec fn caused(t: Trail, u: Trail, address: Address) -> bool {
    &&& effects::extends(t, u)
    &&& exists|k: int| t.calls.len() <= k < u.calls.len() && #[trigger] is_cause(u, k, address)
}

/// Whether a key types a character that no virtual key stands for: one that
/// takes two UTF-16 code units.
pub open spec fn untypable(key: KeyName) -> bool {
    key matches KeyName::Char(c) && c as int > 0xffff
}

/// Whether one of the keys does.
pub open spec fn any_untypable(keys: Seq<KeyName>) -> bool {
    exists|i: int| 0 <= i < keys.len() && #[trigger] untypable(keys[i])
}

/// Whether a posted gesture is none that can be made: a drag without a path, or
/// wheel travel that does not fit into a message.
pub open spec fn unpostable(gesture: Gesture) -> bool {
    match gesture {
        Gesture::Drag { path, .. } => path.len() == 0,
        Gesture::Scroll { horizontal, vertical, .. } => {
            ||| !(-0x8000 <= 120 * horizontal <= 0x7fff)
            ||| !(-0x8000 <= -120 * vertical <= 0x7fff)
        },
        _ => false,
    }
}

spec fn anything() -> spec_fn(Request) -> bool {
    |c: Request| true
}

broadcast proof fn permits_anything()
    ensures
        #![trigger anything()]
        effects::permits_queries(anything()),
        effects::permits_any_focus(anything()),
        effects::permits_token(anything()),
        effects::permits_injection(anything()),
        effects::permits_background(anything()),
        effects::permits_foreground(anything()),
        forall|window: usize| #[trigger] effects::permits_posts(anything(), window),
        forall|window: usize| #[trigger] effects::permits_shield(anything(), window),
        forall|window: usize| #[trigger] effects::permits_focus(anything(), window),
{
}

broadcast proof fn caused_before(t: Trail, u: Trail, v: Trail, address: Address)
    requires
        #[trigger] effects::within(t, u, anything()),
        #[trigger] caused(u, v, address),
    ensures
        caused(t, v, address),
{
    reveal(effects::within);
    reveal(caused);
    deeds::lemma_extends(t, u, v);
}

broadcast proof fn caused_after(t: Trail, u: Trail, v: Trail, address: Address)
    requires
        #[trigger] caused(t, u, address),
        #[trigger] effects::within(u, v, anything()),
    ensures
        caused(t, v, address),
{
    reveal(effects::within);
    reveal(caused);
    deeds::lemma_extends(t, u, v);
    let k = choose|k: int|
        t.calls.len() <= k < u.calls.len() && #[trigger] is_cause(u, k, address);
    assert(v.calls[k] == u.calls[k]);
    if late(u, k) {
        let j = choose|j: int|
            0 <= j < k && #[trigger] u.calls[j] == Request::Plain(Plain::Now)
                && u.replies[k].time_value() >= u.replies[j].time_value() + 500_000_000;
        assert(v.calls[j] == u.calls[j]);
        assert(late(v, k));
    }
    if outranked(u, k) {
        let target = u.replies[k].maybe_value()->0;
        let j = choose|j: int|
            0 <= j < k && (#[trigger] u.calls[j] matches Request::Plain(Plain::SubAuthority { .. }))
                && (u.replies[j].maybe_value() matches Some(own) && target > own);
        assert(v.calls[j] == u.calls[j]);
        assert(outranked(v, k));
    }
    assert(is_cause(v, k, address));
}

proof fn lemma_stops(t: Trail, call: Request, address: Address)
    requires
        t.ask(call).value is Some,
        stops(call, t.upcoming(0), address),
    ensures
        caused(t, t.ask(call).trail, address),
{
    reveal(caused);
    assert(is_cause(t.ask(call).trail, t.calls.len() as int, address));
}

broadcast group group_caused {
    permits_anything,
    caused_before,
    caused_after,
    effects::group_within,
}

proof fn lemma_post(
    t: Trail,
    window: usize,
    message: u32,
    wparam: usize,
    lparam: isize,
    address: Address,
)
    ensures
        emitter::post_flow(t, window, message, wparam, lparam).value matches Some(Err(_))
            ==> caused(t, emitter::post_flow(t, window, message, wparam, lparam).trail, address),
        effects::within(
            t,
            emitter::post_flow(t, window, message, wparam, lparam).trail,
            anything(),
        ),
{
    broadcast use group_caused;

    let call = Request::Plain(Plain::Post { window, message, wparam, lparam });
    if emitter::post_flow(t, window, message, wparam, lparam).value matches Some(Err(_)) {
        lemma_stops(t, call, address);
    }
}

proof fn lemma_transitions(
    t: Trail,
    window: usize,
    alt: u8,
    vks: Seq<u16>,
    i: nat,
    down: bool,
    address: Address,
)
    ensures
        ({
            let flow = emitter::transitions_flow(t, window, alt, vks, i, down);
            flow.value matches Some(turn) ==> turn.result is Err ==> caused(t, flow.trail, address)
        }),
    decreases vks.len() - i,
{
    broadcast use {group_caused, effects::transitions_within};

    if i < vks.len() {
        let vk = vks[i as int];
        let scan = t.plain(Plain::MapVirtualKey { vk });
        let turn = emitter::transition_flow(t, window, alt, vk, down);
        if scan.value is Some {
            lemma_post(
                scan.trail,
                window,
                message::key_message(alt, vk, down),
                vk as usize,
                message::signed32(
                    message::key_bits(alt, vk, down, (scan.value->0).word_value()),
                ) as isize,
                address,
            );
        }
        if turn.value is Some && turn.value->0.result is Ok {
            lemma_transitions(turn.trail, window, turn.value->0.alt, vks, i + 1, down, address);
        }
    }
}

proof fn lemma_virtual_key(t: Trail, key: KeyName, address: Address)
    ensures
        ({
            let flow = emitter::virtual_key_flow(t, key);
            &&& flow.value matches Some(Err(_)) ==> untypable(key) || caused(t, flow.trail, address)
            &&& effects::within(t, flow.trail, anything())
        }),
{
    broadcast use group_caused;

    if let KeyName::Char(c) = key {
        if text::utf16(c).len() == 1 {
            let call = Request::Plain(Plain::VkKeyScan { unit: text::utf16(c)[0] });
            if emitter::virtual_key_flow(t, key).value matches Some(Err(_)) {
                lemma_stops(t, call, address);
            }
        }
    }
}

proof fn lemma_key(t: Trail, window: usize, alt: u8, key: KeyName, down: bool, address: Address)
    ensures
        ({
            let flow = emitter::key_flow(t, window, alt, key, down);
            flow.value matches Some(turn) ==> turn.result is Err ==> untypable(key) || caused(
                t,
                flow.trail,
                address,
            )
        }),
{
    broadcast use {group_caused, effects::transitions_within};

    let found = emitter::virtual_key_flow(t, key);
    lemma_virtual_key(t, key, address);
    if let Some(Ok(vk)) = found.value {
        let vks = emitter::strokes(vk.0, vk.1, down);
        lemma_transitions(found.trail, window, alt, vks, 0, down, address);
    }
}

proof fn lemma_release_held(
    t: Trail,
    window: usize,
    alt: u8,
    keys: Seq<KeyName>,
    n: nat,
    so_far: Outcome,
    address: Address,
)
    requires
        n <= keys.len(),
    ensures
        ({
            let flow = emitter::release_held_flow(t, window, alt, keys, n, so_far);
            flow.value matches Some(turn) ==> turn.result is Err ==> so_far is Err || any_untypable(
                keys,
            ) || caused(t, flow.trail, address)
        }),
    decreases n,
{
    broadcast use {group_caused, effects::key_within, effects::release_held_within};

    if n > 0 {
        let flow = emitter::release_held_flow(t, window, alt, keys, n, so_far);
        let turn = emitter::key_flow(t, window, alt, keys[n - 1], false);
        lemma_key(t, window, alt, keys[n - 1], false, address);
        assert(untypable(keys[n - 1]) ==> any_untypable(keys));
        if turn.value is Some {
            let next = global::first_failure(so_far, turn.value->0.result);
            let rest = emitter::release_held_flow(
                turn.trail,
                window,
                turn.value->0.alt,
                keys,
                (n - 1) as nat,
                next,
            );
            lemma_release_held(
                turn.trail,
                window,
                turn.value->0.alt,
                keys,
                (n - 1) as nat,
                next,
                address,
            );
            assert(effects::within(t, turn.trail, anything()));
            assert(effects::within(turn.trail, rest.trail, anything()));
        }
    }
}

proof fn lemma_press_held(
    t: Trail,
    window: usize,
    alt: u8,
    keys: Seq<KeyName>,
    i: nat,
    address: Address,
)
    ensures
        ({
            let flow = emitter::press_held_flow(t, window, alt, keys, i);
            flow.value matches Some(turn) ==> turn.result is Err ==> any_untypable(keys) || caused(
                t,
                flow.trail,
                address,
            )
        }),
    decreases keys.len() - i,
{
    broadcast use {
        group_caused,
        effects::key_within,
        effects::release_held_within,
        effects::press_held_within,
    };

    if i < keys.len() {
        let turn = emitter::key_flow(t, window, alt, keys[i as int], true);
        lemma_key(t, window, alt, keys[i as int], true, address);
        assert(untypable(keys[i as int]) ==> any_untypable(keys));
        assert(effects::within(t, turn.trail, anything()));
        if turn.value is Some {
            let rest = if turn.value->0.result is Ok {
                emitter::press_held_flow(turn.trail, window, turn.value->0.alt, keys, i + 1)
            } else {
                emitter::release_held_flow(
                    turn.trail,
                    window,
                    turn.value->0.alt,
                    keys,
                    i,
                    turn.value->0.result,
                )
            };
            assert(effects::within(turn.trail, rest.trail, anything()));
            if turn.value->0.result is Ok {
                lemma_press_held(turn.trail, window, turn.value->0.alt, keys, i + 1, address);
            }
        }
    }
}

proof fn lemma_modifiers_are_typable(modifiers: Modifiers)
    ensures
        !any_untypable(keys::held_keys(modifiers)),
{
    let held = keys::held_keys(modifiers);
    if any_untypable(held) {
        let i = choose|i: int| 0 <= i < held.len() && #[trigger] untypable(held[i]);
        keys::law_held_keys_are_the_modifiers(modifiers, held[i]);
        assert(held.contains(held[i]));
    }
}

proof fn lemma_posted_clicks(
    t: Trail,
    target: usize,
    point: isize,
    button: MouseButton,
    count: u32,
    flags: usize,
    doubles: bool,
    index: nat,
    address: Address,
)
    ensures
        ({
            let flow = background::clicks_flow(
                t,
                target,
                point,
                button,
                count,
                flags,
                doubles,
                index,
            );
            flow.value matches Some(Err(_)) ==> caused(t, flow.trail, address)
        }),
    decreases count - index,
{
    broadcast use {group_caused, effects::posted_clicks_within};

    if index < count {
        let one = background::click_flow(
            t,
            target,
            point,
            button,
            flags,
            doubles,
            index as u32,
        );
        lemma_posted_click(t, target, point, button, flags, doubles, index as u32, address);
        if let Some(Ok(_)) = one.value {
            lemma_posted_clicks(
                one.trail,
                target,
                point,
                button,
                count,
                flags,
                doubles,
                index + 1,
                address,
            );
        }
    }
}

proof fn lemma_posted_click(
    t: Trail,
    target: usize,
    point: isize,
    button: MouseButton,
    flags: usize,
    doubles: bool,
    index: u32,
    address: Address,
)
    ensures
        ({
            let flow = background::click_flow(t, target, point, button, flags, doubles, index);
            &&& flow.value matches Some(Err(_)) ==> caused(t, flow.trail, address)
            &&& effects::within(t, flow.trail, anything())
        }),
{
    broadcast use group_caused;

    let (down, up, double, bit) = message::button_messages(button);
    let waited = background::click_gap_flow(t, index);
    assert(effects::within(t, waited.trail, anything()));
    if waited.value is Some {
        let asked = waited.trail.plain(Plain::PostsDoubleClick { index, wants_double: doubles });
        assert(effects::within(waited.trail, asked.trail, anything()));
        if asked.value is Some {
            let press = if (asked.value->0).flag_value() {
                double
            } else {
                down
            };
            let moved = emitter::post_flow(
                asked.trail,
                target,
                WM_MOUSEMOVE,
                flags,
                point,
            );
            lemma_post(asked.trail, target, WM_MOUSEMOVE, flags, point, address);
            if let Some(Ok(_)) = moved.value {
                let pressed = emitter::post_flow(moved.trail, target, press, flags | bit, point);
                lemma_post(moved.trail, target, press, flags | bit, point, address);
                if let Some(Ok(_)) = pressed.value {
                    let held = pressed.trail.plain(
                        Plain::Sleep { millis: background::CLICK_HOLD },
                    );
                    assert(effects::within(pressed.trail, held.trail, anything()));
                    if held.value is Some {
                        lemma_post(held.trail, target, up, flags, point, address);
                    }
                }
            }
        }
    }
}

proof fn lemma_screen_point(t: Trail, at: Spot, address: Address)
    ensures
        ({
            let flow = background::screen_point_flow(t, at);
            &&& flow.value matches Some(Err(_)) ==> caused(t, flow.trail, address)
            &&& flow.value matches Some(Ok(point)) ==> address.posted ==> !fits(point) ==> caused(
                t,
                flow.trail,
                address,
            )
            &&& effects::within(t, flow.trail, anything())
        }),
{
    broadcast use group_caused;

    let call = Request::Plain(Plain::Locate { at });
    if background::screen_point_flow(t, at).value is Some && stops(call, t.upcoming(0), address) {
        lemma_stops(t, call, address);
    }
}

proof fn lemma_client_point(t: Trail, window: usize, at: Spot, address: Address)
    ensures
        ({
            let flow = background::client_point_flow(t, window, at);
            &&& flow.value matches Some(Err(_)) ==> caused(t, flow.trail, address)
            &&& effects::within(t, flow.trail, anything())
        }),
{
    broadcast use group_caused;

    let located = background::screen_point_flow(t, at);
    lemma_screen_point(t, at, address);
    if let Some(Ok(point)) = located.value {
        let call = Request::Plain(Plain::ScreenToClient { window, point });
        if located.trail.ask(call).value is Some && stops(
            call,
            located.trail.upcoming(0),
            address,
        ) {
            lemma_stops(located.trail, call, address);
        }
    }
}

proof fn lemma_drag_moves(
    t: Trail,
    target: usize,
    path: Seq<Spot>,
    i: nat,
    flags: usize,
    end: isize,
    address: Address,
)
    ensures
        ({
            let flow = background::drag_moves_flow(t, target, path, i, flags, end);
            flow.value matches Some(Err(_)) ==> caused(t, flow.trail, address)
        }),
    decreases path.len() - i,
{
    broadcast use {group_caused, effects::drag_moves_within};

    if i < path.len() {
        let mapped = background::client_point_flow(t, target, path[i as int]);
        lemma_client_point(t, target, path[i as int], address);
        if let Some(Ok(location)) = mapped.value {
            let moved = emitter::post_flow(
                mapped.trail,
                target,
                WM_MOUSEMOVE,
                flags,
                location,
            );
            lemma_post(mapped.trail, target, WM_MOUSEMOVE, flags, location, address);
            if let Some(Ok(_)) = moved.value {
                let slept = moved.trail.plain(Plain::Sleep { millis: background::DRAG_STEP });
                assert(effects::within(moved.trail, slept.trail, anything()));
                if slept.value is Some {
                    lemma_drag_moves(
                        slept.trail,
                        target,
                        path,
                        i + 1,
                        flags,
                        location,
                        address,
                    );
                }
            }
        }
    }
}

proof fn lemma_dragging(
    t: Trail,
    target: usize,
    start: isize,
    path: Seq<Spot>,
    button: MouseButton,
    flags: usize,
    address: Address,
)
    ensures
        ({
            let flow = background::posting_flow(
                t,
                Posting::Drag { target, start, path, button, flags },
            );
            &&& flow.value matches Some(Err(_)) ==> caused(t, flow.trail, address)
            &&& effects::within(t, flow.trail, anything())
        }),
{
    broadcast use {group_caused, effects::drag_moves_within};

    let (down, up, _, bit) = message::button_messages(button);
    let moved = emitter::post_flow(t, target, WM_MOUSEMOVE, flags, start);
    lemma_post(t, target, WM_MOUSEMOVE, flags, start, address);
    if let Some(Ok(_)) = moved.value {
        let pressed = emitter::post_flow(moved.trail, target, down, flags | bit, start);
        lemma_post(moved.trail, target, down, flags | bit, start, address);
        if let Some(Ok(_)) = pressed.value {
            let held = pressed.trail.plain(Plain::Sleep { millis: background::CLICK_HOLD });
            assert(effects::within(pressed.trail, held.trail, anything()));
            if held.value is Some {
                let dragged = background::drag_moves_flow(
                    held.trail,
                    target,
                    path,
                    1,
                    flags | bit,
                    start,
                );
                lemma_drag_moves(held.trail, target, path, 1, flags | bit, start, address);
                assert(effects::within(held.trail, dragged.trail, anything()));
                if let Some(Ok(end)) = dragged.value {
                    lemma_post(dragged.trail, target, up, flags, end, address);
                }
            }
        }
    }
}

proof fn lemma_posting(t: Trail, posting: Posting<Seq<Spot>>, address: Address)
    ensures
        ({
            let flow = background::posting_flow(t, posting);
            &&& flow.value matches Some(Err(_)) ==> caused(t, flow.trail, address)
            &&& effects::within(t, flow.trail, anything())
        }),
{
    broadcast use {group_caused, effects::posted_clicks_within};

    match posting {
        Posting::Clicks { target, point, button, count, flags, wants_double } => {
            lemma_posted_clicks(
                t,
                target,
                point,
                button,
                count,
                flags,
                wants_double,
                0,
                address,
            );
        },
        Posting::Drag { target, start, path, button, flags } => {
            lemma_dragging(t, target, start, path, button, flags, address);
        },
    }
}

proof fn lemma_contained(
    t: Trail,
    root: usize,
    window: usize,
    modifiers: Modifiers,
    posting: Posting<Seq<Spot>>,
    address: Address,
)
    ensures
        ({
            let flow = background::contained_flow(t, root, window, modifiers, posting);
            flow.value matches Some(Err(_)) ==> caused(t, flow.trail, address)
        }),
{
    broadcast use {
        group_caused,
        effects::contain_within,
        effects::release_within,
        effects::press_held_within,
        effects::release_held_within,
    };

    let keys = keys::held_keys(modifiers);
    lemma_modifiers_are_typable(modifiers);
    let armed = activation::contain_flow(t, root, false);
    assert(effects::within(t, armed.trail, anything()));
    let done = background::with_modifiers_flow(armed.trail, window, modifiers, posting);
    let pressed = emitter::press_held_flow(armed.trail, window, 0, keys, 0);
    lemma_press_held(armed.trail, window, 0, keys, 0, address);
    assert(effects::within(armed.trail, pressed.trail, anything()));
    if pressed.value is Some && pressed.value->0.result is Ok {
        let posted = background::posting_flow(pressed.trail, posting);
        lemma_posting(pressed.trail, posting, address);
        if posted.value is Some {
            let alt = pressed.value->0.alt;
            let outcome = posted.value->0;
            let released = emitter::release_held_flow(
                posted.trail,
                window,
                alt,
                keys,
                keys.len(),
                outcome,
            );
            lemma_release_held(posted.trail, window, alt, keys, keys.len(), outcome, address);
            assert(effects::within(posted.trail, released.trail, anything()));
        }
    }
    let freed = activation::release_flow(done.trail, armed.value->0);
    assert(effects::within(done.trail, freed.trail, anything()));
}

proof fn lemma_descend(
    t: Trail,
    root: usize,
    screen: Point,
    current: usize,
    client: Point,
    left: nat,
    address: Address,
)
    ensures
        ({
            let flow = window::descend_flow(t, root, screen, current, client, left);
            flow.value matches Some(found) ==> !fits(found.1) ==> !fits(client) || caused(
                t,
                flow.trail,
                address,
            )
        }),
    decreases left,
{
    broadcast use {group_caused, effects::descend_within};

    if left > 0 {
        let flags = CWP_SKIPINVISIBLE | CWP_SKIPDISABLED | CWP_SKIPTRANSPARENT;
        let child = t.plain(Plain::ChildFromPoint { window: current, point: client, flags });
        let next = (child.value->0).handle_value();
        let inside = child.trail.plain(Plain::IsChild { parent: root, window: next });
        let call = Request::Plain(Plain::ScreenToClient { window: next, point: screen });
        let mapped = inside.trail.ask(call);
        assert(effects::within(t, child.trail, anything()));
        assert(effects::within(child.trail, inside.trail, anything()));
        assert(effects::within(inside.trail, mapped.trail, anything()));
        if mapped.value is Some {
            if let Some(point) = (mapped.value->0).point_value() {
                let rest = window::descend_flow(
                    mapped.trail,
                    root,
                    screen,
                    next,
                    point,
                    (left - 1) as nat,
                );
                assert(effects::within(mapped.trail, rest.trail, anything()));
                lemma_descend(
                    mapped.trail,
                    root,
                    screen,
                    next,
                    point,
                    (left - 1) as nat,
                    address,
                );
                if !fits(point) {
                    lemma_stops(inside.trail, call, address);
                }
            }
        }
    }
}

proof fn lemma_child_under(t: Trail, root: usize, screen: Point, address: Address)
    ensures
        ({
            let flow = background::child_under_flow(t, root, screen);
            &&& flow.value matches Some(Err(_)) ==> caused(t, flow.trail, address)
            &&& flow.value matches Some(Ok(child)) ==> !fits(child.1) ==> caused(
                t,
                flow.trail,
                address,
            )
            &&& effects::within(t, flow.trail, anything())
        }),
{
    broadcast use {group_caused, effects::descend_within};

    let call = Request::Plain(Plain::ScreenToClient { window: root, point: screen });
    let mapped = t.ask(call);
    if mapped.value is Some && stops(call, t.upcoming(0), address) {
        lemma_stops(t, call, address);
    }
    if mapped.value is Some {
        if let Some(client) = (mapped.value->0).point_value() {
            let left = window::MAX_NESTING as nat;
            let flow = window::descend_flow(mapped.trail, root, screen, root, client, left);
            lemma_descend(mapped.trail, root, screen, root, client, left, address);
            assert(effects::within(mapped.trail, flow.trail, anything()));
        }
    }
}

proof fn lemma_child_at(t: Trail, root: usize, at: Spot, address: Address)
    ensures
        ({
            let flow = background::child_at_flow(t, root, at);
            &&& flow.value matches Some(Err(_)) ==> caused(t, flow.trail, address)
            &&& effects::within(t, flow.trail, anything())
        }),
{
    broadcast use group_caused;

    let located = background::screen_point_flow(t, at);
    lemma_screen_point(t, at, address);
    if let Some(Ok(point)) = located.value {
        lemma_child_under(located.trail, root, point, address);
    }
}

proof fn lemma_drag(
    t: Trail,
    id: Seq<char>,
    root: usize,
    path: Seq<Spot>,
    button: MouseButton,
    modifiers: Modifiers,
    address: Address,
)
    ensures
        ({
            let flow = background::posted_drag_flow(t, id, root, path, button, modifiers);
            flow.value matches Some(Err(_)) ==> path.len() == 0 || caused(t, flow.trail, address)
        }),
{
    broadcast use {group_caused, effects::contained_within};

    if path.len() > 0 {
        let located = background::screen_point_flow(t, path[0]);
        lemma_screen_point(t, path[0], address);
        if let Some(Ok(start)) = located.value {
            let hit = background::hit_test_flow(located.trail, root, start);
            let tested = background::drag_region_flow(located.trail, root, start);
            assert(effects::within(located.trail, hit.trail, anything()));
            assert(effects::within(hit.trail, tested.trail, anything()));
            if let Some(Some(_)) = tested.value {
                let call = Request::Plain(
                    Plain::NonClientRegion { hit: (hit.value->0)->0 },
                );
                lemma_stops(hit.trail, call, address);
            }
            if let Some(None) = tested.value {
                let child = background::child_under_flow(tested.trail, root, start);
                lemma_child_under(tested.trail, root, start, address);
                if let Some(Ok(found)) = child.value {
                    if let Ok(location) = message::packed(found.1.x, found.1.y) {
                        let posting = Posting::Drag {
                            target: found.0,
                            start: location,
                            path,
                            button,
                            flags: message::modifier_flags(modifiers),
                        };
                        lemma_contained(
                            child.trail,
                            root,
                            found.0,
                            modifiers,
                            posting,
                            address,
                        );
                    }
                }
            }
        }
    }
}

proof fn lemma_turned(
    t: Trail,
    window: usize,
    message: u32,
    steps: i32,
    notch: int,
    location: isize,
    address: Address,
)
    requires
        notch == 120 || notch == -120,
    ensures
        ({
            let travel = message::wheel_travel(steps as int, notch);
            let flow = background::wheel_flow(t, window, message, travel, location);
            &&& flow.value matches Some(Err(_)) ==> !(-0x8000 <= steps * notch <= 0x7fff) || caused(
                t,
                flow.trail,
                address,
            )
            &&& effects::within(t, flow.trail, anything())
        }),
{
    broadcast use group_caused;

    let travel = message::wheel_travel(steps as int, notch);
    if let Ok(wparam) = message::wheel_bits(travel as i32) {
        lemma_post(t, window, message, wparam, location, address);
    }
}

proof fn lemma_scroll(
    t: Trail,
    root: usize,
    at: Spot,
    horizontal: i32,
    vertical: i32,
    address: Address,
)
    requires
        address.posted,
    ensures
        ({
            let flow = background::posted_scroll_flow(t, root, at, horizontal, vertical);
            flow.value matches Some(Err(_)) ==> unpostable(
                Gesture::Scroll { at, horizontal, vertical },
            ) || caused(t, flow.trail, address)
        }),
{
    broadcast use group_caused;

    let located = background::screen_point_flow(t, at);
    lemma_screen_point(t, at, address);
    if let Some(Ok(point)) = located.value {
        let child = background::child_under_flow(located.trail, root, point);
        lemma_child_under(located.trail, root, point, address);
        if let Some(Ok(found)) = child.value {
            if let Ok(location) = message::packed(point.x, point.y) {
                let across = background::wheel_flow(
                    child.trail,
                    found.0,
                    WM_MOUSEHWHEEL,
                    message::wheel_travel(horizontal as int, 120),
                    location,
                );
                lemma_turned(
                    child.trail,
                    found.0,
                    WM_MOUSEHWHEEL,
                    horizontal,
                    120,
                    location,
                    address,
                );
                if let Some(Ok(_)) = across.value {
                    lemma_turned(
                        across.trail,
                        found.0,
                        WM_MOUSEWHEEL,
                        vertical,
                        -120,
                        location,
                        address,
                    );
                }
            }
        }
    }
}

proof fn lemma_posted_gesture(
    t: Trail,
    id: Seq<char>,
    root: usize,
    gesture: Gesture,
    address: Address,
)
    requires
        address.posted,
    ensures
        ({
            let flow = background::posted_gesture_flow(t, id, root, gesture);
            flow.value matches Some(Err(_)) ==> unpostable(gesture) || caused(
                t,
                flow.trail,
                address,
            )
        }),
{
    broadcast use group_caused;

    match gesture {
        Gesture::Click { at, button, count, modifiers } => {
            let child = background::child_at_flow(t, root, at);
            lemma_child_at(t, root, at, address);
            if let Some(Ok(found)) = child.value {
                let style = child.trail.plain(Plain::ClassStyle { window: found.0 });
                assert(effects::within(child.trail, style.trail, anything()));
                if style.value is Some {
                    let posting = Posting::Clicks {
                        target: found.0,
                        point: found.1,
                        button,
                        count,
                        flags: message::modifier_flags(modifiers),
                        wants_double: (style.value->0).word_value() & CS_DBLCLKS != 0,
                    };
                    lemma_contained(style.trail, root, found.0, modifiers, posting, address);
                }
            }
        },
        Gesture::Move { at } => {
            let child = background::child_at_flow(t, root, at);
            lemma_child_at(t, root, at, address);
            if let Some(Ok(found)) = child.value {
                lemma_post(child.trail, found.0, WM_MOUSEMOVE, 0, found.1, address);
            }
        },
        Gesture::Drag { path, button, modifiers } => {
            lemma_drag(t, id, root, path, button, modifiers, address);
        },
        Gesture::Scroll { at, horizontal, vertical } => {
            lemma_scroll(t, root, at, horizontal, vertical, address);
        },
    }
}

proof fn lemma_hwnd(t: Trail, id: Seq<char>, address: Address)
    requires
        text::word_of(id) is Some ==> address.window == text::word_of(id)->0,
    ensures
        ({
            let flow = delivery::hwnd_flow(t, id);
            &&& flow.value matches Some(Err(_)) ==> text::word_of(id) is None || caused(
                t,
                flow.trail,
                address,
            )
            &&& effects::within(t, flow.trail, anything())
        }),
{
    broadcast use group_caused;

    if let Some(window) = text::word_of(id) {
        if delivery::hwnd_flow(t, id).value matches Some(Err(_)) {
            lemma_stops(t, Request::Plain(Plain::IsWindow { window }), address);
        }
    }
}

proof fn lemma_integrity(t: Trail, id: Seq<char>, root: usize, address: Address)
    ensures
        ({
            let flow = delivery::ensure_integrity_flow(t, id, root);
            flow.value matches Some(Err(_)) ==> caused(t, flow.trail, address)
        }),
{
    broadcast use {group_caused, effects::integrity_level_within, effects::uipi_block_within};

    let flow = delivery::ensure_integrity_flow(t, id, root);
    if flow.value matches Some(Err(_)) {
        let pid = t.plain(Plain::ProcessOf { window: root });
        let own = pid.trail.plain(Plain::OwnProcess);
        let mine = window::integrity_level_flow(own.trail, (own.value->0).handle_value());
        let opened = mine.trail.plain(Plain::OpenProcess { pid: (pid.value->0).word_value() });
        let process = (opened.value->0).handle_value();
        let level = window::integrity_level_flow(opened.trail, process);
        let closed = level.trail.plain(Plain::Close { handle: process });
        sights::law_integrity_is_the_last_subauthority(
            own.trail,
            (own.value->0).handle_value(),
        );
        sights::law_integrity_is_the_last_subauthority(opened.trail, process);
        assert(effects::within(t, opened.trail, anything()));
        assert(effects::within(mine.trail, level.trail, anything()));
        assert(effects::within(level.trail, closed.trail, anything()));
        let u = level.trail;
        let k = u.calls.len() - 1;
        let j = mine.trail.calls.len() - 1;
        assert(caused(opened.trail, u, address)) by {
            reveal(effects::within);
            reveal(caused);
            assert(effects::within(opened.trail, u, anything()));
            assert(u.calls[j] == mine.trail.calls[j]);
            assert(outranked(u, k));
            assert(is_cause(u, k, address));
        }
    }
}

proof fn lemma_drop_reason(
    t: Trail,
    root: usize,
    class: Seq<char>,
    kind: EventKind,
    address: Address,
)
    ensures
        ({
            let flow = delivery::drop_reason_flow(t, root, class, kind);
            flow.value matches Some(Some(_)) ==> caused(t, flow.trail, address)
        }),
{
    broadcast use {group_caused, effects::drop_reason_within};

    let flow = delivery::drop_reason_flow(t, root, class, kind);
    if flow.value matches Some(Some(_)) {
        gates::law_drop_is_judged_by_the_window(t, root, class, kind);
        assert(effects::within(t, flow.trail, anything()));
        let k = flow.trail.calls.len() - 1;
        reveal(effects::within);
        reveal(caused);
        let chromium = window::has_chromium_descendant_flow(t, root);
        let front = window::owns_foreground_flow(chromium.trail, root);
        let xaml = window::is_xaml_host_flow(front.trail, root);
        lemma_judged(t, root);
        assert(is_cause(flow.trail, k, address));
    }
}

proof fn lemma_judged(t: Trail, root: usize)
    ensures
        ({
            let chromium = window::has_chromium_descendant_flow(t, root);
            let front = window::owns_foreground_flow(chromium.trail, root);
            let xaml = window::is_xaml_host_flow(front.trail, root);
            effects::within(t, xaml.trail, anything())
        }),
{
    broadcast use {
        group_caused,
        effects::any_chromium_within,
        effects::is_xaml_host_within,
    };

    let chromium = window::has_chromium_descendant_flow(t, root);
    let front = window::owns_foreground_flow(chromium.trail, root);
    let xaml = window::is_xaml_host_flow(front.trail, root);
    assert(effects::within(t, chromium.trail, anything()));
    assert(effects::within(chromium.trail, front.trail, anything()));
    assert(effects::within(front.trail, xaml.trail, anything()));
}

proof fn lemma_refused(
    t: Trail,
    id: Seq<char>,
    root: usize,
    class: Seq<char>,
    gesture: Gesture,
    reason: Seq<char>,
)
    ensures
        effects::within(
            t,
            background::dropped_flow(t, id, root, class, gesture, reason).trail,
            anything(),
        ),
{
    broadcast use group_caused;

}

/// A posted gesture fails for a reason: its identifier is no number, it is none
/// that can be posted, or an answer stopped it.
pub proof fn law_posted_gesture_fails_for_a_reason(t: Trail, id: Seq<char>, gesture: Gesture)
    requires
        background::pointer_flow(t, id, gesture).value matches Some(Err(_)),
    ensures
        text::word_of(id) is None || unpostable(gesture) || caused(
            t,
            background::pointer_flow(t, id, gesture).trail,
            Address { posted: true, window: text::word_of(id)->0 },
        ),
{
    broadcast use {
        group_caused,
        effects::ensure_integrity_within,
        effects::drop_reason_within,
        effects::posted_gesture_within,
    };

    let address = Address { posted: true, window: text::word_of(id)->0 };
    let found = delivery::hwnd_flow(t, id);
    lemma_hwnd(t, id, address);
    if let Some(Ok(root)) = found.value {
        let allowed = delivery::ensure_integrity_flow(found.trail, id, root);
        lemma_integrity(found.trail, id, root, address);
        assert(effects::within(found.trail, allowed.trail, anything()));
        if let Some(Ok(_)) = allowed.value {
            let named = window::class_name_flow(allowed.trail, root);
            let class = named.value->0;
            let kind = background::gesture_kind(gesture);
            let weighed = delivery::drop_reason_flow(named.trail, root, class, kind);
            lemma_drop_reason(named.trail, root, class, kind, address);
            assert(effects::within(allowed.trail, named.trail, anything()));
            assert(effects::within(named.trail, weighed.trail, anything()));
            if let Some(Some(reason)) = weighed.value {
                lemma_refused(weighed.trail, id, root, class, gesture, reason);
            }
            if let Some(None) = weighed.value {
                lemma_posted_gesture(weighed.trail, id, root, gesture, address);
            }
        }
    }
}

proof fn lemma_delivery(t: Trail, id: Seq<char>, root: usize, kind: EventKind, address: Address)
    ensures
        ({
            let flow = delivery::ensure_delivery_flow(t, id, root, kind);
            flow.value matches Some(Err(_)) ==> caused(t, flow.trail, address)
        }),
{
    broadcast use {
        group_caused,
        effects::ensure_integrity_within,
        effects::drop_reason_within,
    };

    let allowed = delivery::ensure_integrity_flow(t, id, root);
    lemma_integrity(t, id, root, address);
    assert(effects::within(t, allowed.trail, anything()));
    if let Some(Ok(_)) = allowed.value {
        let named = window::class_name_flow(allowed.trail, root);
        let class = named.value->0;
        let weighed = delivery::drop_reason_flow(named.trail, root, class, kind);
        lemma_drop_reason(named.trail, root, class, kind, address);
        assert(effects::within(allowed.trail, named.trail, anything()));
        assert(effects::within(named.trail, weighed.trail, anything()));
        if let Some(Some(reason)) = weighed.value {
            let refused = delivery::refuse_flow(weighed.trail, id, class, kind, reason);
            assert(effects::within(weighed.trail, refused.trail, anything()));
        }
    }
}

proof fn lemma_text_supported(t: Trail, id: Seq<char>, root: usize, address: Address)
    ensures
        ({
            let flow = delivery::ensure_text_supported_flow(t, id, root);
            &&& flow.value matches Some(Err(_)) ==> caused(t, flow.trail, address)
            &&& effects::within(t, flow.trail, anything())
        }),
{
    broadcast use group_caused;

    let named = window::class_name_flow(t, root);
    assert(effects::within(t, named.trail, anything()));
    if named.value is Some {
        let call = Request::TextUnsupported { class: named.value->0 };
        if named.trail.ask(call).value is Some && stops(call, named.trail.upcoming(0), address) {
            lemma_stops(named.trail, call, address);
        }
    }
}

proof fn lemma_posted_chord(t: Trail, window: usize, keys: Seq<KeyName>, address: Address)
    ensures
        ({
            let flow = background::posted_chord_flow(t, window, keys);
            flow.value matches Some(Err(_)) ==> any_untypable(keys) || caused(
                t,
                flow.trail,
                address,
            )
        }),
{
    broadcast use {group_caused, effects::press_held_within, effects::release_held_within};

    let pressed = emitter::press_held_flow(t, window, 0, keys, 0);
    lemma_press_held(t, window, 0, keys, 0, address);
    assert(effects::within(t, pressed.trail, anything()));
    if pressed.value is Some && pressed.value->0.result is Ok {
        let slept = pressed.trail.plain(Plain::Sleep { millis: background::KEY_GAP });
        assert(effects::within(pressed.trail, slept.trail, anything()));
        if slept.value is Some {
            let alt = pressed.value->0.alt;
            lemma_release_held(slept.trail, window, alt, keys, keys.len(), Ok(()), address);
        }
    }
}

/// A posted chord fails for a reason: its identifier is no number, one of its
/// keys has no virtual key, or an answer stopped it.
pub proof fn law_posted_chord_fails_for_a_reason(t: Trail, id: Seq<char>, keys: Seq<KeyName>)
    requires
        background::key_chord_flow(t, id, keys).value matches Some(Err(_)),
    ensures
        text::word_of(id) is None || any_untypable(keys) || caused(
            t,
            background::key_chord_flow(t, id, keys).trail,
            Address { posted: true, window: text::word_of(id)->0 },
        ),
{
    broadcast use {
        group_caused,
        effects::ensure_delivery_within,
        effects::search_focus_within,
    };

    let address = Address { posted: true, window: text::word_of(id)->0 };
    let found = delivery::hwnd_flow(t, id);
    lemma_hwnd(t, id, address);
    if let Some(Ok(root)) = found.value {
        let kind = background::chord_kind(keys);
        let allowed = delivery::ensure_delivery_flow(found.trail, id, root, kind);
        lemma_delivery(found.trail, id, root, kind, address);
        assert(effects::within(found.trail, allowed.trail, anything()));
        if let Some(Ok(_)) = allowed.value {
            let focused = emitter::KeyEmitter::focused_flow(allowed.trail, root);
            assert(effects::within(allowed.trail, focused.trail, anything()));
            if focused.value is Some {
                lemma_posted_chord(focused.trail, focused.value->0, keys, address);
            }
        }
    }
}

proof fn lemma_typed_units(t: Trail, window: usize, units: Seq<u16>, i: nat, address: Address)
    ensures
        ({
            let flow = background::typed_units_flow(t, window, units, i);
            flow.value matches Some(Err(_)) ==> caused(t, flow.trail, address)
        }),
    decreases units.len() - i,
{
    broadcast use {group_caused, effects::typed_units_within};

    if i < units.len() {
        let one = emitter::post_flow(t, window, WM_CHAR, units[i as int] as usize, 1);
        lemma_post(t, window, WM_CHAR, units[i as int] as usize, 1, address);
        if let Some(Ok(_)) = one.value {
            lemma_typed_units(one.trail, window, units, i + 1, address);
        }
    }
}

proof fn lemma_transition(
    t: Trail,
    window: usize,
    alt: u8,
    vk: u16,
    down: bool,
    address: Address,
)
    ensures
        ({
            let flow = emitter::transition_flow(t, window, alt, vk, down);
            &&& flow.value matches Some(turn) ==> turn.result is Err ==> caused(
                t,
                flow.trail,
                address,
            )
            &&& effects::within(t, flow.trail, anything())
        }),
{
    broadcast use group_caused;

    let scan = t.plain(Plain::MapVirtualKey { vk });
    if scan.value is Some {
        lemma_post(
            scan.trail,
            window,
            message::key_message(alt, vk, down),
            vk as usize,
            message::signed32(
                message::key_bits(alt, vk, down, (scan.value->0).word_value()),
            ) as isize,
            address,
        );
    }
}

proof fn lemma_typed(t: Trail, window: usize, alt: u8, unit: TextUnit, address: Address)
    ensures
        ({
            let flow = background::typed_flow(t, window, alt, unit);
            &&& flow.value matches Some(turn) ==> turn.result is Err ==> caused(
                t,
                flow.trail,
                address,
            )
            &&& effects::within(t, flow.trail, anything())
        }),
{
    broadcast use {group_caused, effects::typed_units_within};

    match unit {
        TextUnit::Enter => {
            let down = emitter::transition_flow(t, window, alt, VK_RETURN, true);
            lemma_transition(t, window, alt, VK_RETURN, true, address);
            if down.value is Some && down.value->0.result is Ok {
                let slept = down.trail.plain(Plain::Sleep { millis: background::KEY_GAP });
                assert(effects::within(down.trail, slept.trail, anything()));
                if slept.value is Some {
                    let alt = down.value->0.alt;
                    let up = emitter::transition_flow(slept.trail, window, alt, VK_RETURN, false);
                    lemma_transition(slept.trail, window, alt, VK_RETURN, false, address);
                    let millis = (background::KEY_GAP + background::ENTER_SETTLE) as u64;
                    let settled = up.trail.plain(Plain::Sleep { millis });
                    assert(effects::within(up.trail, settled.trail, anything()));
                }
            }
        },
        TextUnit::Char(c) => {
            let units = text::utf16(c);
            let posted = background::typed_units_flow(t, window, units, 0);
            lemma_typed_units(t, window, units, 0, address);
            assert(effects::within(t, posted.trail, anything()));
            let slept = posted.trail.plain(Plain::Sleep { millis: background::KEY_GAP });
            assert(effects::within(posted.trail, slept.trail, anything()));
        },
    }
}

proof fn lemma_typed_text(
    t: Trail,
    window: usize,
    alt: u8,
    units: Seq<TextUnit>,
    i: nat,
    address: Address,
)
    ensures
        ({
            let flow = background::typed_text_flow(t, window, alt, units, i);
            flow.value matches Some(Err(_)) ==> caused(t, flow.trail, address)
        }),
    decreases units.len() - i,
{
    broadcast use group_caused;

    if i < units.len() {
        let one = background::typed_flow(t, window, alt, units[i as int]);
        lemma_typed(t, window, alt, units[i as int], address);
        if one.value is Some && one.value->0.result is Ok {
            lemma_typed_text(one.trail, window, one.value->0.alt, units, i + 1, address);
        }
    }
}

/// Posted text fails for a reason: its identifier is no number, or an answer
/// stopped it.
pub proof fn law_posted_text_fails_for_a_reason(t: Trail, id: Seq<char>, content: Seq<char>)
    requires
        background::type_text_flow(t, id, content).value matches Some(Err(_)),
    ensures
        text::word_of(id) is None || caused(
            t,
            background::type_text_flow(t, id, content).trail,
            Address { posted: true, window: text::word_of(id)->0 },
        ),
{
    broadcast use {
        group_caused,
        effects::ensure_delivery_within,
        effects::search_focus_within,
    };

    let address = Address { posted: true, window: text::word_of(id)->0 };
    let found = delivery::hwnd_flow(t, id);
    lemma_hwnd(t, id, address);
    if let Some(Ok(root)) = found.value {
        let supported = delivery::ensure_text_supported_flow(found.trail, id, root);
        lemma_text_supported(found.trail, id, root, address);
        if let Some(Ok(_)) = supported.value {
            let kind = EventKind::TextInput;
            let allowed = delivery::ensure_delivery_flow(supported.trail, id, root, kind);
            lemma_delivery(supported.trail, id, root, kind, address);
            assert(effects::within(supported.trail, allowed.trail, anything()));
            if let Some(Ok(_)) = allowed.value {
                let focused = emitter::KeyEmitter::focused_flow(allowed.trail, root);
                assert(effects::within(allowed.trail, focused.trail, anything()));
                if focused.value is Some {
                    let asked = focused.trail.ask(Request::TextUnits { text: content });
                    assert(effects::within(focused.trail, asked.trail, anything()));
                    if asked.value is Some {
                        let units = (asked.value->0).text_units_value();
                        lemma_typed_text(
                            asked.trail,
                            focused.value->0,
                            0,
                            units,
                            0,
                            address,
                        );
                    }
                }
            }
        }
    }
}

proof fn lemma_asked(t: Trail, call: Request)
    ensures
        effects::within(t, t.ask(call).trail, anything()),
{
    reveal(effects::within);
}

proof fn lemma_sent(t: Trail, events: Seq<InputEvent>, address: Address)
    ensures
        ({
            let flow = foreground::send_flow(t, events);
            &&& flow.value matches Some(Err(_)) ==> caused(t, flow.trail, address)
            &&& effects::within(t, flow.trail, anything())
        }),
{
    broadcast use group_caused;

    if foreground::send_flow(t, events).value matches Some(Err(_)) {
        lemma_stops(t, Request::SendInput { events }, address);
    }
}

proof fn lemma_metric(t: Trail, metric: i32, address: Address)
    ensures
        ({
            let flow = foreground::metric_flow(t, metric);
            &&& flow.value matches Some(value) ==> value <= 1 && (metric == SM_CXVIRTUALSCREEN
                || metric == SM_CYVIRTUALSCREEN) ==> caused(t, flow.trail, address)
            &&& effects::within(t, flow.trail, anything())
        }),
{
    broadcast use group_caused;

    let call = Request::Plain(Plain::Metric { metric });
    if t.ask(call).value is Some && stops(call, t.upcoming(0), address) {
        lemma_stops(t, call, address);
    }
}

proof fn lemma_move_event(t: Trail, at: Spot, address: Address)
    ensures
        ({
            let flow = foreground::move_event_flow(t, at);
            &&& flow.value matches Some(Err(_)) ==> caused(t, flow.trail, address)
            &&& effects::within(t, flow.trail, anything())
        }),
{
    broadcast use group_caused;

    let a = background::screen_point_flow(t, at);
    lemma_screen_point(t, at, address);
    if let Some(Ok(_)) = a.value {
        let b = foreground::metric_flow(a.trail, SM_XVIRTUALSCREEN);
        let c = foreground::metric_flow(b.trail, SM_YVIRTUALSCREEN);
        let d = foreground::metric_flow(c.trail, SM_CXVIRTUALSCREEN);
        lemma_metric(a.trail, SM_XVIRTUALSCREEN, address);
        lemma_metric(b.trail, SM_YVIRTUALSCREEN, address);
        lemma_metric(c.trail, SM_CXVIRTUALSCREEN, address);
        lemma_metric(d.trail, SM_CYVIRTUALSCREEN, address);
    }
}

proof fn lemma_sent_move(t: Trail, at: Spot, address: Address)
    ensures
        ({
            let flow = foreground::send_move_flow(t, at);
            &&& flow.value matches Some(Err(_)) ==> caused(t, flow.trail, address)
            &&& effects::within(t, flow.trail, anything())
        }),
{
    broadcast use group_caused;

    let moved = foreground::move_event_flow(t, at);
    lemma_move_event(t, at, address);
    if let Some(Ok(event)) = moved.value {
        lemma_sent(moved.trail, seq![event], address);
    }
}

proof fn lemma_injected_moves(t: Trail, path: Seq<Spot>, i: nat, address: Address)
    ensures
        ({
            let flow = foreground::moves_flow(t, path, i);
            &&& flow.value matches Some(Err(_)) ==> caused(t, flow.trail, address)
            &&& effects::within(t, flow.trail, anything())
        }),
    decreases path.len() - i,
{
    broadcast use group_caused;

    if i < path.len() {
        let slept = t.plain(Plain::Sleep { millis: foreground::DRAG_STEP });
        assert(effects::within(t, slept.trail, anything()));
        if slept.value is Some {
            let moved = foreground::send_move_flow(slept.trail, path[i as int]);
            lemma_sent_move(slept.trail, path[i as int], address);
            if let Some(Ok(_)) = moved.value {
                lemma_injected_moves(moved.trail, path, i + 1, address);
            }
        }
    }
}

proof fn lemma_injected_clicks(
    t: Trail,
    at: InputEvent,
    button: MouseButton,
    left: nat,
    address: Address,
)
    ensures
        ({
            let flow = foreground::clicks_flow(t, at, button, left);
            &&& flow.value matches Some(Err(_)) ==> caused(t, flow.trail, address)
            &&& effects::within(t, flow.trail, anything())
        }),
    decreases left,
{
    broadcast use group_caused;

    if left > 0 {
        let events = foreground::click_events(at, button);
        let sent = foreground::send_flow(t, events);
        lemma_sent(t, events, address);
        if let Some(Ok(_)) = sent.value {
            lemma_injected_clicks(sent.trail, at, button, (left - 1) as nat, address);
        }
    }
}

proof fn lemma_injection(t: Trail, injection: Injection<Seq<Spot>>, address: Address)
    ensures
        ({
            let flow = foreground::injection_flow(t, injection);
            &&& flow.value matches Some(Err(_)) ==> caused(t, flow.trail, address)
            &&& effects::within(t, flow.trail, anything())
        }),
{
    broadcast use group_caused;

    match injection {
        Injection::Nothing => {},
        Injection::Clicks { at, button, count } => {
            lemma_injected_clicks(t, at, button, count as nat, address);
        },
        Injection::Drag { start, path, button } => {
            let (down, up) = message::injected_button(button);
            let first = seq![start, message::mouse_input(down, 0)];
            let pressed = foreground::send_flow(t, first);
            lemma_sent(t, first, address);
            if let Some(Ok(_)) = pressed.value {
                let moved = foreground::moves_flow(pressed.trail, path, 1);
                lemma_injected_moves(pressed.trail, path, 1, address);
                lemma_sent(moved.trail, seq![message::mouse_input(up, 0)], address);
            }
        },
    }
}

proof fn lemma_holding(
    t: Trail,
    presses: Seq<InputEvent>,
    releases: Seq<InputEvent>,
    injection: Injection<Seq<Spot>>,
    address: Address,
)
    ensures
        ({
            let flow = foreground::holding_flow(t, presses, releases, injection);
            &&& flow.value matches Some(Err(_)) ==> caused(t, flow.trail, address)
            &&& effects::within(t, flow.trail, anything())
        }),
{
    broadcast use group_caused;

    let pressed = foreground::send_flow(t, presses);
    lemma_sent(t, presses, address);
    lemma_sent(pressed.trail, releases, address);
    if let Some(Ok(_)) = pressed.value {
        let done = foreground::injection_flow(pressed.trail, injection);
        lemma_injection(pressed.trail, injection, address);
        lemma_sent(done.trail, releases, address);
    }
}

proof fn lemma_modified(
    t: Trail,
    modifiers: Modifiers,
    injection: Injection<Seq<Spot>>,
    address: Address,
)
    ensures
        ({
            let flow = foreground::with_modifiers_flow(t, modifiers, injection);
            &&& flow.value matches Some(Err(_)) ==> caused(t, flow.trail, address)
            &&& effects::within(t, flow.trail, anything())
        }),
{
    broadcast use {group_caused, effects::key_events_within};

    let struck = foreground::strokes_flow(t, foreground::modifier_codes(modifiers));
    assert(effects::within(t, struck.trail, anything()));
    if let Some((presses, releases)) = struck.value {
        lemma_holding(struck.trail, presses, releases, injection, address);
    }
}

proof fn lemma_injected_gesture(t: Trail, gesture: Gesture, address: Address)
    ensures
        ({
            let flow = foreground::gesture_flow(t, gesture);
            &&& flow.value matches Some(Err(_)) ==> (gesture matches Gesture::Drag { path, .. }
                && path.len() == 0) || caused(t, flow.trail, address)
            &&& effects::within(t, flow.trail, anything())
        }),
{
    broadcast use group_caused;

    match gesture {
        Gesture::Click { at, button, count, modifiers } => {
            let moved = foreground::move_event_flow(t, at);
            lemma_move_event(t, at, address);
            if let Some(Ok(at)) = moved.value {
                let injection = Injection::Clicks { at, button, count };
                lemma_modified(moved.trail, modifiers, injection, address);
            }
        },
        Gesture::Move { at } => {
            lemma_sent_move(t, at, address);
        },
        Gesture::Drag { path, button, modifiers } => {
            if path.len() > 0 {
                let moved = foreground::move_event_flow(t, path[0]);
                lemma_move_event(t, path[0], address);
                if let Some(Ok(start)) = moved.value {
                    let injection = Injection::Drag { start, path, button };
                    lemma_modified(moved.trail, modifiers, injection, address);
                }
            }
        },
        Gesture::Scroll { at, horizontal, vertical } => {
            let moved = foreground::send_move_flow(t, at);
            lemma_sent_move(t, at, address);
            let across = message::wheel_travel(horizontal as int, 120);
            let along = message::wheel_travel(vertical as int, -120);
            let turned = foreground::wheel_flow(moved.trail, MOUSEEVENTF_HWHEEL, across);
            lemma_sent(
                moved.trail,
                seq![message::mouse_input(MOUSEEVENTF_HWHEEL, message::wheel_data(across))],
                address,
            );
            lemma_sent(
                turned.trail,
                seq![message::mouse_input(MOUSEEVENTF_WHEEL, message::wheel_data(along))],
                address,
            );
        },
    }
}

proof fn lemma_waited(t: Trail, target: usize, address: Address)
    ensures
        ({
            let flow = activation::wait_for_foreground_flow(t, target, 500);
            &&& flow.value == Some(false) ==> caused(t, flow.trail, address)
            &&& effects::within(t, flow.trail, anything())
        }),
{
    broadcast use {group_caused, effects::poll_within};

    let flow = activation::wait_for_foreground_flow(t, target, 500);
    assert(effects::within(t, flow.trail, anything()));
    if flow.value == Some(false) {
        let n = gates::law_wait_looks_until_the_deadline(t, target, 500);
        let u = flow.trail;
        let j = t.calls.len() as int;
        let k = j + 1 + 4 * n + 2;
        reveal(effects::within);
        reveal(caused);
        assert(gates::looked(u, j + 1 + 4 * n, target));
        assert(u.calls[j] == Request::Plain(Plain::Now));
        assert(late(u, k));
        assert(is_cause(u, k, address));
    }
}

proof fn lemma_guarded(t: Trail, id: Seq<char>, settle: u64, address: Address)
    requires
        text::word_of(id) is Some ==> address.window == text::word_of(id)->0,
    ensures
        ({
            let flow = ForegroundGuard::activate_flow(t, id, settle);
            &&& flow.value matches Some(Err(_)) ==> text::word_of(id) is None || caused(
                t,
                flow.trail,
                address,
            )
            &&& effects::within(t, flow.trail, anything())
        }),
{
    broadcast use {
        group_caused,
        effects::ensure_integrity_within,
        effects::activate_within,
        effects::guard_activate_within,
    };

    let found = delivery::hwnd_flow(t, id);
    lemma_hwnd(t, id, address);
    if let Some(Ok(target)) = found.value {
        let allowed = delivery::ensure_integrity_flow(found.trail, id, target);
        lemma_integrity(found.trail, id, target, address);
        assert(effects::within(found.trail, allowed.trail, anything()));
        if let Some(Ok(_)) = allowed.value {
            let front = allowed.trail.plain(Plain::ForegroundWindow);
            assert(effects::within(allowed.trail, front.trail, anything()));
            let previous = (front.value->0).handle_value();
            let active = activation::activate_flow(front.trail, target);
            assert(effects::within(front.trail, active.trail, anything()));
            let waited = activation::wait_for_foreground_flow(active.trail, target, 500);
            lemma_waited(active.trail, target, address);
            let back = foreground::activate_any_flow(waited.trail, previous);
            assert(effects::within(waited.trail, back.trail, anything()));
        }
    }
}

proof fn lemma_in_front(
    t: Trail,
    id: Seq<char>,
    settle: u64,
    input: spec_fn(Trail) -> Flow<Outcome>,
    address: Address,
)
    requires
        text::word_of(id) is Some ==> address.window == text::word_of(id)->0,
        ({
            let guard = ForegroundGuard::activate_flow(t, id, settle);
            let done = input(guard.trail);
            &&& done.value matches Some(Err(_)) ==> caused(guard.trail, done.trail, address)
            &&& effects::within(guard.trail, done.trail, anything())
        }),
    ensures
        ({
            let flow = foreground::in_front_flow(t, id, settle, input);
            &&& flow.value matches Some(Err(_)) ==> text::word_of(id) is None || caused(
                t,
                flow.trail,
                address,
            )
            &&& effects::within(t, flow.trail, anything())
        }),
{
    broadcast use {group_caused, effects::activate_within};

    let guard = ForegroundGuard::activate_flow(t, id, settle);
    lemma_guarded(t, id, settle, address);
    if let Some(Ok(kept)) = guard.value {
        let done = input(guard.trail);
        let back = kept.hand_back_flow(done.trail);
        assert(effects::within(done.trail, back.trail, anything()));
    }
}

/// An injected gesture fails for a reason: its identifier is no number, it is a
/// drag without a path, or an answer stopped it.
pub proof fn law_injected_gesture_fails_for_a_reason(t: Trail, id: Seq<char>, gesture: Gesture)
    requires
        foreground::pointer_flow(t, id, gesture).value matches Some(Err(_)),
    ensures
        text::word_of(id) is None || (gesture matches Gesture::Drag { path, .. } && path.len()
            == 0) || caused(
            t,
            foreground::pointer_flow(t, id, gesture).trail,
            Address { posted: false, window: text::word_of(id)->0 },
        ),
{
    broadcast use group_caused;

    let address = Address { posted: false, window: text::word_of(id)->0 };
    let settle = foreground::POINTER_SETTLE;
    let saved = t.plain(Plain::CursorPos);
    let input = |t: Trail| foreground::gesture_flow(t, gesture);
    let guard = ForegroundGuard::activate_flow(saved.trail, id, settle);
    assert(effects::within(t, saved.trail, anything()));
    if !(gesture matches Gesture::Drag { path, .. } && path.len() == 0) {
        lemma_injected_gesture(guard.trail, gesture, address);
        lemma_in_front(saved.trail, id, settle, input, address);
        let done = foreground::in_front_flow(saved.trail, id, settle, input);
        let back = foreground::restore_cursor_flow(
            done.trail,
            (saved.value->0).point_value(),
        );
        if let Some(point) = (saved.value->0).point_value() {
            lemma_asked(done.trail, Request::Plain(Plain::SetCursorPos { point }));
        }
        assert(effects::within(done.trail, back.trail, anything()));
    }
}

proof fn lemma_virtual_keys(
    t: Trail,
    keys: Seq<KeyName>,
    i: nat,
    so_far: Seq<u16>,
    address: Address,
)
    ensures
        ({
            let flow = foreground::virtual_keys_flow(t, keys, i, so_far);
            &&& flow.value matches Some(Err(_)) ==> any_untypable(keys) || caused(
                t,
                flow.trail,
                address,
            )
            &&& effects::within(t, flow.trail, anything())
        }),
    decreases keys.len() - i,
{
    broadcast use group_caused;

    if i < keys.len() {
        let found = emitter::virtual_key_flow(t, keys[i as int]);
        lemma_virtual_key(t, keys[i as int], address);
        assert(untypable(keys[i as int]) ==> any_untypable(keys));
        if let Some(Ok(vk)) = found.value {
            let more = so_far + emitter::implied_keys(vk.1) + seq![vk.0];
            lemma_virtual_keys(found.trail, keys, i + 1, more, address);
        }
    }
}

/// An injected chord fails for a reason: its identifier is no number, one of its
/// keys has no virtual key, or an answer stopped it.
pub proof fn law_injected_chord_fails_for_a_reason(t: Trail, id: Seq<char>, keys: Seq<KeyName>)
    requires
        foreground::key_chord_flow(t, id, keys).value matches Some(Err(_)),
    ensures
        text::word_of(id) is None || any_untypable(keys) || caused(
            t,
            foreground::key_chord_flow(t, id, keys).trail,
            Address { posted: false, window: text::word_of(id)->0 },
        ),
{
    broadcast use {group_caused, effects::key_events_within};

    let address = Address { posted: false, window: text::word_of(id)->0 };
    let settle = foreground::KEY_SETTLE;
    let found = foreground::virtual_keys_flow(t, keys, 0, Seq::empty());
    lemma_virtual_keys(t, keys, 0, Seq::empty(), address);
    if let Some(Ok(vks)) = found.value {
        let struck = foreground::strokes_flow(found.trail, vks);
        assert(effects::within(found.trail, struck.trail, anything()));
        if let Some(events) = struck.value {
            let input = |t: Trail|
                foreground::holding_flow(t, events.0, events.1, Injection::Nothing);
            let guard = ForegroundGuard::activate_flow(struck.trail, id, settle);
            lemma_holding(guard.trail, events.0, events.1, Injection::Nothing, address);
            lemma_in_front(struck.trail, id, settle, input, address);
        }
    }
}

/// Injected text fails for a reason: its identifier is no number, or an answer
/// stopped it.
pub proof fn law_injected_text_fails_for_a_reason(t: Trail, id: Seq<char>, content: Seq<char>)
    requires
        foreground::type_text_flow(t, id, content).value matches Some(Err(_)),
    ensures
        text::word_of(id) is None || caused(
            t,
            foreground::type_text_flow(t, id, content).trail,
            Address { posted: false, window: text::word_of(id)->0 },
        ),
{
    broadcast use {group_caused, effects::text_events_within};

    let address = Address { posted: false, window: text::word_of(id)->0 };
    let settle = foreground::KEY_SETTLE;
    let built = foreground::typed_events_flow(t, content);
    assert(effects::within(t, built.trail, anything()));
    if let Some(events) = built.value {
        let found = delivery::hwnd_flow(built.trail, id);
        lemma_hwnd(built.trail, id, address);
        if let Some(Ok(root)) = found.value {
            let supported = delivery::ensure_text_supported_flow(found.trail, id, root);
            lemma_text_supported(found.trail, id, root, address);
            let input = |t: Trail| foreground::send_flow(t, events);
            let guard = ForegroundGuard::activate_flow(supported.trail, id, settle);
            lemma_sent(guard.trail, events, address);
            lemma_in_front(supported.trail, id, settle, input, address);
        }
    }
}

/// Raising a window fails for a reason: its identifier is no number, the window
/// is gone, or it was not in front in time.
pub proof fn law_raising_fails_for_a_reason(t: Trail, id: Seq<char>)
    requires
        input::raise_window_flow(t, id).value matches Some(Err(_)),
    ensures
        text::word_of(id) is None || caused(
            t,
            input::raise_window_flow(t, id).trail,
            Address { posted: false, window: text::word_of(id)->0 },
        ),
{
    broadcast use {group_caused, effects::activate_within};

    let address = Address { posted: false, window: text::word_of(id)->0 };
    let found = delivery::hwnd_flow(t, id);
    lemma_hwnd(t, id, address);
    if let Some(Ok(window)) = found.value {
        let asked = found.trail.plain(Plain::IsIconic { window });
        let shown = input::restore_flow(found.trail, window);
        lemma_asked(found.trail, Request::Plain(Plain::IsIconic { window }));
        lemma_asked(asked.trail, Request::Plain(Plain::Restore { window }));
        assert(effects::within(found.trail, shown.trail, anything()));
        let active = activation::activate_flow(shown.trail, window);
        assert(effects::within(shown.trail, active.trail, anything()));
        lemma_waited(active.trail, window, address);
    }
}

} // verus!
