//! What a procedure that succeeded has done, in terms of its arguments and of
//! the answers it was given.
//!
//! A trail holds every call of a run. The laws here pick out of it the calls of
//! one kind, such as the mouse messages that were posted or the batches that
//! were injected, and say which these are, in which order, and that each of
//! them arrived.

use vstd::prelude::*;

use crate::error::{Fault, Outcome};
use crate::foreground::{ForegroundGuard, Injection};
use crate::keys::{KeyName, Modifiers, MouseButton};
use crate::request::{Gesture, InputEvent, Spot, TextUnit};
use crate::tape::{Flow, Plain, Reply, Request, Trail};
use crate::win32::{
    GA_ROOTOWNER, KEYEVENTF_EXTENDEDKEY, KEYEVENTF_KEYUP, KEYEVENTF_UNICODE, MOUSEEVENTF_ABSOLUTE,
    MOUSEEVENTF_HWHEEL, MOUSEEVENTF_LEFTDOWN, MOUSEEVENTF_LEFTUP, MOUSEEVENTF_MIDDLEDOWN,
    MOUSEEVENTF_MIDDLEUP, MOUSEEVENTF_MOVE, MOUSEEVENTF_RIGHTDOWN, MOUSEEVENTF_RIGHTUP,
    MOUSEEVENTF_VIRTUALDESK, MOUSEEVENTF_WHEEL, SM_CXVIRTUALSCREEN, SM_CYVIRTUALSCREEN,
    SM_XVIRTUALSCREEN, SM_YVIRTUALSCREEN, VK_CONTROL, VK_LWIN, VK_MENU, VK_NONAME, VK_RETURN,
    VK_SHIFT,
};
use crate::{activation, effects, emitter, foreground, global, keys, message, text};

verus! {

/// The calls of a kind among `calls`, in order. A kind may look at the answer.
pub open spec fn picks(
    replies: Seq<Reply>,
    calls: Seq<Request>,
    kind: spec_fn(Request, Reply) -> bool,
) -> Seq<Request>
    decreases calls.len(),
{
    if calls.len() == 0 {
        Seq::empty()
    } else {
        let before = picks(replies, calls.drop_last(), kind);
        if kind(calls.last(), replies[calls.len() - 1]) {
            before.push(calls.last())
        } else {
            before
        }
    }
}

/// The calls of a kind in a trail, in order.
pub open spec fn picked(u: Trail, kind: spec_fn(Request, Reply) -> bool) -> Seq<Request> {
    picks(u.replies, u.calls, kind)
}

pub(crate) broadcast proof fn picked_ask(
    t: Trail,
    call: Request,
    kind: spec_fn(Request, Reply) -> bool,
)
    requires
        t.ask(call).value is Some,
    ensures
        #[trigger] picked(t.ask(call).trail, kind) == if kind(call, t.upcoming(0)) {
            picked(t, kind).push(call)
        } else {
            picked(t, kind)
        },
{
    assert(t.calls.push(call).drop_last() =~= t.calls);
}

proof fn lemma_picks_of_none(
    replies: Seq<Reply>,
    calls: Seq<Request>,
    from: nat,
    n: nat,
    kind: spec_fn(Request, Reply) -> bool,
)
    requires
        from <= n <= calls.len(),
        forall|i: int| from <= i < n ==> !kind(#[trigger] calls[i], replies[i]),
    ensures
        picks(replies, calls.take(n as int), kind) == picks(replies, calls.take(from as int), kind),
    decreases n,
{
    if from < n {
        lemma_picks_of_none(replies, calls, from, (n - 1) as nat, kind);
        let taken = calls.take(n as int);
        assert(taken.drop_last() =~= calls.take(n - 1));
        assert(taken.last() == calls[n - 1]);
    }
}

/// Calls that are not of a kind leave what was picked as it was.
pub(crate) proof fn lemma_none_picked(
    t: Trail,
    later: Trail,
    permitted: spec_fn(Request) -> bool,
    kind: spec_fn(Request, Reply) -> bool,
)
    requires
        effects::within(t, later, permitted),
        forall|call: Request, reply: Reply| #[trigger]
            kind(call, reply) ==> !permitted(call),
    ensures
        picked(later, kind) == picked(t, kind),
{
    reveal(effects::within);
    assert(later.calls.take(t.calls.len() as int) =~= t.calls);
    assert(later.calls.take(later.calls.len() as int) =~= later.calls);
    lemma_picks_of_none(later.replies, later.calls, t.calls.len(), later.calls.len(), kind);
}

/// The batch that only makes this process the source of the most recent input.
pub open spec fn nudge() -> Seq<InputEvent> {
    seq![
        InputEvent::Keyboard { vk: VK_NONAME, scan: 0, flags: 0 },
        InputEvent::Keyboard { vk: VK_NONAME, scan: 0, flags: KEYEVENTF_KEYUP },
    ]
}

/// Batches of injected input but for the nudge; where `arrived`, only those
/// that were inserted whole.
pub open spec fn batch(arrived: bool) -> spec_fn(Request, Reply) -> bool {
    |call: Request, reply: Reply|
        match call {
            Request::SendInput { events } => events != nudge() && (arrived ==> reply.word_value()
                == events.len()),
            _ => false,
        }
}

/// The call that injects these events, where there are any.
pub open spec fn sending(events: Seq<InputEvent>) -> Seq<Request> {
    if events.len() == 0 {
        Seq::empty()
    } else {
        seq![Request::SendInput { events }]
    }
}

proof fn lemma_send(t: Trail, events: Seq<InputEvent>, arrived: bool)
    requires
        foreground::send_flow(t, events).value == Some(Ok::<(), Fault>(())),
        events != nudge(),
    ensures
        picked(foreground::send_flow(t, events).trail, batch(arrived)) == picked(t, batch(arrived))
            + sending(events),
        effects::extends(t, foreground::send_flow(t, events).trail),
{
    broadcast use picked_ask;

    if events.len() > 0 {
        let call = Request::SendInput { events };
        assert(picked(t, batch(arrived)).push(call) =~= picked(t, batch(arrived)) + seq![call]);
    } else {
        assert(picked(t, batch(arrived)) + Seq::<Request>::empty() =~= picked(t, batch(arrived)));
    }
}

/// Whether `d` is where a pixel lies on an axis that begins at pixel `origin`
/// and is `extent` pixels long, on a scale from 0 to 65535: its two ends are the
/// ends of the scale, and between them it is rounded down.
pub open spec fn scaled(at: int, origin: int, extent: int, d: int) -> bool {
    &&& 0 <= d <= 65535
    &&& at <= origin ==> d == 0
    &&& at >= origin + extent - 1 ==> d == 65535
    &&& origin < at < origin + extent - 1 ==> d * (extent - 1) <= (at - origin) * 65535 < (d + 1)
        * (extent - 1)
}

/// Whether at index `i` of a trail the spot was located and the virtual desktop
/// measured, and `event` moves the pointer to that point of it.
pub open spec fn aimed_at(u: Trail, i: int, at: Spot, event: InputEvent) -> bool {
    &&& 0 <= i
    &&& i + 5 <= u.calls.len()
    &&& u.calls[i] == Request::Plain(Plain::Locate { at })
    &&& u.calls[i + 1] == Request::Plain(Plain::Metric { metric: SM_XVIRTUALSCREEN })
    &&& u.calls[i + 2] == Request::Plain(Plain::Metric { metric: SM_YVIRTUALSCREEN })
    &&& u.calls[i + 3] == Request::Plain(Plain::Metric { metric: SM_CXVIRTUALSCREEN })
    &&& u.calls[i + 4] == Request::Plain(Plain::Metric { metric: SM_CYVIRTUALSCREEN })
    &&& u.replies[i].located_value() is Ok
    &&& u.replies[i + 3].signed_value() > 1
    &&& u.replies[i + 4].signed_value() > 1
    &&& event matches InputEvent::Mouse { dx, dy, data, flags } && {
        let point = u.replies[i].located_value()->Ok_0;
        &&& scaled(
            point.x as int,
            u.replies[i + 1].signed_value() as int,
            u.replies[i + 3].signed_value() as int,
            dx as int,
        )
        &&& scaled(
            point.y as int,
            u.replies[i + 2].signed_value() as int,
            u.replies[i + 4].signed_value() as int,
            dy as int,
        )
        &&& data == 0
        &&& flags == MOUSEEVENTF_MOVE + MOUSEEVENTF_ABSOLUTE + MOUSEEVENTF_VIRTUALDESK
    }
}

/// Whether `event` moves the pointer to a spot that was located in this trail.
pub open spec fn aimed(u: Trail, at: Spot, event: InputEvent) -> bool {
    exists|i: int| #[trigger] aimed_at(u, i, at, event)
}

proof fn lemma_aim_is_kept(u: Trail, v: Trail, at: Spot, event: InputEvent)
    requires
        effects::extends(u, v),
        aimed(u, at, event),
    ensures
        aimed(v, at, event),
{
    let i = choose|i: int| #[trigger] aimed_at(u, i, at, event);
    assert(v.calls[i] == u.calls[i]);
    assert(v.calls[i + 1] == u.calls[i + 1]);
    assert(v.calls[i + 2] == u.calls[i + 2]);
    assert(v.calls[i + 3] == u.calls[i + 3]);
    assert(v.calls[i + 4] == u.calls[i + 4]);
    assert(aimed_at(v, i, at, event));
}

proof fn lemma_axis_is_scaled(at: int, origin: int, extent: int)
    requires
        extent > 1,
    ensures
        scaled(at, origin, extent, message::axis_position(at, origin, extent)),
{
    let d = message::axis_position(at, origin, extent);
    let offset = at - origin;
    let length = extent - 1;
    if offset > 0 {
        let q = offset * 65535 / length;
        assert(q * length <= offset * 65535 < (q + 1) * length && q >= 0) by (nonlinear_arith)
            requires
                q == offset * 65535 / length,
                offset > 0,
                length > 0,
        ;
        if offset >= length {
            assert(q >= 65535) by (nonlinear_arith)
                requires
                    q == offset * 65535 / length,
                    offset >= length,
                    length > 0,
            ;
        } else {
            assert(q <= 65535) by (nonlinear_arith)
                requires
                    q == offset * 65535 / length,
                    0 < offset < length,
            ;
        }
    }
}

/// An absolute move points where the located spot lies on the virtual desktop,
/// whatever its origin. It fails only where the spot cannot be located or the
/// desktop has no size.
pub proof fn law_move_lands_on_its_spot(t: Trail, at: Spot)
    requires
        foreground::move_event_flow(t, at).value is Some,
    ensures
        ({
            let end = foreground::move_event_flow(t, at);
            let located = t.upcoming(0).located_value();
            &&& located is Err ==> end.value == Some(Err::<InputEvent, Fault>(located->Err_0))
            &&& end.value->0 is Err <==> (located is Err || t.upcoming(3).signed_value() <= 1
                || t.upcoming(4).signed_value() <= 1)
            &&& end.value matches Some(Ok(event)) ==> end.trail.calls.len() == t.calls.len() + 5
                && aimed_at(end.trail, t.calls.len() as int, at, event)
        }),
{
    let end = foreground::move_event_flow(t, at);
    if let Some(Ok(event)) = end.value {
        let point = t.upcoming(0).located_value()->Ok_0;
        lemma_axis_is_scaled(
            point.x as int,
            t.upcoming(1).signed_value() as int,
            t.upcoming(3).signed_value() as int,
        );
        lemma_axis_is_scaled(
            point.y as int,
            t.upcoming(2).signed_value() as int,
            t.upcoming(4).signed_value() as int,
        );
        assert(1u32 | 32768u32 | 16384u32 == 49153u32) by (bit_vector);
        assert(aimed_at(end.trail, t.calls.len() as int, at, event));
    }
}

proof fn lemma_moved(t: Trail, at: Spot, event: InputEvent, arrived: bool)
    requires
        foreground::move_event_flow(t, at).value == Some(Ok::<InputEvent, Fault>(event)),
    ensures
        ({
            let end = foreground::move_event_flow(t, at).trail;
            &&& picked(end, batch(arrived)) == picked(t, batch(arrived))
            &&& effects::extends(t, end)
            &&& end.calls.len() == t.calls.len() + 5
            &&& aimed(end, at, event)
            &&& event is Mouse
        }),
{
    broadcast use picked_ask;

    law_move_lands_on_its_spot(t, at);
}

/// A mouse event that presses or releases a button where the pointer is.
pub open spec fn button_event(flags: u32) -> InputEvent {
    InputEvent::Mouse { dx: 0, dy: 0, data: 0, flags }
}

/// The event that presses a button.
pub open spec fn press_of(button: MouseButton) -> InputEvent {
    button_event(
        match button {
            MouseButton::Left => MOUSEEVENTF_LEFTDOWN,
            MouseButton::Right => MOUSEEVENTF_RIGHTDOWN,
            MouseButton::Middle => MOUSEEVENTF_MIDDLEDOWN,
        },
    )
}

/// The event that releases a button.
pub open spec fn release_of(button: MouseButton) -> InputEvent {
    button_event(
        match button {
            MouseButton::Left => MOUSEEVENTF_LEFTUP,
            MouseButton::Right => MOUSEEVENTF_RIGHTUP,
            MouseButton::Middle => MOUSEEVENTF_MIDDLEUP,
        },
    )
}

/// A transition of a virtual key with its scan code.
pub open spec fn stroke(vk: u16, up: bool, scan: u32) -> InputEvent {
    InputEvent::Keyboard {
        vk,
        scan: (scan % 0x1_0000) as u16,
        flags: ((if up {
            KEYEVENTF_KEYUP as int
        } else {
            0
        }) + (if keys::extended(vk) {
            KEYEVENTF_EXTENDEDKEY as int
        } else {
            0
        })) as u32,
    }
}

/// Whether these events press the virtual keys in order, each with the scan
/// code that was looked up for it, from index `from` of the trail on.
pub open spec fn presses_at(u: Trail, from: nat, vks: Seq<u16>, events: Seq<InputEvent>) -> bool {
    &&& events.len() == vks.len()
    &&& forall|j: int|
        0 <= j < vks.len() ==> #[trigger] events[j] == stroke(
            vks[j],
            false,
            u.replies[from + j].word_value(),
        ) && u.calls[from + j] == Request::Plain(Plain::MapVirtualKey { vk: vks[j] })
}

/// Whether these events release the virtual keys in reverse, each with the scan
/// code that was looked up for it, from index `from` of the trail on.
pub open spec fn releases_at(u: Trail, from: nat, vks: Seq<u16>, events: Seq<InputEvent>) -> bool {
    &&& events.len() == vks.len()
    &&& forall|j: int|
        0 <= j < vks.len() ==> #[trigger] events[j] == stroke(
            vks[vks.len() - 1 - j],
            true,
            u.replies[from + j].word_value(),
        ) && u.calls[from + j] == Request::Plain(
            Plain::MapVirtualKey { vk: vks[vks.len() - 1 - j] },
        )
}

proof fn lemma_stroke(vk: u16, up: bool, scan: u32)
    ensures
        message::key_input(vk, up, scan) == stroke(vk, up, scan),
{
    assert(0u32 | 0u32 == 0u32 && 2u32 | 0u32 == 2u32 && 0u32 | 1u32 == 1u32 && 2u32 | 1u32
        == 3u32) by (bit_vector);
}

proof fn lemma_key_events(
    t: Trail,
    vks: Seq<u16>,
    up: bool,
    i: nat,
    so_far: Seq<InputEvent>,
    kind: spec_fn(Request, Reply) -> bool,
)
    requires
        i <= vks.len(),
        foreground::key_events_flow(t, vks, up, i, so_far).value is Some,
        forall|vk: u16, reply: Reply| !#[trigger]
            kind(Request::Plain(Plain::MapVirtualKey { vk }), reply),
    ensures
        ({
            let flow = foreground::key_events_flow(t, vks, up, i, so_far);
            let end = flow.trail;
            let events = flow.value->0;
            &&& effects::extends(t, end)
            &&& picked(end, kind) == picked(t, kind)
            &&& end.calls.len() == t.calls.len() + vks.len() - i
            &&& events.len() == so_far.len() + vks.len() - i
            &&& forall|j: int| 0 <= j < so_far.len() ==> events[j] == #[trigger] so_far[j]
            &&& forall|j: int|
                i <= j < vks.len() ==> events[so_far.len() + j - i] == stroke(
                    #[trigger] vks[j],
                    up,
                    t.replies[t.calls.len() + j - i].word_value(),
                ) && end.calls[t.calls.len() + j - i] == Request::Plain(
                    Plain::MapVirtualKey { vk: vks[j] },
                )
        }),
    decreases vks.len() - i,
{
    broadcast use picked_ask;

    if i < vks.len() {
        let event = foreground::key_event_flow(t, vks[i as int], up);
        let more = so_far.push(event.value->0);
        lemma_key_events(event.trail, vks, up, i + 1, more, kind);
        lemma_stroke(vks[i as int], up, t.upcoming(0).word_value());
        let flow = foreground::key_events_flow(t, vks, up, i, so_far);
        let events = flow.value->0;
        let at = t.calls.len() as int;
        assert(flow.trail.calls[at] == event.trail.calls[at]);
        assert forall|k: int| 0 <= k < t.calls.len() implies flow.trail.calls[k]
            == #[trigger] t.calls[k] by {
            assert(flow.trail.calls[k] == event.trail.calls[k]);
        }
        assert forall|j: int| 0 <= j < so_far.len() implies events[j] == #[trigger] so_far[j] by {
            assert(more[j] == so_far[j]);
        }
        assert(events[so_far.len() as int] == more[so_far.len() as int]);
    }
}

proof fn lemma_strokes(t: Trail, vks: Seq<u16>, kind: spec_fn(Request, Reply) -> bool)
    requires
        foreground::strokes_flow(t, vks).value is Some,
        forall|vk: u16, reply: Reply| !#[trigger]
            kind(Request::Plain(Plain::MapVirtualKey { vk }), reply),
    ensures
        ({
            let flow = foreground::strokes_flow(t, vks);
            let (presses, releases) = flow.value->0;
            &&& effects::extends(t, flow.trail)
            &&& picked(flow.trail, kind) == picked(t, kind)
            &&& flow.trail.calls.len() == t.calls.len() + 2 * vks.len()
            &&& presses_at(flow.trail, t.calls.len(), vks, presses)
            &&& releases_at(flow.trail, t.calls.len() + vks.len(), vks, releases)
        }),
{
    let down = foreground::key_events_flow(t, vks, false, 0, Seq::empty());
    let u = down.trail;
    lemma_key_events(t, vks, false, 0, Seq::empty(), kind);
    lemma_key_events(u, vks.reverse(), true, 0, Seq::empty(), kind);
    let flow = foreground::strokes_flow(t, vks);
    let (presses, releases) = flow.value->0;
    assert forall|k: int| 0 <= k < t.calls.len() implies flow.trail.calls[k]
        == #[trigger] t.calls[k] by {
        assert(flow.trail.calls[k] == u.calls[k]);
    }
    assert forall|j: int| 0 <= j < vks.len() implies #[trigger] presses[j] == stroke(
        vks[j],
        false,
        flow.trail.replies[t.calls.len() + j].word_value(),
    ) && flow.trail.calls[t.calls.len() + j] == Request::Plain(
        Plain::MapVirtualKey { vk: vks[j] },
    ) by {
        assert(vks[j] == vks[j]);
        assert(flow.trail.calls[t.calls.len() + j] == u.calls[t.calls.len() + j]);
    }
    assert forall|j: int| 0 <= j < vks.len() implies #[trigger] releases[j] == stroke(
        vks[vks.len() - 1 - j],
        true,
        flow.trail.replies[t.calls.len() + vks.len() + j].word_value(),
    ) && flow.trail.calls[t.calls.len() + vks.len() + j] == Request::Plain(
        Plain::MapVirtualKey { vk: vks[vks.len() - 1 - j] },
    ) by {
        assert(vks.reverse()[j] == vks[vks.len() - 1 - j]);
    }
}

/// Virtual keys of the modifiers that are held, in the order they go down.
pub open spec fn held_codes(modifiers: Modifiers) -> Seq<u16> {
    (if modifiers.ctrl {
        seq![VK_CONTROL]
    } else {
        seq![]
    }) + (if modifiers.alt {
        seq![VK_MENU]
    } else {
        seq![]
    }) + (if modifiers.shift {
        seq![VK_SHIFT]
    } else {
        seq![]
    }) + (if modifiers.meta {
        seq![VK_LWIN]
    } else {
        seq![]
    })
}

pub(crate) proof fn lemma_held_codes(modifiers: Modifiers)
    ensures
        foreground::modifier_codes(modifiers) == held_codes(modifiers),
        forall|j: int|
            0 <= j < held_codes(modifiers).len() ==> #[trigger] held_codes(modifiers)[j]
                != VK_NONAME,
{
    assert(foreground::modifier_codes(modifiers) =~= held_codes(modifiers));
}

/// `n` times the same call.
pub open spec fn repeated(call: Request, n: nat) -> Seq<Request> {
    Seq::new(n, |i: int| call)
}

proof fn lemma_injected_clicks(
    t: Trail,
    at: InputEvent,
    button: MouseButton,
    left: nat,
    arrived: bool,
)
    requires
        foreground::clicks_flow(t, at, button, left).value == Some(Ok::<(), Fault>(())),
        at is Mouse,
    ensures
        ({
            let end = foreground::clicks_flow(t, at, button, left).trail;
            let click = Request::SendInput { events: seq![at, press_of(button), release_of(button)] };
            &&& effects::extends(t, end)
            &&& picked(end, batch(arrived)) == picked(t, batch(arrived)) + repeated(click, left)
        }),
    decreases left,
{
    let events = seq![at, press_of(button), release_of(button)];
    let click = Request::SendInput { events };
    let kind = batch(arrived);
    if left > 0 {
        assert(foreground::click_events(at, button) =~= events);
        assert(events[0] is Mouse);
        assert(nudge()[0] is Keyboard);
        let sent = foreground::send_flow(t, events);
        lemma_send(t, events, arrived);
        lemma_injected_clicks(sent.trail, at, button, (left - 1) as nat, arrived);
        let end = foreground::clicks_flow(t, at, button, left).trail;
        assert forall|k: int| 0 <= k < t.calls.len() implies end.calls[k] == #[trigger] t.calls[k] by {
            assert(end.calls[k] == sent.trail.calls[k]);
        }
        assert(picked(t, kind) + seq![click] + repeated(click, (left - 1) as nat) =~= picked(t, kind)
            + repeated(click, left));
    } else {
        assert(picked(t, kind) + repeated(click, 0) =~= picked(t, kind));
    }
}

/// The calls that inject one event each.
pub open spec fn singles(events: Seq<InputEvent>) -> Seq<Request> {
    Seq::new(events.len(), |i: int| Request::SendInput { events: seq![events[i]] })
}

proof fn lemma_injected_moves(t: Trail, path: Seq<Spot>, i: nat, arrived: bool) -> (spots: Seq<
    InputEvent,
>)
    requires
        foreground::moves_flow(t, path, i).value == Some(Ok::<(), Fault>(())),
    ensures
        ({
            let end = foreground::moves_flow(t, path, i).trail;
            &&& effects::extends(t, end)
            &&& picked(end, batch(arrived)) == picked(t, batch(arrived)) + singles(spots)
            &&& spots.len() == if i < path.len() {
                path.len() - i
            } else {
                0
            }
            &&& forall|j: int|
                0 <= j < spots.len() ==> aimed(end, path[i + j], #[trigger] spots[j])
        }),
    decreases path.len() - i,
{
    broadcast use picked_ask;

    let kind = batch(arrived);
    if i >= path.len() {
        assert(picked(t, kind) + singles(Seq::empty()) =~= picked(t, kind));
        Seq::empty()
    } else {
        let slept = t.plain(Plain::Sleep { millis: foreground::DRAG_STEP });
        let moved = foreground::move_event_flow(slept.trail, path[i as int]);
        let event = (moved.value->0)->Ok_0;
        lemma_moved(slept.trail, path[i as int], event, arrived);
        assert(seq![event][0] is Mouse);
        assert(nudge()[0] is Keyboard);
        let sent = foreground::send_flow(moved.trail, seq![event]);
        lemma_send(moved.trail, seq![event], arrived);
        let rest = lemma_injected_moves(sent.trail, path, i + 1, arrived);
        let spots = seq![event] + rest;
        let end = foreground::moves_flow(t, path, i).trail;
        lemma_extends(slept.trail, moved.trail, sent.trail);
        lemma_extends(slept.trail, sent.trail, end);
        lemma_extends(t, slept.trail, end);
        lemma_extends(moved.trail, sent.trail, end);
        lemma_aim_is_kept(moved.trail, end, path[i as int], event);
        assert(singles(spots) =~= seq![Request::SendInput { events: seq![event] }] + singles(rest));
        assert(picked(t, kind) + seq![Request::SendInput { events: seq![event] }] + singles(rest)
            =~= picked(t, kind) + singles(spots));
        assert forall|j: int| 0 <= j < spots.len() implies aimed(
            end,
            path[i + j],
            #[trigger] spots[j],
        ) by {
            if j > 0 {
                assert(spots[j] == rest[j - 1]);
                assert(path[i + j] == path[(i + 1) + (j - 1)]);
            }
        }
        spots
    }
}

pub(crate) proof fn lemma_extends(t: Trail, u: Trail, v: Trail)
    requires
        effects::extends(t, u),
        effects::extends(u, v),
    ensures
        effects::extends(t, v),
{
    assert forall|k: int| 0 <= k < t.calls.len() implies v.calls[k] == #[trigger] t.calls[k] by {
        assert(v.calls[k] == u.calls[k]);
    }
}

pub(crate) proof fn lemma_success(outcome: Outcome)
    requires
        outcome is Ok,
    ensures
        outcome == Ok::<(), Fault>(()),
{
    assert(outcome->Ok_0 == ());
}

proof fn lemma_holding(
    t: Trail,
    presses: Seq<InputEvent>,
    releases: Seq<InputEvent>,
    injection: Injection<Seq<Spot>>,
    arrived: bool,
)
    requires
        foreground::holding_flow(t, presses, releases, injection).value == Some(
            Ok::<(), Fault>(()),
        ),
        presses != nudge(),
        releases != nudge(),
    ensures
        ({
            let end = foreground::holding_flow(t, presses, releases, injection).trail;
            let pressed = foreground::send_flow(t, presses);
            let done = foreground::injection_flow(pressed.trail, injection);
            &&& effects::extends(t, pressed.trail)
            &&& picked(pressed.trail, batch(arrived)) == picked(t, batch(arrived)) + sending(
                presses,
            )
            &&& done.value == Some(Ok::<(), Fault>(()))
            &&& picked(end, batch(arrived)) == picked(done.trail, batch(arrived)) + sending(
                releases,
            )
            &&& effects::extends(done.trail, end)
        }),
{
    let pressed = foreground::send_flow(t, presses);
    let done = foreground::injection_flow(pressed.trail, injection);
    let released = foreground::send_flow(done.trail, releases);
    let end = foreground::holding_flow(t, presses, releases, injection);
    assert(pressed.value is Some);
    assert(pressed.value->0 is Ok);
    assert(done.value is Some);
    assert(released.value is Some);
    assert(end.value == Some(global::first_failure(done.value->0, released.value->0)));
    lemma_success(done.value->0);
    lemma_send(t, presses, arrived);
    lemma_send(done.trail, releases, arrived);
}

proof fn lemma_no_nudge(u: Trail, from: nat, vks: Seq<u16>, presses: Seq<InputEvent>, releases: Seq<
    InputEvent,
>)
    requires
        presses_at(u, from, vks, presses),
        releases_at(u, from + vks.len(), vks, releases),
    ensures
        presses != nudge(),
        releases != nudge(),
{
    assert(nudge().len() == 2);
    assert(nudge()[0] == InputEvent::Keyboard { vk: VK_NONAME, scan: 0, flags: 0 });
    assert(nudge()[1] == InputEvent::Keyboard { vk: VK_NONAME, scan: 0, flags: KEYEVENTF_KEYUP });
    if presses == nudge() {
        assert(presses[0] == nudge()[0]);
        assert(presses[1] == nudge()[1]);
    }
    if releases == nudge() {
        assert(releases[0] == nudge()[0]);
        assert(releases[1] == nudge()[1]);
    }
}

proof fn lemma_looked_up_is_kept(
    u: Trail,
    v: Trail,
    from: nat,
    vks: Seq<u16>,
    presses: Seq<InputEvent>,
    releases: Seq<InputEvent>,
)
    requires
        effects::extends(u, v),
        from + 2 * vks.len() <= u.calls.len(),
        presses_at(u, from, vks, presses),
        releases_at(u, from + vks.len(), vks, releases),
    ensures
        presses_at(v, from, vks, presses),
        releases_at(v, from + vks.len(), vks, releases),
{
    assert forall|j: int| 0 <= j < vks.len() implies #[trigger] presses[j] == stroke(
        vks[j],
        false,
        v.replies[from + j].word_value(),
    ) && v.calls[from + j] == Request::Plain(Plain::MapVirtualKey { vk: vks[j] }) by {
        assert(v.calls[from + j] == u.calls[from + j]);
    }
    assert forall|j: int| 0 <= j < vks.len() implies #[trigger] releases[j] == stroke(
        vks[vks.len() - 1 - j],
        true,
        v.replies[from + vks.len() + j].word_value(),
    ) && v.calls[from + vks.len() + j] == Request::Plain(
        Plain::MapVirtualKey { vk: vks[vks.len() - 1 - j] },
    ) by {
        assert(v.calls[from + vks.len() + j] == u.calls[from + vks.len() + j]);
    }
}

proof fn lemma_with_modifiers(
    t: Trail,
    modifiers: Modifiers,
    injection: Injection<Seq<Spot>>,
    arrived: bool,
) -> (held: (Trail, Seq<InputEvent>, Seq<InputEvent>))
    requires
        foreground::with_modifiers_flow(t, modifiers, injection).value == Some(Ok::<(), Fault>(())),
    ensures
        ({
            let (u, presses, releases) = held;
            let vks = held_codes(modifiers);
            let done = foreground::injection_flow(u, injection);
            let end = foreground::with_modifiers_flow(t, modifiers, injection).trail;
            &&& effects::extends(t, u)
            &&& picked(u, batch(arrived)) == picked(t, batch(arrived)) + sending(presses)
            &&& t.calls.len() + 2 * vks.len() <= u.calls.len()
            &&& presses_at(u, t.calls.len(), vks, presses)
            &&& releases_at(u, t.calls.len() + vks.len(), vks, releases)
            &&& done.value == Some(Ok::<(), Fault>(()))
            &&& effects::extends(done.trail, end)
            &&& picked(end, batch(arrived)) == picked(done.trail, batch(arrived)) + sending(
                releases,
            )
        }),
{
    let vks = held_codes(modifiers);
    lemma_held_codes(modifiers);
    let struck = foreground::strokes_flow(t, vks);
    lemma_strokes(t, vks, batch(arrived));
    let (presses, releases) = struck.value->0;
    lemma_no_nudge(struck.trail, t.calls.len(), vks, presses, releases);
    lemma_holding(struck.trail, presses, releases, injection, arrived);
    let u = foreground::send_flow(struck.trail, presses).trail;
    lemma_extends(t, struck.trail, u);
    lemma_looked_up_is_kept(struck.trail, u, t.calls.len(), vks, presses, releases);
    (u, presses, releases)
}

/// An injected click that succeeded held the modifiers of the gesture, and in
/// between sent one batch for each click: a move to the spot, and a press and a
/// release of the button that the gesture names.
pub proof fn law_injected_click(
    t: Trail,
    at: Spot,
    button: MouseButton,
    count: u32,
    modifiers: Modifiers,
    arrived: bool,
) -> (sent: (InputEvent, Seq<InputEvent>, Seq<InputEvent>))
    requires
        foreground::gesture_flow(t, Gesture::Click { at, button, count, modifiers }).value == Some(
            Ok::<(), Fault>(()),
        ),
    ensures
        ({
            let end = foreground::gesture_flow(
                t,
                Gesture::Click { at, button, count, modifiers },
            ).trail;
            let (spot, presses, releases) = sent;
            let vks = held_codes(modifiers);
            &&& effects::extends(t, end)
            &&& aimed(end, at, spot)
            &&& presses_at(end, t.calls.len() + 5, vks, presses)
            &&& releases_at(end, t.calls.len() + 5 + vks.len(), vks, releases)
            &&& picked(end, batch(arrived)) == picked(t, batch(arrived)) + sending(presses)
                + repeated(
                Request::SendInput { events: seq![spot, press_of(button), release_of(button)] },
                count as nat,
            ) + sending(releases)
        }),
{
    let moved = foreground::move_event_flow(t, at);
    let spot = (moved.value->0)->Ok_0;
    lemma_moved(t, at, spot, arrived);
    let injection = Injection::Clicks { at: spot, button, count };
    let (u, presses, releases) = lemma_with_modifiers(moved.trail, modifiers, injection, arrived);
    lemma_injected_clicks(u, spot, button, count as nat, arrived);
    let done = foreground::injection_flow(u, injection).trail;
    let end = foreground::gesture_flow(t, Gesture::Click { at, button, count, modifiers }).trail;
    lemma_extends(u, done, end);
    lemma_extends(moved.trail, u, end);
    lemma_extends(t, moved.trail, end);
    lemma_aim_is_kept(moved.trail, end, at, spot);
    let vks = held_codes(modifiers);
    lemma_looked_up_is_kept(u, end, moved.trail.calls.len(), vks, presses, releases);
    (spot, presses, releases)
}

/// An injected move that succeeded sent one batch: a move to the spot.
pub proof fn law_injected_move(t: Trail, at: Spot, arrived: bool) -> (spot: InputEvent)
    requires
        foreground::gesture_flow(t, Gesture::Move { at }).value == Some(Ok::<(), Fault>(())),
    ensures
        ({
            let end = foreground::gesture_flow(t, Gesture::Move { at }).trail;
            &&& effects::extends(t, end)
            &&& aimed(end, at, spot)
            &&& picked(end, batch(arrived)) == picked(t, batch(arrived)).push(
                Request::SendInput { events: seq![spot] },
            )
        }),
{
    lemma_sent_move(t, at, arrived)
}

proof fn lemma_sent_move(t: Trail, at: Spot, arrived: bool) -> (spot: InputEvent)
    requires
        foreground::send_move_flow(t, at).value == Some(Ok::<(), Fault>(())),
    ensures
        ({
            let end = foreground::send_move_flow(t, at).trail;
            &&& effects::extends(t, end)
            &&& aimed(end, at, spot)
            &&& picked(end, batch(arrived)) == picked(t, batch(arrived)).push(
                Request::SendInput { events: seq![spot] },
            )
        }),
{
    let moved = foreground::move_event_flow(t, at);
    let spot = (moved.value->0)->Ok_0;
    lemma_moved(t, at, spot, arrived);
    assert(seq![spot][0] is Mouse);
    assert(nudge()[0] is Keyboard);
    lemma_send(moved.trail, seq![spot], arrived);
    let end = foreground::send_move_flow(t, at).trail;
    lemma_extends(t, moved.trail, end);
    lemma_aim_is_kept(moved.trail, end, at, spot);
    assert(picked(end, batch(arrived)) =~= picked(t, batch(arrived)).push(
        Request::SendInput { events: seq![spot] },
    ));
    spot
}

proof fn lemma_injected_drag(
    t: Trail,
    start: InputEvent,
    path: Seq<Spot>,
    button: MouseButton,
    arrived: bool,
) -> (rest: Seq<InputEvent>)
    requires
        foreground::injection_flow(t, Injection::Drag { start, path, button }).value == Some(
            Ok::<(), Fault>(()),
        ),
        start is Mouse,
        path.len() > 0,
    ensures
        ({
            let end = foreground::injection_flow(t, Injection::Drag { start, path, button }).trail;
            &&& effects::extends(t, end)
            &&& rest.len() == path.len() - 1
            &&& forall|j: int| 0 <= j < rest.len() ==> aimed(end, path[1 + j], #[trigger] rest[j])
            &&& picked(end, batch(arrived)) == picked(t, batch(arrived)) + seq![
                Request::SendInput { events: seq![start, press_of(button)] },
            ] + singles(rest) + seq![Request::SendInput { events: seq![release_of(button)] }]
        }),
{
    let (down, up) = message::injected_button(button);
    let grab = seq![start, press_of(button)];
    let drop = seq![release_of(button)];
    assert(seq![start, message::mouse_input(down, 0)] =~= grab);
    assert(seq![message::mouse_input(up, 0)] =~= drop);
    assert(grab[0] is Mouse && drop[0] is Mouse && nudge()[0] is Keyboard);
    let grabbed = foreground::send_flow(t, grab);
    let followed = foreground::moves_flow(grabbed.trail, path, 1);
    let dropped = foreground::send_flow(followed.trail, drop);
    let end = foreground::injection_flow(t, Injection::Drag { start, path, button });
    assert(end.value == Some(global::first_failure(followed.value->0, dropped.value->0)));
    lemma_success(followed.value->0);
    lemma_success(dropped.value->0);
    lemma_send(t, grab, arrived);
    let rest = lemma_injected_moves(grabbed.trail, path, 1, arrived);
    lemma_send(followed.trail, drop, arrived);
    lemma_extends(grabbed.trail, followed.trail, end.trail);
    lemma_extends(t, grabbed.trail, end.trail);
    assert forall|j: int| 0 <= j < rest.len() implies aimed(
        end.trail,
        path[1 + j],
        #[trigger] rest[j],
    ) by {
        lemma_aim_is_kept(followed.trail, end.trail, path[1 + j], rest[j]);
    }
    rest
}

/// An injected drag that succeeded held the modifiers of the gesture, and in
/// between moved to its first point and pressed the button that the gesture
/// names, moved once to each further point, and released that button.
pub proof fn law_injected_drag(
    t: Trail,
    path: Seq<Spot>,
    button: MouseButton,
    modifiers: Modifiers,
    arrived: bool,
) -> (sent: (Seq<InputEvent>, Seq<InputEvent>, Seq<InputEvent>))
    requires
        foreground::gesture_flow(t, Gesture::Drag { path, button, modifiers }).value == Some(
            Ok::<(), Fault>(()),
        ),
    ensures
        path.len() > 0,
        ({
            let end = foreground::gesture_flow(t, Gesture::Drag { path, button, modifiers }).trail;
            let (spots, presses, releases) = sent;
            let vks = held_codes(modifiers);
            &&& effects::extends(t, end)
            &&& spots.len() == path.len()
            &&& forall|j: int| 0 <= j < path.len() ==> aimed(end, path[j], #[trigger] spots[j])
            &&& presses_at(end, t.calls.len() + 5, vks, presses)
            &&& releases_at(end, t.calls.len() + 5 + vks.len(), vks, releases)
            &&& picked(end, batch(arrived)) == picked(t, batch(arrived)) + sending(presses) + seq![
                Request::SendInput { events: seq![spots[0], press_of(button)] },
            ] + singles(spots.skip(1)) + seq![
                Request::SendInput { events: seq![release_of(button)] },
            ] + sending(releases)
        }),
{
    let moved = foreground::move_event_flow(t, path[0]);
    let start = (moved.value->0)->Ok_0;
    lemma_moved(t, path[0], start, arrived);
    let injection = Injection::Drag { start, path, button };
    let (u, presses, releases) = lemma_with_modifiers(moved.trail, modifiers, injection, arrived);
    let rest = lemma_injected_drag(u, start, path, button, arrived);
    let done = foreground::injection_flow(u, injection);
    let end = foreground::gesture_flow(t, Gesture::Drag { path, button, modifiers }).trail;
    lemma_extends(u, done.trail, end);
    lemma_extends(moved.trail, u, end);
    lemma_extends(t, moved.trail, end);
    let vks = held_codes(modifiers);
    lemma_looked_up_is_kept(u, end, moved.trail.calls.len(), vks, presses, releases);
    lemma_aim_is_kept(moved.trail, end, path[0], start);
    let spots = seq![start] + rest;
    assert(spots.skip(1) =~= rest);
    assert forall|j: int| 0 <= j < path.len() implies aimed(end, path[j], #[trigger] spots[j]) by {
        if j > 0 {
            assert(spots[j] == rest[j - 1]);
            assert(path[1 + (j - 1)] == path[j]);
            lemma_aim_is_kept(done.trail, end, path[j], rest[j - 1]);
        }
    }
    (spots, presses, releases)
}

/// A distance, held to what fits a signed word of thirty-two bits.
pub open spec fn held32(distance: int) -> int {
    if distance > 0x7fff_ffff {
        0x7fff_ffff
    } else if distance < -0x8000_0000 {
        -0x8000_0000
    } else {
        distance
    }
}

/// The call that turns a wheel by this distance, where there is any. The data
/// of the event is the distance in two's complement.
pub open spec fn turning(flags: u32, distance: int) -> Seq<Request> {
    if distance == 0 {
        Seq::empty()
    } else {
        seq![
            Request::SendInput {
                events: seq![
                    InputEvent::Mouse {
                        dx: 0,
                        dy: 0,
                        data: (if distance < 0 {
                            0x1_0000_0000 + distance
                        } else {
                            distance
                        }) as u32,
                        flags,
                    },
                ],
            },
        ]
    }
}

proof fn lemma_turned(t: Trail, flags: u32, distance: int, arrived: bool)
    requires
        foreground::wheel_flow(t, flags, distance).value == Some(Ok::<(), Fault>(())),
    ensures
        picked(foreground::wheel_flow(t, flags, distance).trail, batch(arrived)) == picked(
            t,
            batch(arrived),
        ) + turning(flags, distance),
        effects::extends(t, foreground::wheel_flow(t, flags, distance).trail),
{
    if distance == 0 {
        assert(picked(t, batch(arrived)) + turning(flags, 0) =~= picked(t, batch(arrived)));
    } else {
        let events = seq![message::mouse_input(flags, message::wheel_data(distance))];
        assert(events[0] is Mouse && nudge()[0] is Keyboard);
        lemma_send(t, events, arrived);
        assert(turning(flags, distance) =~= sending(events));
    }
}

/// An injected scroll that succeeded moved to the spot, where the wheel goes to
/// the window under the cursor, and turned each wheel that has any notches: 120
/// a notch, to the right and, for the vertical wheel, down as negative travel.
pub proof fn law_injected_scroll(
    t: Trail,
    at: Spot,
    horizontal: i32,
    vertical: i32,
    arrived: bool,
) -> (spot: InputEvent)
    requires
        foreground::gesture_flow(t, Gesture::Scroll { at, horizontal, vertical }).value == Some(
            Ok::<(), Fault>(()),
        ),
    ensures
        ({
            let end = foreground::gesture_flow(
                t,
                Gesture::Scroll { at, horizontal, vertical },
            ).trail;
            &&& effects::extends(t, end)
            &&& aimed(end, at, spot)
            &&& picked(end, batch(arrived)) == picked(t, batch(arrived)).push(
                Request::SendInput { events: seq![spot] },
            ) + turning(MOUSEEVENTF_HWHEEL, held32(120 * horizontal)) + turning(
                MOUSEEVENTF_WHEEL,
                held32(-120 * vertical),
            )
        }),
{
    let spot = lemma_sent_move(t, at, arrived);
    let moved = foreground::send_move_flow(t, at).trail;
    let across = message::wheel_travel(horizontal as int, 120);
    let along = message::wheel_travel(vertical as int, -120);
    let turned = foreground::wheel_flow(moved, MOUSEEVENTF_HWHEEL, across).trail;
    lemma_turned(moved, MOUSEEVENTF_HWHEEL, across, arrived);
    lemma_turned(turned, MOUSEEVENTF_WHEEL, along, arrived);
    let end = foreground::gesture_flow(t, Gesture::Scroll { at, horizontal, vertical }).trail;
    lemma_extends(moved, turned, end);
    lemma_extends(t, moved, end);
    lemma_aim_is_kept(moved, end, at, spot);
    spot
}

/// Whether the window that `id` names, or a window it owns, was seen in front
/// as the last thing before index `n` of a trail, but for the pause that ends an
/// activation.
pub open spec fn seen_in_front(u: Trail, n: int, id: Seq<char>) -> bool {
    let target = text::word_of(id);
    ||| {
        &&& n >= 1
        &&& u.calls[n - 1] == Request::Plain(Plain::ForegroundWindow)
        &&& target == Some(u.replies[n - 1].handle_value())
    }
    ||| {
        &&& n >= 2
        &&& u.calls[n - 1] == Request::Plain(Plain::Sleep { millis: foreground::ACTIVATION_PAUSE })
        &&& looks_ahead(u.calls[n - 2])
        &&& target == Some(u.replies[n - 2].handle_value())
    }
}

/// Whether a call tells which window, or which owner of a window, is in front.
pub open spec fn looks_ahead(call: Request) -> bool {
    match call {
        Request::Plain(Plain::ForegroundWindow) => true,
        Request::Plain(Plain::Ancestor { relation, .. }) => relation == GA_ROOTOWNER,
        _ => false,
    }
}

proof fn lemma_poll_sees_the_target(t: Trail, target: usize, deadline: int)
    requires
        activation::poll_flow(t, target, deadline).value == Some(true),
    ensures
        ({
            let end = activation::poll_flow(t, target, deadline).trail;
            &&& end.calls.len() > t.calls.len()
            &&& looks_ahead(end.calls.last())
            &&& end.replies[end.calls.len() - 1].handle_value() == target
        }),
    decreases t.replies.len() - t.calls.len(),
{
    let foreground = t.plain(Plain::ForegroundWindow);
    let window = (foreground.value->0).handle_value();
    let owner = foreground.trail.plain(Plain::Ancestor { window, relation: GA_ROOTOWNER });
    let now = owner.trail.plain(Plain::Now);
    let slept = now.trail.plain(Plain::Sleep { millis: 10 });
    if window != target && (owner.value->0).handle_value() != target && slept.value is Some {
        lemma_poll_sees_the_target(slept.trail, target, deadline);
    }
}

/// Calls that take or hand back the foreground.
pub open spec fn activates(call: Request) -> bool {
    effects::is_query(call) || effects::is_activation(call) || effects::is_token(call)
}

proof fn lemma_activations_are_no_batches(arrived: bool)
    ensures
        effects::permits_queries(|c: Request| activates(c)),
        effects::permits_any_focus(|c: Request| activates(c)),
        effects::permits_token(|c: Request| activates(c)),
        forall|call: Request, reply: Reply| #[trigger]
            batch(arrived)(call, reply) ==> !activates(call),
{
    assert(activation::input_token() =~= nudge());
}

proof fn lemma_in_front(
    t: Trail,
    id: Seq<char>,
    settle: u64,
    input: spec_fn(Trail) -> Flow<Outcome>,
    arrived: bool,
) -> (u: Trail)
    requires
        foreground::in_front_flow(t, id, settle, input).value == Some(Ok::<(), Fault>(())),
    ensures
        ({
            let end = foreground::in_front_flow(t, id, settle, input).trail;
            &&& effects::extends(t, u)
            &&& picked(u, batch(arrived)) == picked(t, batch(arrived))
            &&& u.calls.len() > t.calls.len()
            &&& seen_in_front(u, u.calls.len() as int, id)
            &&& input(u).value == Some(Ok::<(), Fault>(()))
            &&& effects::extends(input(u).trail, end)
            &&& picked(end, batch(arrived)) == picked(input(u).trail, batch(arrived))
            &&& end.calls.len() > input(u).trail.calls.len()
            &&& end.calls[input(u).trail.calls.len() as int] == Request::Plain(
                Plain::Sleep { millis: settle },
            )
        }),
{
    broadcast use {effects::group_within, effects::guard_activate_within, effects::activate_within};

    let permitted = |c: Request| activates(c);
    lemma_activations_are_no_batches(arrived);
    let active = ForegroundGuard::activate_flow(t, id, settle);
    let u = active.trail;
    let guard = (active.value->0)->Ok_0;
    lemma_none_picked(t, u, permitted, batch(arrived));
    let done = input(u);
    lemma_success(done.value->0);
    let back = guard.hand_back_flow(done.trail);
    assert(effects::permits_focus(permitted, guard.previous));
    assert(effects::within(done.trail, back.trail, permitted));
    lemma_none_picked(done.trail, back.trail, permitted, batch(arrived));
    lemma_guard_saw_its_target(t, id, settle);
    assert(effects::extends(t, u) && effects::extends(done.trail, back.trail)) by {
        reveal(effects::within);
    }
    let slept = done.trail.plain(Plain::Sleep { millis: settle });
    let alive = slept.trail.plain(Plain::IsWindow { window: guard.previous });
    assert(effects::within(slept.trail, back.trail, permitted));
    assert(effects::extends(slept.trail, back.trail)) by {
        reveal(effects::within);
    }
    assert(back.trail.calls[done.trail.calls.len() as int]
        == slept.trail.calls[done.trail.calls.len() as int]);
    let end = foreground::in_front_flow(t, id, settle, input);
    assert(end.trail == back.trail);
    assert(guard.settle == settle);
    u
}

proof fn lemma_guard_saw_its_target(t: Trail, id: Seq<char>, settle: u64)
    requires
        ForegroundGuard::activate_flow(t, id, settle).value matches Some(Ok(_)),
    ensures
        ({
            let u = ForegroundGuard::activate_flow(t, id, settle).trail;
            &&& seen_in_front(u, u.calls.len() as int, id)
            &&& u.calls.len() > t.calls.len()
            &&& (ForegroundGuard::activate_flow(t, id, settle).value->0)->Ok_0.settle == settle
        }),
{
    broadcast use {
        effects::group_within,
        effects::ensure_integrity_within,
        effects::activate_within,
        effects::poll_within,
    };

    reveal(effects::within);
    let permitted = |c: Request| activates(c);
    lemma_activations_are_no_batches(false);
    let found = crate::delivery::hwnd_flow(t, id);
    let target = (found.value->0)->Ok_0;
    let allowed = crate::delivery::ensure_integrity_flow(found.trail, id, target);
    let front = allowed.trail.plain(Plain::ForegroundWindow);
    let previous = (front.value->0).handle_value();
    let u = ForegroundGuard::activate_flow(t, id, settle).trail;
    assert(effects::within(found.trail, allowed.trail, permitted));
    if previous != target {
        let active = activation::activate_flow(front.trail, target);
        let reached = activation::wait_for_foreground_flow(
            active.trail,
            target,
            foreground::ACTIVATION_TIMEOUT,
        );
        let start = active.trail.plain(Plain::Now);
        lemma_poll_sees_the_target(
            start.trail,
            target,
            (start.value->0).time_value() + foreground::ACTIVATION_TIMEOUT
                * activation::MILLISECOND,
        );
        assert(effects::permits_focus(permitted, target));
        assert(effects::within(front.trail, active.trail, permitted));
    }
}

/// A pointer gesture that succeeded was injected as a whole while its window
/// was in front, between saving the cursor as the first thing and putting it
/// back as the last. Nothing else was injected.
pub proof fn law_pointer_injects_its_gesture(
    t: Trail,
    id: Seq<char>,
    gesture: Gesture,
    arrived: bool,
) -> (u: Trail)
    requires
        foreground::pointer_flow(t, id, gesture).value == Some(Ok::<(), Fault>(())),
    ensures
        ({
            let end = foreground::pointer_flow(t, id, gesture).trail;
            let done = foreground::gesture_flow(u, gesture);
            &&& effects::extends(t, u)
            &&& u.calls[t.calls.len() as int] == Request::Plain(Plain::CursorPos)
            &&& picked(u, batch(arrived)) == picked(t, batch(arrived))
            &&& seen_in_front(u, u.calls.len() as int, id)
            &&& done.value == Some(Ok::<(), Fault>(()))
            &&& effects::extends(done.trail, end)
            &&& picked(end, batch(arrived)) == picked(done.trail, batch(arrived))
            &&& end.calls[done.trail.calls.len() as int] == Request::Plain(
                Plain::Sleep { millis: foreground::POINTER_SETTLE },
            )
        }),
{
    broadcast use picked_ask;

    let saved = t.plain(Plain::CursorPos);
    let input = |t: Trail| foreground::gesture_flow(t, gesture);
    let inner = foreground::in_front_flow(saved.trail, id, foreground::POINTER_SETTLE, input);
    lemma_success(inner.value->0);
    let u = lemma_in_front(saved.trail, id, foreground::POINTER_SETTLE, input, arrived);
    let done = foreground::gesture_flow(u, gesture);
    assert(done == input(u));
    let end = foreground::pointer_flow(t, id, gesture).trail;
    lemma_extends(t, saved.trail, u);
    lemma_extends(done.trail, inner.trail, end);
    assert(u.calls[t.calls.len() as int] == saved.trail.calls[t.calls.len() as int]);
    assert(end.calls[done.trail.calls.len() as int]
        == inner.trail.calls[done.trail.calls.len() as int]);
    u
}

/// How many of the first `n` keys are characters, each of which takes one look
/// at the keyboard layout.
pub open spec fn lookups(keys: Seq<KeyName>, n: nat) -> nat
    decreases n,
{
    if n == 0 {
        0
    } else {
        lookups(keys, (n - 1) as nat) + (if keys[n - 1] is Char {
            1nat
        } else {
            0
        })
    }
}

/// Virtual keys that the modifier state of a layout answer asks for: bit 0 for
/// Shift, bit 1 for Ctrl and bit 2 for Alt.
pub open spec fn asked_modifiers(state: u8) -> Seq<u16> {
    (if state & 1 != 0 {
        seq![VK_SHIFT]
    } else {
        seq![]
    }) + (if state & 2 != 0 {
        seq![VK_CONTROL]
    } else {
        seq![]
    }) + (if state & 4 != 0 {
        seq![VK_MENU]
    } else {
        seq![]
    })
}

/// The low byte of a layout answer, which is a virtual key.
pub open spec fn answered_key(answer: i16) -> u16 {
    (answer as int % 0x100) as u16
}

/// The high byte of a layout answer, which is a modifier state.
pub open spec fn answered_state(answer: i16) -> u8 {
    (answer as int / 0x100 % 0x100) as u8
}

/// Virtual keys that press the first `n` keys where the layout answers for the
/// characters among them lie in `replies` from index `from` on: each key after
/// the modifiers that its answer asks for.
pub open spec fn chord_codes(
    replies: Seq<Reply>,
    from: nat,
    keys: Seq<KeyName>,
    n: nat,
) -> Seq<u16>
    decreases n,
{
    if n == 0 {
        Seq::empty()
    } else {
        let before = chord_codes(replies, from, keys, (n - 1) as nat);
        match keys[n - 1] {
            KeyName::Char(_) => {
                let answer = replies[(from + lookups(keys, (n - 1) as nat)) as int].scan_value();
                before + asked_modifiers(answered_state(answer)) + seq![answered_key(answer)]
            },
            key => before.push(keys::fixed_key(key)->0),
        }
    }
}

/// Whether the character keys among the first `n` were looked up in the layout
/// in order, from index `from` of the trail on, and all of them are on it.
pub open spec fn looked_up(u: Trail, from: nat, keys: Seq<KeyName>, n: nat) -> bool {
    forall|i: int|
        0 <= i < n && (#[trigger] keys[i] is Char) ==> {
            let at = (from + lookups(keys, i as nat)) as int;
            &&& 0 <= keys[i]->Char_0 as int
            &&& (keys[i]->Char_0 as int) < 0x10000
            &&& u.calls[at] == Request::Plain(
                Plain::VkKeyScan { unit: keys[i]->Char_0 as u16 },
            )
            &&& u.replies[at].scan_value() != -1
        }
}

pub(crate) proof fn lemma_scanned(answer: i16)
    ensures
        emitter::scanned(answer) == (answered_key(answer), answered_state(answer)),
{
}

pub(crate) proof fn lemma_asked_modifiers(state: u8)
    ensures
        emitter::implied_keys(state) == asked_modifiers(state),
        emitter::implied_keys(0) == Seq::<u16>::empty(),
{
    assert(0u8 & 1 == 0 && 0u8 & 2 == 0 && 0u8 & 4 == 0) by (bit_vector);
    assert(emitter::implied_keys(state) =~= asked_modifiers(state));
    assert(emitter::implied_keys(0) =~= Seq::empty());
}

proof fn lemma_virtual_keys(
    first: Trail,
    t: Trail,
    keys: Seq<KeyName>,
    i: nat,
    so_far: Seq<u16>,
    kind: spec_fn(Request, Reply) -> bool,
)
    requires
        i <= keys.len(),
        effects::extends(first, t),
        t.calls.len() == first.calls.len() + lookups(keys, i),
        so_far == chord_codes(first.replies, first.calls.len(), keys, i),
        looked_up(t, first.calls.len(), keys, i),
        foreground::virtual_keys_flow(t, keys, i, so_far).value matches Some(Ok(_)),
        forall|unit: u16, reply: Reply| !#[trigger]
            kind(Request::Plain(Plain::VkKeyScan { unit }), reply),
    ensures
        ({
            let flow = foreground::virtual_keys_flow(t, keys, i, so_far);
            let end = flow.trail;
            &&& effects::extends(first, end)
            &&& effects::extends(t, end)
            &&& picked(end, kind) == picked(t, kind)
            &&& end.calls.len() == first.calls.len() + lookups(keys, keys.len())
            &&& flow.value == Some(
                Ok::<Seq<u16>, Fault>(
                    chord_codes(first.replies, first.calls.len(), keys, keys.len()),
                ),
            )
            &&& looked_up(end, first.calls.len(), keys, keys.len())
        }),
    decreases keys.len() - i,
{
    broadcast use picked_ask;

    if i < keys.len() {
        let key = keys[i as int];
        let found = emitter::virtual_key_flow(t, key);
        let vk = (found.value->0)->Ok_0;
        let u = found.trail;
        let more = so_far + emitter::implied_keys(vk.1) + seq![vk.0];
        lemma_asked_modifiers(vk.1);
        if let KeyName::Char(c) = key {
            lemma_scanned(t.upcoming(0).scan_value());
            assert(text::utf16(c).len() == 1);
            assert(text::utf16(c)[0] == c as u16);
        }
        assert(more =~= chord_codes(first.replies, first.calls.len(), keys, i + 1));
        assert forall|k: int| 0 <= k < i + 1 && (#[trigger] keys[k] is Char) implies {
            let at = (first.calls.len() + lookups(keys, k as nat)) as int;
            &&& 0 <= keys[k]->Char_0 as int
            &&& (keys[k]->Char_0 as int) < 0x10000
            &&& u.calls[at] == Request::Plain(Plain::VkKeyScan { unit: keys[k]->Char_0 as u16 })
            &&& u.replies[at].scan_value() != -1
        } by {
            if k < i {
                lemma_lookups_grow(keys, k as nat, i);
            }
        }
        lemma_virtual_keys(first, u, keys, i + 1, more, kind);
        lemma_extends(t, u, foreground::virtual_keys_flow(t, keys, i, so_far).trail);
    }
}

proof fn lemma_lookups_grow(keys: Seq<KeyName>, i: nat, n: nat)
    requires
        i < n,
        keys[i as int] is Char,
    ensures
        lookups(keys, i) < lookups(keys, n),
    decreases n,
{
    if i < n - 1 {
        lemma_lookups_grow(keys, i, (n - 1) as nat);
    }
}

/// The virtual keys of a chord are, key by key, the modifiers that the layout
/// answer asks for and then the key: Shift for bit 0 of its high byte, Ctrl for
/// bit 1, Alt for bit 2.
pub proof fn law_chord_holds_what_the_layout_asks(t: Trail, keys: Seq<KeyName>)
    requires
        foreground::virtual_keys_flow(t, keys, 0, Seq::empty()).value matches Some(Ok(_)),
    ensures
        ({
            let flow = foreground::virtual_keys_flow(t, keys, 0, Seq::empty());
            &&& flow.value == Some(
                Ok::<Seq<u16>, Fault>(chord_codes(t.replies, t.calls.len(), keys, keys.len())),
            )
            &&& flow.trail.calls.len() == t.calls.len() + lookups(keys, keys.len())
            &&& looked_up(flow.trail, t.calls.len(), keys, keys.len())
        }),
{
    lemma_virtual_keys(t, t, keys, 0, Seq::empty(), batch(false));
}

/// An injected chord that succeeded sent two batches while its window was in
/// front: one that presses the virtual keys of its keys in order, and one that
/// releases them in reverse.
pub proof fn law_injected_chord(t: Trail, id: Seq<char>, keys: Seq<KeyName>, arrived: bool) -> (sent: (
    Trail,
    Seq<InputEvent>,
    Seq<InputEvent>,
))
    requires
        foreground::key_chord_flow(t, id, keys).value == Some(Ok::<(), Fault>(())),
    ensures
        ({
            let end = foreground::key_chord_flow(t, id, keys).trail;
            let (u, presses, releases) = sent;
            let vks = chord_codes(t.replies, t.calls.len(), keys, keys.len());
            let from = t.calls.len() + lookups(keys, keys.len());
            &&& effects::extends(t, u)
            &&& effects::extends(u, end)
            &&& looked_up(u, t.calls.len(), keys, keys.len())
            &&& presses_at(u, from, vks, presses)
            &&& releases_at(u, from + vks.len(), vks, releases)
            &&& picked(u, batch(arrived)) == picked(t, batch(arrived))
            &&& seen_in_front(u, u.calls.len() as int, id)
            &&& picked(end, batch(arrived)) == picked(t, batch(arrived)) + sending(presses)
                + sending(releases)
        }),
{
    let kind = batch(arrived);
    let vks = chord_codes(t.replies, t.calls.len(), keys, keys.len());
    let found = foreground::virtual_keys_flow(t, keys, 0, Seq::empty());
    lemma_virtual_keys(t, t, keys, 0, Seq::empty(), kind);
    let struck = foreground::strokes_flow(found.trail, vks);
    lemma_strokes(found.trail, vks, kind);
    let (presses, releases) = struck.value->0;
    lemma_no_nudge(struck.trail, found.trail.calls.len(), vks, presses, releases);
    let input = |t: Trail| foreground::holding_flow(t, presses, releases, Injection::Nothing);
    let settle = foreground::KEY_SETTLE;
    let u = lemma_in_front(struck.trail, id, settle, input, arrived);
    let done = foreground::holding_flow(u, presses, releases, Injection::Nothing);
    assert(done == input(u));
    lemma_holding(u, presses, releases, Injection::Nothing, arrived);
    let end = foreground::key_chord_flow(t, id, keys).trail;
    assert(end == foreground::in_front_flow(struck.trail, id, settle, input).trail);
    let pressed = foreground::send_flow(u, presses).trail;
    lemma_extends(u, pressed, done.trail);
    lemma_extends(u, done.trail, end);
    lemma_extends(found.trail, struck.trail, u);
    lemma_extends(t, found.trail, u);
    lemma_looked_up_is_kept(struck.trail, u, found.trail.calls.len(), vks, presses, releases);
    assert forall|i: int| 0 <= i < keys.len() && (#[trigger] keys[i] is Char) implies {
        let at = (t.calls.len() + lookups(keys, i as nat)) as int;
        &&& 0 <= keys[i]->Char_0 as int
        &&& (keys[i]->Char_0 as int) < 0x10000
        &&& u.calls[at] == Request::Plain(Plain::VkKeyScan { unit: keys[i]->Char_0 as u16 })
        &&& u.replies[at].scan_value() != -1
    } by {
        let at = (t.calls.len() + lookups(keys, i as nat)) as int;
        lemma_lookups_grow(keys, i as nat, keys.len());
        assert(struck.trail.calls[at] == found.trail.calls[at]);
        assert(u.calls[at] == struck.trail.calls[at]);
    }
    (u, presses, releases)
}

/// A press and a release that type each UTF-16 code unit.
pub open spec fn unit_strokes(units: Seq<u16>) -> Seq<InputEvent> {
    Seq::new(
        2 * units.len(),
        |i: int|
            InputEvent::Keyboard {
                vk: 0,
                scan: units[i / 2],
                flags: (if i % 2 == 1 {
                    KEYEVENTF_UNICODE + KEYEVENTF_KEYUP
                } else {
                    KEYEVENTF_UNICODE as int
                }) as u32,
            },
    )
}

/// How many of the first `n` units are line breaks.
pub open spec fn breaks(units: Seq<TextUnit>, n: nat) -> nat
    decreases n,
{
    if n == 0 {
        0
    } else {
        breaks(units, (n - 1) as nat) + (if units[n - 1] is Enter {
            1nat
        } else {
            0
        })
    }
}

/// Events that type the first `n` units: a press and a release of Return for a
/// line break, with the scan codes that were looked up from index `from` of the
/// trail on, and the code units of a character else.
pub open spec fn typed_events(u: Trail, from: nat, units: Seq<TextUnit>, n: nat) -> Seq<InputEvent>
    decreases n,
{
    if n == 0 {
        Seq::empty()
    } else {
        let before = typed_events(u, from, units, (n - 1) as nat);
        let at = (from + 2 * breaks(units, (n - 1) as nat)) as int;
        match units[n - 1] {
            TextUnit::Enter => before + seq![
                stroke(VK_RETURN, false, u.replies[at].word_value()),
                stroke(VK_RETURN, true, u.replies[at + 1].word_value()),
            ],
            TextUnit::Char(c) => before + unit_strokes(text::utf16(c)),
        }
    }
}

proof fn lemma_typed_events(
    first: Trail,
    t: Trail,
    units: Seq<TextUnit>,
    i: nat,
    so_far: Seq<InputEvent>,
    kind: spec_fn(Request, Reply) -> bool,
)
    requires
        i <= units.len(),
        effects::extends(first, t),
        t.calls.len() == first.calls.len() + 2 * breaks(units, i),
        so_far == typed_events(first, first.calls.len(), units, i),
        foreground::text_events_flow(t, units, i, so_far).value is Some,
        forall|vk: u16, reply: Reply| !#[trigger]
            kind(Request::Plain(Plain::MapVirtualKey { vk }), reply),
    ensures
        ({
            let flow = foreground::text_events_flow(t, units, i, so_far);
            &&& effects::extends(t, flow.trail)
            &&& picked(flow.trail, kind) == picked(t, kind)
            &&& flow.trail.calls.len() == first.calls.len() + 2 * breaks(units, units.len())
            &&& flow.value == Some(typed_events(first, first.calls.len(), units, units.len()))
            &&& forall|k: int|
                t.calls.len() <= k < flow.trail.calls.len() ==> #[trigger] flow.trail.calls[k]
                    == Request::Plain(Plain::MapVirtualKey { vk: VK_RETURN })
        }),
    decreases units.len() - i,
{
    broadcast use picked_ask;

    if i < units.len() {
        let end = foreground::text_events_flow(t, units, i, so_far).trail;
        match units[i as int] {
            TextUnit::Enter => {
                let press = foreground::key_event_flow(t, VK_RETURN, false);
                let release = foreground::key_event_flow(press.trail, VK_RETURN, true);
                lemma_stroke(VK_RETURN, false, t.upcoming(0).word_value());
                lemma_stroke(VK_RETURN, true, press.trail.upcoming(0).word_value());
                let more = so_far.push(press.value->0).push(release.value->0);
                assert(more =~= typed_events(first, first.calls.len(), units, i + 1));
                lemma_extends(t, press.trail, release.trail);
                lemma_extends(first, t, release.trail);
                lemma_typed_events(first, release.trail, units, i + 1, more, kind);
                lemma_extends(t, release.trail, end);
                assert forall|k: int| t.calls.len() <= k < end.calls.len() implies #[trigger]
                    end.calls[k] == Request::Plain(Plain::MapVirtualKey { vk: VK_RETURN }) by {
                    if k < release.trail.calls.len() {
                        assert(end.calls[k] == release.trail.calls[k]);
                    }
                }
            },
            TextUnit::Char(c) => {
                assert(4u32 | 2u32 == 6u32) by (bit_vector);
                assert(foreground::unit_events(text::utf16(c)) =~= unit_strokes(text::utf16(c)));
                let more = so_far + foreground::unit_events(text::utf16(c));
                assert(more =~= typed_events(first, first.calls.len(), units, i + 1));
                lemma_typed_events(first, t, units, i + 1, more, kind);
            },
        }
    }
}

/// Injected text that succeeded asked for the units of that text, and sent the
/// events that type them as one batch while its window was in front. Text
/// without units sends nothing.
pub proof fn law_injected_text(t: Trail, id: Seq<char>, content: Seq<char>, arrived: bool) -> (u:
    Trail)
    requires
        foreground::type_text_flow(t, id, content).value == Some(Ok::<(), Fault>(())),
    ensures
        ({
            let end = foreground::type_text_flow(t, id, content).trail;
            let units = t.upcoming(0).text_units_value();
            let events = typed_events(t, t.calls.len() + 1, units, units.len());
            &&& effects::extends(t, end)
            &&& end.calls[t.calls.len() as int] == (Request::TextUnits { text: content })
            &&& forall|k: int|
                t.calls.len() < k <= t.calls.len() + 2 * breaks(units, units.len())
                    ==> #[trigger] end.calls[k] == Request::Plain(
                    Plain::MapVirtualKey { vk: VK_RETURN },
                )
            &&& picked(end, batch(arrived)) == picked(t, batch(arrived)) + sending(events)
            &&& events.len() > 0 ==> effects::extends(t, u) && effects::extends(u, end) && picked(
                u,
                batch(arrived),
            ) == picked(t, batch(arrived)) && seen_in_front(u, u.calls.len() as int, id)
        }),
{
    broadcast use {picked_ask, effects::group_within};

    let kind = batch(arrived);
    let asked = t.ask(Request::TextUnits { text: content });
    let units = t.upcoming(0).text_units_value();
    let built = foreground::text_events_flow(asked.trail, units, 0, Seq::empty());
    lemma_typed_events(asked.trail, asked.trail, units, 0, Seq::empty(), kind);
    let events = built.value->0;
    lemma_typed_from(t, asked.trail, units, units.len());
    let found = crate::delivery::hwnd_flow(built.trail, id);
    let root = (found.value->0)->Ok_0;
    let supported = crate::delivery::ensure_text_supported_flow(found.trail, id, root);
    let ready = supported.trail;
    let queries = |c: Request| effects::is_query(c);
    assert(effects::permits_queries(queries));
    assert(effects::within(built.trail, ready, queries));
    lemma_none_picked(built.trail, ready, queries, kind);
    assert(effects::extends(built.trail, ready)) by {
        reveal(effects::within);
    }
    let end = foreground::type_text_flow(t, id, content).trail;
    lemma_extends(asked.trail, built.trail, ready);
    lemma_extends(t, asked.trail, ready);
    let mut u = ready;
    if events.len() == 0 {
        assert(picked(t, kind) + sending(events) =~= picked(t, kind));
    } else {
        let input = |t: Trail| foreground::send_flow(t, events);
        u = lemma_in_front(ready, id, foreground::KEY_SETTLE, input, arrived);
        let done = foreground::send_flow(u, events);
        assert(done == input(u));
        lemma_typed_is_no_nudge(t, t.calls.len() + 1, units, units.len());
        lemma_send(u, events, arrived);
        assert(end == foreground::in_front_flow(ready, id, foreground::KEY_SETTLE, input).trail);
        lemma_extends(t, ready, u);
        lemma_extends(u, done.trail, end);
        lemma_extends(ready, u, end);
    }
    lemma_extends(t, ready, end);
    lemma_extends(asked.trail, ready, end);
    lemma_extends(built.trail, ready, end);
    assert(end.calls[t.calls.len() as int] == asked.trail.calls[t.calls.len() as int]);
    assert forall|k: int| t.calls.len() < k <= t.calls.len() + 2 * breaks(
        units,
        units.len(),
    ) implies #[trigger] end.calls[k] == Request::Plain(
        Plain::MapVirtualKey { vk: VK_RETURN },
    ) by {
        assert(end.calls[k] == built.trail.calls[k]);
    }
    u
}

proof fn lemma_typed_from(t: Trail, u: Trail, units: Seq<TextUnit>, n: nat)
    requires
        t.replies == u.replies,
        u.calls.len() == t.calls.len() + 1,
    ensures
        typed_events(u, u.calls.len(), units, n) == typed_events(t, t.calls.len() + 1, units, n),
    decreases n,
{
    if n > 0 {
        lemma_typed_from(t, u, units, (n - 1) as nat);
    }
}

proof fn lemma_typed_is_no_nudge(u: Trail, from: nat, units: Seq<TextUnit>, n: nat)
    ensures
        forall|j: int|
            0 <= j < typed_events(u, from, units, n).len() ==> (#[trigger] typed_events(
                u,
                from,
                units,
                n,
            )[j] matches InputEvent::Keyboard { vk, .. } && vk != VK_NONAME),
        typed_events(u, from, units, n) != nudge(),
    decreases n,
{
    if n > 0 {
        lemma_typed_is_no_nudge(u, from, units, (n - 1) as nat);
    }
    let events = typed_events(u, from, units, n);
    assert(nudge().len() == 2);
    assert(nudge()[0] == InputEvent::Keyboard { vk: VK_NONAME, scan: 0, flags: 0 });
    if events == nudge() {
        assert(typed_events(u, from, units, n)[0] == nudge()[0]);
    }
}

} // verus!
