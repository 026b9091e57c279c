//! What each procedure does to the platform.
//!
//! A call is a query where it leaves the desktop as it is. For every procedure
//! a lemma here says which other calls it can make at all, over a predicate
//! that holds of every call it is permitted.

use vstd::prelude::*;

use crate::activation::Containment;
use crate::background::Posting;
use crate::error::{Fault, Outcome};
use crate::foreground::{ForegroundGuard, Injection};
use crate::global::Held;
use crate::input::Route;
use crate::keys::{KeyName, Modifiers, MouseButton};
use crate::request::{Direction, EventKind, Gesture, InputEvent, Point, Spot, TextUnit};
use crate::tape::{Flow, Plain, Request, Trail};
use crate::win32::{
    CWP_SKIPDISABLED, CWP_SKIPINVISIBLE, CWP_SKIPTRANSPARENT, GA_PARENT, GA_ROOTOWNER, VK_RETURN,
    WM_CHAR, WM_MOUSEMOVE, WM_NCHITTEST,
};
use crate::{
    activation, background, delivery, emitter, foreground, global, input, text, window,
};

verus! {

/// Whether a call leaves the desktop as it is.
pub open spec fn is_query(call: Request) -> bool {
    match call {
        Request::Plain(call) => match call {
            Plain::GlobalKey { .. } => false,
            Plain::GlobalButton { .. } => false,
            Plain::GlobalMove { .. } => false,
            Plain::GlobalScroll { .. } => false,
            Plain::InvokeAtPoint { .. } => false,
            Plain::Post { .. } => false,
            Plain::SendTimeout { message, .. } => message == WM_NCHITTEST,
            Plain::SetForeground { .. } => false,
            Plain::AttachInput { .. } => false,
            Plain::SetExStyle { .. } => false,
            Plain::Enable { .. } => false,
            Plain::Restore { .. } => false,
            Plain::SetCursorPos { .. } => false,
            _ => true,
        },
        Request::GlobalText { .. } => false,
        Request::SendInput { .. } => false,
        _ => true,
    }
}

/// Whether a call posts a message to `window`.
pub open spec fn posts_to(call: Request, window: usize) -> bool {
    match call {
        Request::Plain(Plain::Post { window: to, .. }) => to == window,
        _ => false,
    }
}

/// Whether a call belongs to the activation of `window`: it sets the foreground
/// window, or joins or leaves another thread's input state.
pub open spec fn focuses(call: Request, window: usize) -> bool {
    match call {
        Request::Plain(Plain::SetForeground { window: to }) => to == window,
        Request::Plain(Plain::AttachInput { .. }) => true,
        _ => false,
    }
}

/// Whether a call belongs to the activation of some window.
pub open spec fn is_activation(call: Request) -> bool {
    match call {
        Request::Plain(Plain::SetForeground { .. }) => true,
        Request::Plain(Plain::AttachInput { .. }) => true,
        _ => false,
    }
}

/// Whether a call restores a minimized window.
pub open spec fn is_restore(call: Request) -> bool {
    match call {
        Request::Plain(Plain::Restore { .. }) => true,
        _ => false,
    }
}

/// Whether a call injects the no-op key.
pub open spec fn is_token(call: Request) -> bool {
    match call {
        Request::SendInput { events } => events == activation::input_token(),
        _ => false,
    }
}

/// Whether a call makes `root` activatable or not, or enables or disables it.
pub open spec fn shields(call: Request, root: usize) -> bool {
    match call {
        Request::Plain(Plain::SetExStyle { window, .. }) => window == root,
        Request::Plain(Plain::Enable { window, .. }) => window == root,
        _ => false,
    }
}

/// Whether a call injects input.
pub open spec fn injects(call: Request) -> bool {
    call is SendInput
}

/// Whether a call acts on the user's own devices.
pub open spec fn is_global(call: Request) -> bool {
    match call {
        Request::Plain(call) => match call {
            Plain::GlobalKey { .. } => true,
            Plain::GlobalButton { .. } => true,
            Plain::GlobalMove { .. } => true,
            Plain::GlobalScroll { .. } => true,
            _ => false,
        },
        Request::GlobalText { .. } => true,
        _ => false,
    }
}

/// Whether a call can be part of posted input: a query, a posted message, an
/// invoked control, or what keeps the foreground with the user.
pub open spec fn in_background(call: Request) -> bool {
    match call {
        Request::Plain(plain) => match plain {
            Plain::Post { .. } => true,
            Plain::InvokeAtPoint { .. } => true,
            Plain::SetForeground { .. } => true,
            Plain::AttachInput { .. } => true,
            Plain::SetExStyle { .. } => true,
            _ => is_query(call),
        },
        _ => is_query(call),
    }
}

/// Whether a call can be part of injected input: a query, an injection, an
/// activation or a move of the cursor.
pub open spec fn in_foreground(call: Request) -> bool {
    match call {
        Request::Plain(plain) => match plain {
            Plain::SetForeground { .. } => true,
            Plain::AttachInput { .. } => true,
            Plain::SetCursorPos { .. } => true,
            _ => is_query(call),
        },
        Request::SendInput { .. } => true,
        _ => is_query(call),
    }
}

/// Whether `permitted` holds of every query.
pub open spec fn permits_queries(permitted: spec_fn(Request) -> bool) -> bool {
    forall|call: Request| is_query(call) ==> #[trigger] permitted(call)
}

/// Whether `permitted` holds of every message posted to `window`.
pub open spec fn permits_posts(permitted: spec_fn(Request) -> bool, window: usize) -> bool {
    forall|call: Request| posts_to(call, window) ==> #[trigger] permitted(call)
}

/// Whether `permitted` holds of what activates `window`.
pub open spec fn permits_focus(permitted: spec_fn(Request) -> bool, window: usize) -> bool {
    forall|call: Request| focuses(call, window) ==> #[trigger] permitted(call)
}

/// Whether `permitted` holds of what activates any window.
pub open spec fn permits_any_focus(permitted: spec_fn(Request) -> bool) -> bool {
    forall|window: usize| #[trigger] permits_focus(permitted, window)
}

/// Whether `permitted` holds of the injected no-op key.
pub open spec fn permits_token(permitted: spec_fn(Request) -> bool) -> bool {
    forall|call: Request| is_token(call) ==> #[trigger] permitted(call)
}

/// Whether `permitted` holds of what shields `root`.
pub open spec fn permits_shield(permitted: spec_fn(Request) -> bool, root: usize) -> bool {
    forall|call: Request| shields(call, root) ==> #[trigger] permitted(call)
}

/// Whether `permitted` holds of every injection.
pub open spec fn permits_injection(permitted: spec_fn(Request) -> bool) -> bool {
    forall|call: Request| injects(call) ==> #[trigger] permitted(call)
}

/// Whether `permitted` holds of every action on the user's own devices.
pub open spec fn permits_global(permitted: spec_fn(Request) -> bool) -> bool {
    forall|call: Request| is_global(call) ==> #[trigger] permitted(call)
}

/// Whether `permitted` holds of every call of posted input.
pub open spec fn permits_background(permitted: spec_fn(Request) -> bool) -> bool {
    forall|call: Request| in_background(call) ==> #[trigger] permitted(call)
}

/// Whether `permitted` holds of every call of injected input.
pub open spec fn permits_foreground(permitted: spec_fn(Request) -> bool) -> bool {
    forall|call: Request| in_foreground(call) ==> #[trigger] permitted(call)
}

/// Whether `later` is `earlier` after some more calls.
pub open spec fn extends(earlier: Trail, later: Trail) -> bool {
    &&& later.replies == earlier.replies
    &&& earlier.calls.len() <= later.calls.len()
    &&& forall|i: int|
        0 <= i < earlier.calls.len() ==> later.calls[i] == #[trigger] earlier.calls[i]
}

/// Whether `later` is `earlier` after some more calls, all of them permitted.
#[verifier::opaque]
pub open spec fn within(
    earlier: Trail,
    later: Trail,
    permitted: spec_fn(Request) -> bool,
) -> bool {
    &&& extends(earlier, later)
    &&& forall|i: int|
        earlier.calls.len() <= i < later.calls.len() ==> permitted(#[trigger] later.calls[i])
}

pub(crate) broadcast proof fn within_nothing(t: Trail, permitted: spec_fn(Request) -> bool)
    ensures
        #[trigger] within(t, t, permitted),
{
    reveal(within);
}

pub(crate) broadcast proof fn within_query(
    t: Trail,
    call: Request,
    permitted: spec_fn(Request) -> bool,
)
    requires
        #[trigger] permits_queries(permitted),
        is_query(call),
    ensures
        within(t, (#[trigger] t.ask(call)).trail, permitted),
{
    reveal(within);
    assert(permitted(call));
}

pub(crate) broadcast proof fn within_post(
    t: Trail,
    call: Request,
    window: usize,
    permitted: spec_fn(Request) -> bool,
)
    requires
        #[trigger] permits_posts(permitted, window),
        posts_to(call, window),
    ensures
        within(t, (#[trigger] t.ask(call)).trail, permitted),
{
    reveal(within);
    assert(permitted(call));
}

pub(crate) broadcast proof fn within_focus(
    t: Trail,
    call: Request,
    window: usize,
    permitted: spec_fn(Request) -> bool,
)
    requires
        #[trigger] permits_focus(permitted, window),
        focuses(call, window),
    ensures
        within(t, (#[trigger] t.ask(call)).trail, permitted),
{
    reveal(within);
    assert(permitted(call));
}

pub(crate) broadcast proof fn within_token(
    t: Trail,
    call: Request,
    permitted: spec_fn(Request) -> bool,
)
    requires
        #[trigger] permits_token(permitted),
        is_token(call),
    ensures
        within(t, (#[trigger] t.ask(call)).trail, permitted),
{
    reveal(within);
    assert(permitted(call));
}

pub(crate) broadcast proof fn within_shield(
    t: Trail,
    call: Request,
    window: usize,
    permitted: spec_fn(Request) -> bool,
)
    requires
        #[trigger] permits_shield(permitted, window),
        shields(call, window),
    ensures
        within(t, (#[trigger] t.ask(call)).trail, permitted),
{
    reveal(within);
    assert(permitted(call));
}

pub(crate) broadcast proof fn within_injection(
    t: Trail,
    call: Request,
    permitted: spec_fn(Request) -> bool,
)
    requires
        #[trigger] permits_injection(permitted),
        injects(call),
    ensures
        within(t, (#[trigger] t.ask(call)).trail, permitted),
{
    reveal(within);
    assert(permitted(call));
}

pub(crate) broadcast proof fn within_global(
    t: Trail,
    call: Request,
    permitted: spec_fn(Request) -> bool,
)
    requires
        #[trigger] permits_global(permitted),
        is_global(call),
    ensures
        within(t, (#[trigger] t.ask(call)).trail, permitted),
{
    reveal(within);
    assert(permitted(call));
}

pub(crate) broadcast proof fn within_background(
    t: Trail,
    call: Request,
    permitted: spec_fn(Request) -> bool,
)
    requires
        #[trigger] permits_background(permitted),
        in_background(call),
    ensures
        within(t, (#[trigger] t.ask(call)).trail, permitted),
{
    reveal(within);
    assert(permitted(call));
}

pub(crate) broadcast proof fn within_foreground(
    t: Trail,
    call: Request,
    permitted: spec_fn(Request) -> bool,
)
    requires
        #[trigger] permits_foreground(permitted),
        in_foreground(call),
    ensures
        within(t, (#[trigger] t.ask(call)).trail, permitted),
{
    reveal(within);
    assert(permitted(call));
}

pub(crate) broadcast proof fn within_both(
    t: Trail,
    u: Trail,
    v: Trail,
    permitted: spec_fn(Request) -> bool,
)
    requires
        #[trigger] within(t, u, permitted),
        #[trigger] within(u, v, permitted),
    ensures
        within(t, v, permitted),
{
    reveal(within);
    assert forall|i: int| t.calls.len() <= i < v.calls.len() implies permitted(
        #[trigger] v.calls[i],
    ) by {
        if i < u.calls.len() {
            assert(permitted(u.calls[i]));
        }
    }
}

pub(crate) broadcast group group_within {
    within_nothing,
    within_query,
    within_post,
    within_focus,
    within_token,
    within_shield,
    within_injection,
    within_global,
    within_background,
    within_foreground,
    within_both,
}

pub(crate) broadcast proof fn any_chromium_within(
    t: Trail,
    windows: Seq<usize>,
    i: nat,
    permitted: spec_fn(Request) -> bool,
)
    requires
        #[trigger] permits_queries(permitted),
    ensures
        within(t, (#[trigger] window::any_chromium_flow(t, windows, i)).trail, permitted),
    decreases windows.len() - i,
{
    broadcast use group_within;

    if i < windows.len() {
        let class = window::class_text_flow(t, windows[i as int]);
        let found = window::is_chromium_flow(class.trail, class.value->0);
        any_chromium_within(found.trail, windows, i + 1, permitted);
    }
}

pub(crate) broadcast proof fn descend_within(
    t: Trail,
    root: usize,
    screen: Point,
    current: usize,
    client: Point,
    left: nat,
    permitted: spec_fn(Request) -> bool,
)
    requires
        #[trigger] permits_queries(permitted),
    ensures
        within(
            t,
            (#[trigger] window::descend_flow(t, root, screen, current, client, left)).trail,
            permitted,
        ),
    decreases left,
{
    broadcast use group_within;

    if left > 0 {
        let child = t.plain(
            Plain::ChildFromPoint {
                window: current,
                point: client,
                flags: CWP_SKIPINVISIBLE | CWP_SKIPDISABLED | CWP_SKIPTRANSPARENT,
            },
        );
        let window = (child.value->0).handle_value();
        let inside = child.trail.plain(Plain::IsChild { parent: root, window });
        let mapped = inside.trail.plain(Plain::ScreenToClient { window, point: screen });
        let point = (mapped.value->0).point_value()->0;
        descend_within(mapped.trail, root, screen, window, point, (left - 1) as nat, permitted);
    }
}

pub(crate) broadcast proof fn depth_within(
    t: Trail,
    ancestor: usize,
    current: usize,
    depth: nat,
    permitted: spec_fn(Request) -> bool,
)
    requires
        #[trigger] permits_queries(permitted),
    ensures
        within(t, (#[trigger] window::depth_flow(t, ancestor, current, depth)).trail, permitted),
    decreases window::MAX_DEPTH - depth,
{
    broadcast use group_within;

    if current != ancestor && depth < window::MAX_DEPTH {
        let parent = t.plain(Plain::Ancestor { window: current, relation: GA_PARENT });
        depth_within(
            parent.trail,
            ancestor,
            (parent.value->0).handle_value(),
            depth + 1,
            permitted,
        );
    }
}

pub(crate) broadcast proof fn search_focus_within(
    t: Trail,
    root: usize,
    threads: Seq<u32>,
    i: nat,
    best: Option<(nat, usize)>,
    permitted: spec_fn(Request) -> bool,
)
    requires
        #[trigger] permits_queries(permitted),
    ensures
        within(
            t,
            (#[trigger] window::search_focus_flow(t, root, threads, i, best)).trail,
            permitted,
        ),
    decreases threads.len() - i,
{
    broadcast use {group_within, depth_within};

    if i < threads.len() {
        let info = t.plain(Plain::FocusOf { thread: threads[i as int] });
        let focused = (info.value->0).found_value()->0;
        let inside = info.trail.plain(Plain::IsChild { parent: root, window: focused });
        let depth = window::depth_flow(inside.trail, root, focused, 0);
        let deeper = window::deeper_of(best, depth.value->0, focused);
        search_focus_within(info.trail, root, threads, i + 1, best, permitted);
        search_focus_within(inside.trail, root, threads, i + 1, best, permitted);
        search_focus_within(depth.trail, root, threads, i + 1, deeper, permitted);
    }
}

pub(crate) broadcast proof fn integrity_level_within(
    t: Trail,
    process: usize,
    permitted: spec_fn(Request) -> bool,
)
    requires
        #[trigger] permits_queries(permitted),
    ensures
        within(t, (#[trigger] window::integrity_level_flow(t, process)).trail, permitted),
{
    broadcast use group_within;

}

pub(crate) broadcast proof fn uipi_block_within(
    t: Trail,
    window: usize,
    permitted: spec_fn(Request) -> bool,
)
    requires
        #[trigger] permits_queries(permitted),
    ensures
        within(t, (#[trigger] window::uipi_block_flow(t, window)).trail, permitted),
{
    broadcast use {group_within, integrity_level_within};

}

pub(crate) broadcast proof fn is_xaml_host_within(
    t: Trail,
    root: usize,
    permitted: spec_fn(Request) -> bool,
)
    requires
        #[trigger] permits_queries(permitted),
    ensures
        within(t, (#[trigger] window::is_xaml_host_flow(t, root)).trail, permitted),
{
    broadcast use group_within;

}

pub(crate) broadcast proof fn ensure_integrity_within(
    t: Trail,
    id: Seq<char>,
    root: usize,
    permitted: spec_fn(Request) -> bool,
)
    requires
        #[trigger] permits_queries(permitted),
    ensures
        within(t, (#[trigger] delivery::ensure_integrity_flow(t, id, root)).trail, permitted),
{
    broadcast use {group_within, uipi_block_within};

}

pub(crate) broadcast proof fn drop_reason_within(
    t: Trail,
    root: usize,
    class: Seq<char>,
    kind: EventKind,
    permitted: spec_fn(Request) -> bool,
)
    requires
        #[trigger] permits_queries(permitted),
    ensures
        within(t, (#[trigger] delivery::drop_reason_flow(t, root, class, kind)).trail, permitted),
{
    broadcast use {group_within, any_chromium_within, is_xaml_host_within};

}

pub(crate) broadcast proof fn ensure_delivery_within(
    t: Trail,
    id: Seq<char>,
    root: usize,
    kind: EventKind,
    permitted: spec_fn(Request) -> bool,
)
    requires
        #[trigger] permits_queries(permitted),
    ensures
        within(t, (#[trigger] delivery::ensure_delivery_flow(t, id, root, kind)).trail, permitted),
{
    broadcast use {group_within, ensure_integrity_within, drop_reason_within};

}

pub(crate) broadcast proof fn attach_and_activate_within(
    t: Trail,
    target: usize,
    permitted: spec_fn(Request) -> bool,
)
    requires
        #[trigger] permits_queries(permitted),
        permits_focus(permitted, target),
    ensures
        within(t, (#[trigger] activation::attach_and_activate_flow(t, target)).trail, permitted),
{
    broadcast use group_within;

}

pub(crate) broadcast proof fn retry_within(
    t: Trail,
    target: usize,
    left: nat,
    permitted: spec_fn(Request) -> bool,
)
    requires
        #[trigger] permits_queries(permitted),
        permits_focus(permitted, target),
    ensures
        within(t, (#[trigger] activation::retry_flow(t, target, left)).trail, permitted),
    decreases left,
{
    broadcast use {group_within, attach_and_activate_within};

    if left > 0 {
        let active = activation::attach_and_activate_flow(t, target);
        let slept = active.trail.plain(Plain::Sleep { millis: 25 });
        retry_within(slept.trail, target, (left - 1) as nat, permitted);
    }
}

pub(crate) broadcast proof fn activate_within(
    t: Trail,
    target: usize,
    permitted: spec_fn(Request) -> bool,
)
    requires
        #[trigger] permits_queries(permitted),
        permits_focus(permitted, target),
        permits_token(permitted),
    ensures
        within(t, (#[trigger] activation::activate_flow(t, target)).trail, permitted),
{
    broadcast use {group_within, attach_and_activate_within, retry_within};

}

pub(crate) broadcast proof fn poll_within(
    t: Trail,
    target: usize,
    deadline: int,
    permitted: spec_fn(Request) -> bool,
)
    requires
        #[trigger] permits_queries(permitted),
    ensures
        within(t, (#[trigger] activation::poll_flow(t, target, deadline)).trail, permitted),
    decreases t.replies.len() - t.calls.len(),
{
    broadcast use group_within;

    let foreground = t.plain(Plain::ForegroundWindow);
    let window = (foreground.value->0).handle_value();
    let owner = foreground.trail.plain(Plain::Ancestor { window, relation: GA_ROOTOWNER });
    let now = owner.trail.plain(Plain::Now);
    let slept = now.trail.plain(Plain::Sleep { millis: 10 });
    if slept.value is Some {
        poll_within(slept.trail, target, deadline, permitted);
    }
}

pub(crate) broadcast proof fn contain_within(
    t: Trail,
    root: usize,
    shield_host: bool,
    permitted: spec_fn(Request) -> bool,
)
    requires
        #[trigger] permits_queries(permitted),
        permits_shield(permitted, root),
    ensures
        within(t, (#[trigger] activation::contain_flow(t, root, shield_host)).trail, permitted),
{
    broadcast use {group_within, is_xaml_host_within};

}

pub(crate) broadcast proof fn hand_back_within(
    t: Trail,
    root: usize,
    previous: usize,
    permitted: spec_fn(Request) -> bool,
)
    requires
        #[trigger] permits_queries(permitted),
        permits_focus(permitted, previous),
    ensures
        within(t, (#[trigger] activation::hand_back_flow(t, root, previous)).trail, permitted),
{
    broadcast use {group_within, attach_and_activate_within};

}

pub(crate) broadcast proof fn release_within(
    t: Trail,
    guard: Option<Containment>,
    permitted: spec_fn(Request) -> bool,
)
    requires
        #[trigger] permits_queries(permitted),
        guard matches Some(armed) ==> permits_shield(permitted, armed.root) && permits_focus(
            permitted,
            armed.previous,
        ),
    ensures
        within(t, (#[trigger] activation::release_flow(t, guard)).trail, permitted),
{
    broadcast use {group_within, hand_back_within};

}

pub(crate) broadcast proof fn unshielded_contain_within(
    t: Trail,
    root: usize,
    permitted: spec_fn(Request) -> bool,
)
    requires
        #[trigger] permits_queries(permitted),
        permits_background(permitted),
    ensures
        within(t, (#[trigger] activation::contain_flow(t, root, false)).trail, permitted),
{
    broadcast use group_within;

}

pub(crate) broadcast proof fn unshielded_release_within(
    t: Trail,
    guard: Option<Containment>,
    permitted: spec_fn(Request) -> bool,
)
    requires
        #[trigger] permits_queries(permitted),
        permits_background(permitted),
        guard matches Some(armed) ==> !armed.disabled,
    ensures
        within(t, (#[trigger] activation::release_flow(t, guard)).trail, permitted),
{
    broadcast use {group_within, hand_back_within};

}

pub(crate) broadcast proof fn transitions_within(
    t: Trail,
    window: usize,
    alt: u8,
    vks: Seq<u16>,
    i: nat,
    down: bool,
    permitted: spec_fn(Request) -> bool,
)
    requires
        #[trigger] permits_queries(permitted),
        permits_posts(permitted, window),
    ensures
        within(
            t,
            (#[trigger] emitter::transitions_flow(t, window, alt, vks, i, down)).trail,
            permitted,
        ),
    decreases vks.len() - i,
{
    broadcast use group_within;

    if i < vks.len() {
        let moved = emitter::transition_flow(t, window, alt, vks[i as int], down);
        transitions_within(
            moved.trail,
            window,
            (moved.value->0).alt,
            vks,
            i + 1,
            down,
            permitted,
        );
    }
}

pub(crate) broadcast proof fn key_within(
    t: Trail,
    window: usize,
    alt: u8,
    key: KeyName,
    down: bool,
    permitted: spec_fn(Request) -> bool,
)
    requires
        #[trigger] permits_queries(permitted),
        permits_posts(permitted, window),
    ensures
        within(t, (#[trigger] emitter::key_flow(t, window, alt, key, down)).trail, permitted),
{
    broadcast use {group_within, transitions_within};

}

pub(crate) broadcast proof fn release_held_within(
    t: Trail,
    window: usize,
    alt: u8,
    keys: Seq<KeyName>,
    n: nat,
    so_far: Outcome,
    permitted: spec_fn(Request) -> bool,
)
    requires
        #[trigger] permits_queries(permitted),
        permits_posts(permitted, window),
    ensures
        within(
            t,
            (#[trigger] emitter::release_held_flow(t, window, alt, keys, n, so_far)).trail,
            permitted,
        ),
    decreases n,
{
    broadcast use {group_within, key_within};

    if n > 0 {
        let released = emitter::key_flow(t, window, alt, keys[n - 1], false);
        let turn = released.value->0;
        release_held_within(
            released.trail,
            window,
            turn.alt,
            keys,
            (n - 1) as nat,
            global::first_failure(so_far, turn.result),
            permitted,
        );
    }
}

pub(crate) broadcast proof fn press_held_within(
    t: Trail,
    window: usize,
    alt: u8,
    keys: Seq<KeyName>,
    i: nat,
    permitted: spec_fn(Request) -> bool,
)
    requires
        #[trigger] permits_queries(permitted),
        permits_posts(permitted, window),
    ensures
        within(t, (#[trigger] emitter::press_held_flow(t, window, alt, keys, i)).trail, permitted),
    decreases keys.len() - i,
{
    broadcast use {group_within, key_within, release_held_within};

    if i < keys.len() {
        let pressed = emitter::key_flow(t, window, alt, keys[i as int], true);
        press_held_within(pressed.trail, window, (pressed.value->0).alt, keys, i + 1, permitted);
    }
}

pub(crate) broadcast proof fn posted_clicks_within(
    t: Trail,
    target: usize,
    point: isize,
    button: MouseButton,
    count: u32,
    flags: usize,
    wants_double: bool,
    index: nat,
    permitted: spec_fn(Request) -> bool,
)
    requires
        #[trigger] permits_queries(permitted),
        permits_posts(permitted, target),
    ensures
        within(
            t,
            (#[trigger] background::clicks_flow(
                t,
                target,
                point,
                button,
                count,
                flags,
                wants_double,
                index,
            )).trail,
            permitted,
        ),
    decreases count - index,
{
    broadcast use group_within;

    if index < count {
        let clicked = background::click_flow(
            t,
            target,
            point,
            button,
            flags,
            wants_double,
            index as u32,
        );
        posted_clicks_within(
            clicked.trail,
            target,
            point,
            button,
            count,
            flags,
            wants_double,
            index + 1,
            permitted,
        );
    }
}

pub(crate) broadcast proof fn drag_moves_within(
    t: Trail,
    target: usize,
    path: Seq<Spot>,
    i: nat,
    flags: usize,
    end: isize,
    permitted: spec_fn(Request) -> bool,
)
    requires
        #[trigger] permits_queries(permitted),
        permits_posts(permitted, target),
    ensures
        within(
            t,
            (#[trigger] background::drag_moves_flow(t, target, path, i, flags, end)).trail,
            permitted,
        ),
    decreases path.len() - i,
{
    broadcast use group_within;

    if i < path.len() {
        let mapped = background::client_point_flow(t, target, path[i as int]);
        let location = (mapped.value->0)->Ok_0;
        let moved = emitter::post_flow(mapped.trail, target, WM_MOUSEMOVE, flags, location);
        let slept = moved.trail.plain(Plain::Sleep { millis: background::DRAG_STEP });
        drag_moves_within(slept.trail, target, path, i + 1, flags, location, permitted);
    }
}

/// The window that a posting goes to.
pub open spec fn posting_target(posting: Posting<Seq<Spot>>) -> usize {
    match posting {
        Posting::Clicks { target, .. } => target,
        Posting::Drag { target, .. } => target,
    }
}

pub(crate) broadcast proof fn posted_modifiers_within(
    t: Trail,
    window: usize,
    modifiers: Modifiers,
    posting: Posting<Seq<Spot>>,
    permitted: spec_fn(Request) -> bool,
)
    requires
        #[trigger] permits_queries(permitted),
        permits_posts(permitted, window),
        permits_posts(permitted, posting_target(posting)),
    ensures
        within(
            t,
            (#[trigger] background::with_modifiers_flow(t, window, modifiers, posting)).trail,
            permitted,
        ),
{
    broadcast use {
        group_within,
        press_held_within,
        posted_clicks_within,
        drag_moves_within,
        release_held_within,
    };

}

pub(crate) broadcast proof fn contained_within(
    t: Trail,
    root: usize,
    window: usize,
    modifiers: Modifiers,
    posting: Posting<Seq<Spot>>,
    permitted: spec_fn(Request) -> bool,
)
    requires
        #[trigger] permits_queries(permitted),
        permits_posts(permitted, window),
        permits_posts(permitted, posting_target(posting)),
        permits_background(permitted),
    ensures
        within(
            t,
            (#[trigger] background::contained_flow(t, root, window, modifiers, posting)).trail,
            permitted,
        ),
{
    broadcast use {
        group_within,
        unshielded_contain_within,
        posted_modifiers_within,
        unshielded_release_within,
    };

}

pub(crate) broadcast proof fn posted_drag_within(
    t: Trail,
    id: Seq<char>,
    root: usize,
    path: Seq<Spot>,
    button: MouseButton,
    modifiers: Modifiers,
    permitted: spec_fn(Request) -> bool,
)
    requires
        #[trigger] permits_queries(permitted),
        permits_background(permitted),
    ensures
        within(
            t,
            (#[trigger] background::posted_drag_flow(t, id, root, path, button, modifiers)).trail,
            permitted,
        ),
{
    broadcast use {group_within, descend_within, contained_within};

}

pub(crate) broadcast proof fn posted_gesture_within(
    t: Trail,
    id: Seq<char>,
    root: usize,
    gesture: Gesture,
    permitted: spec_fn(Request) -> bool,
)
    requires
        #[trigger] permits_queries(permitted),
        permits_background(permitted),
    ensures
        within(
            t,
            (#[trigger] background::posted_gesture_flow(t, id, root, gesture)).trail,
            permitted,
        ),
{
    broadcast use {group_within, descend_within, contained_within, posted_drag_within};

}

pub(crate) broadcast proof fn background_pointer_within(
    t: Trail,
    id: Seq<char>,
    gesture: Gesture,
    permitted: spec_fn(Request) -> bool,
)
    requires
        #[trigger] permits_queries(permitted),
        permits_background(permitted),
    ensures
        within(t, (#[trigger] background::pointer_flow(t, id, gesture)).trail, permitted),
{
    broadcast use {
        group_within,
        ensure_integrity_within,
        drop_reason_within,
        posted_gesture_within,
    };

}

pub(crate) broadcast proof fn background_key_chord_within(
    t: Trail,
    id: Seq<char>,
    keys: Seq<KeyName>,
    permitted: spec_fn(Request) -> bool,
)
    requires
        #[trigger] permits_queries(permitted),
        permits_background(permitted),
    ensures
        within(t, (#[trigger] background::key_chord_flow(t, id, keys)).trail, permitted),
{
    broadcast use {
        group_within,
        ensure_delivery_within,
        search_focus_within,
        press_held_within,
        release_held_within,
    };

}

pub(crate) broadcast proof fn typed_units_within(
    t: Trail,
    window: usize,
    units: Seq<u16>,
    i: nat,
    permitted: spec_fn(Request) -> bool,
)
    requires
        #[trigger] permits_queries(permitted),
        permits_posts(permitted, window),
    ensures
        within(t, (#[trigger] background::typed_units_flow(t, window, units, i)).trail, permitted),
    decreases units.len() - i,
{
    broadcast use group_within;

    if i < units.len() {
        let posted = emitter::post_flow(t, window, WM_CHAR, units[i as int] as usize, 1);
        typed_units_within(posted.trail, window, units, i + 1, permitted);
    }
}

pub(crate) broadcast proof fn typed_text_within(
    t: Trail,
    window: usize,
    alt: u8,
    units: Seq<TextUnit>,
    i: nat,
    permitted: spec_fn(Request) -> bool,
)
    requires
        #[trigger] permits_queries(permitted),
        permits_posts(permitted, window),
    ensures
        within(
            t,
            (#[trigger] background::typed_text_flow(t, window, alt, units, i)).trail,
            permitted,
        ),
    decreases units.len() - i,
{
    broadcast use {group_within, typed_units_within};

    if i < units.len() {
        let typed = background::typed_flow(t, window, alt, units[i as int]);
        typed_text_within(typed.trail, window, (typed.value->0).alt, units, i + 1, permitted);
    }
}

pub(crate) broadcast proof fn background_type_text_within(
    t: Trail,
    id: Seq<char>,
    text: Seq<char>,
    permitted: spec_fn(Request) -> bool,
)
    requires
        #[trigger] permits_queries(permitted),
        permits_background(permitted),
    ensures
        within(t, (#[trigger] background::type_text_flow(t, id, text)).trail, permitted),
{
    broadcast use {group_within, ensure_delivery_within, search_focus_within, typed_text_within};

}

pub(crate) broadcast proof fn release_keys_within(
    t: Trail,
    keys: Seq<KeyName>,
    n: nat,
    so_far: Outcome,
    permitted: spec_fn(Request) -> bool,
)
    requires
        #[trigger] permits_global(permitted),
    ensures
        within(t, (#[trigger] global::release_keys_flow(t, keys, n, so_far)).trail, permitted),
    decreases n,
{
    broadcast use group_within;

    if n > 0 {
        let released = global::perform_flow(
            t,
            Plain::GlobalKey { key: keys[n - 1], direction: Direction::Release },
        );
        release_keys_within(
            released.trail,
            keys,
            (n - 1) as nat,
            global::first_failure(so_far, released.value->0),
            permitted,
        );
    }
}

pub(crate) broadcast proof fn press_keys_within(
    t: Trail,
    keys: Seq<KeyName>,
    i: nat,
    permitted: spec_fn(Request) -> bool,
)
    requires
        #[trigger] permits_global(permitted),
    ensures
        within(t, (#[trigger] global::press_keys_flow(t, keys, i)).trail, permitted),
    decreases keys.len() - i,
{
    broadcast use {group_within, release_keys_within};

    if i < keys.len() {
        let pressed = global::perform_flow(
            t,
            Plain::GlobalKey { key: keys[i as int], direction: Direction::Press },
        );
        press_keys_within(pressed.trail, keys, i + 1, permitted);
    }
}

pub(crate) broadcast proof fn global_clicks_within(
    t: Trail,
    button: MouseButton,
    left: nat,
    permitted: spec_fn(Request) -> bool,
)
    requires
        #[trigger] permits_global(permitted),
    ensures
        within(t, (#[trigger] global::clicks_flow(t, button, left)).trail, permitted),
    decreases left,
{
    broadcast use group_within;

    if left > 0 {
        let clicked = global::perform_flow(
            t,
            Plain::GlobalButton { button, direction: Direction::Click },
        );
        global_clicks_within(clicked.trail, button, (left - 1) as nat, permitted);
    }
}

pub(crate) broadcast proof fn global_moves_within(
    t: Trail,
    path: Seq<Spot>,
    i: nat,
    permitted: spec_fn(Request) -> bool,
)
    requires
        #[trigger] permits_global(permitted),
    ensures
        within(t, (#[trigger] global::moves_flow(t, path, i)).trail, permitted),
    decreases path.len() - i,
{
    broadcast use group_within;

    if i < path.len() {
        let moved = global::perform_flow(t, Plain::GlobalMove { at: path[i as int] });
        global_moves_within(moved.trail, path, i + 1, permitted);
    }
}

pub(crate) broadcast proof fn global_modifiers_within(
    t: Trail,
    modifiers: Modifiers,
    held: Held<Seq<Spot>>,
    permitted: spec_fn(Request) -> bool,
)
    requires
        #[trigger] permits_global(permitted),
    ensures
        within(
            t,
            (#[trigger] global::with_global_modifiers_flow(t, modifiers, held)).trail,
            permitted,
        ),
{
    broadcast use {
        group_within,
        press_keys_within,
        global_clicks_within,
        global_moves_within,
        release_keys_within,
    };

}

pub(crate) broadcast proof fn global_pointer_within(
    t: Trail,
    gesture: Gesture,
    permitted: spec_fn(Request) -> bool,
)
    requires
        #[trigger] permits_global(permitted),
    ensures
        within(t, (#[trigger] global::global_pointer_flow(t, gesture)).trail, permitted),
{
    broadcast use {group_within, global_modifiers_within};

}

pub(crate) broadcast proof fn global_key_chord_within(
    t: Trail,
    keys: Seq<KeyName>,
    permitted: spec_fn(Request) -> bool,
)
    requires
        #[trigger] permits_global(permitted),
    ensures
        within(t, (#[trigger] global::global_key_chord_flow(t, keys)).trail, permitted),
{
    broadcast use {group_within, press_keys_within, release_keys_within};

}

pub(crate) broadcast proof fn bring_forward_within(
    t: Trail,
    id: Seq<char>,
    target: usize,
    previous: usize,
    permitted: spec_fn(Request) -> bool,
)
    requires
        #[trigger] permits_queries(permitted),
        permits_focus(permitted, target),
        permits_focus(permitted, previous),
        permits_token(permitted),
    ensures
        within(
            t,
            (#[trigger] foreground::bring_forward_flow(t, id, target, previous)).trail,
            permitted,
        ),
{
    broadcast use {group_within, activate_within, poll_within};

}

pub(crate) broadcast proof fn guard_activate_within(
    t: Trail,
    id: Seq<char>,
    settle: u64,
    permitted: spec_fn(Request) -> bool,
)
    requires
        #[trigger] permits_queries(permitted),
        permits_any_focus(permitted),
        permits_token(permitted),
    ensures
        within(t, (#[trigger] ForegroundGuard::activate_flow(t, id, settle)).trail, permitted),
{
    broadcast use {group_within, ensure_integrity_within, bring_forward_within};

}

pub(crate) broadcast proof fn injected_clicks_within(
    t: Trail,
    at: InputEvent,
    button: MouseButton,
    left: nat,
    permitted: spec_fn(Request) -> bool,
)
    requires
        #[trigger] permits_injection(permitted),
    ensures
        within(t, (#[trigger] foreground::clicks_flow(t, at, button, left)).trail, permitted),
    decreases left,
{
    broadcast use group_within;

    if left > 0 {
        let clicked = foreground::send_flow(t, foreground::click_events(at, button));
        injected_clicks_within(clicked.trail, at, button, (left - 1) as nat, permitted);
    }
}

pub(crate) broadcast proof fn injected_moves_within(
    t: Trail,
    path: Seq<Spot>,
    i: nat,
    permitted: spec_fn(Request) -> bool,
)
    requires
        #[trigger] permits_queries(permitted),
        permits_injection(permitted),
    ensures
        within(t, (#[trigger] foreground::moves_flow(t, path, i)).trail, permitted),
    decreases path.len() - i,
{
    broadcast use group_within;

    if i < path.len() {
        let slept = t.plain(Plain::Sleep { millis: foreground::DRAG_STEP });
        let moved = foreground::send_move_flow(slept.trail, path[i as int]);
        injected_moves_within(moved.trail, path, i + 1, permitted);
    }
}

pub(crate) broadcast proof fn holding_within(
    t: Trail,
    presses: Seq<InputEvent>,
    releases: Seq<InputEvent>,
    injection: Injection<Seq<Spot>>,
    permitted: spec_fn(Request) -> bool,
)
    requires
        #[trigger] permits_queries(permitted),
        permits_injection(permitted),
    ensures
        within(
            t,
            (#[trigger] foreground::holding_flow(t, presses, releases, injection)).trail,
            permitted,
        ),
{
    broadcast use {group_within, injected_clicks_within, injected_moves_within};

}

pub(crate) broadcast proof fn key_events_within(
    t: Trail,
    vks: Seq<u16>,
    up: bool,
    i: nat,
    so_far: Seq<InputEvent>,
    permitted: spec_fn(Request) -> bool,
)
    requires
        #[trigger] permits_queries(permitted),
    ensures
        within(t, (#[trigger] foreground::key_events_flow(t, vks, up, i, so_far)).trail, permitted),
    decreases vks.len() - i,
{
    broadcast use group_within;

    if i < vks.len() {
        let event = foreground::key_event_flow(t, vks[i as int], up);
        key_events_within(event.trail, vks, up, i + 1, so_far.push(event.value->0), permitted);
    }
}

pub(crate) broadcast proof fn gesture_within(
    t: Trail,
    gesture: Gesture,
    permitted: spec_fn(Request) -> bool,
)
    requires
        #[trigger] permits_queries(permitted),
        permits_injection(permitted),
    ensures
        within(t, (#[trigger] foreground::gesture_flow(t, gesture)).trail, permitted),
{
    broadcast use {group_within, key_events_within, holding_within};

}

pub(crate) broadcast proof fn foreground_pointer_within(
    t: Trail,
    id: Seq<char>,
    gesture: Gesture,
    permitted: spec_fn(Request) -> bool,
)
    requires
        #[trigger] permits_queries(permitted),
        permits_foreground(permitted),
    ensures
        within(t, (#[trigger] foreground::pointer_flow(t, id, gesture)).trail, permitted),
{
    broadcast use {group_within, guard_activate_within, gesture_within, activate_within};

}

pub(crate) broadcast proof fn virtual_keys_within(
    t: Trail,
    keys: Seq<KeyName>,
    i: nat,
    so_far: Seq<u16>,
    permitted: spec_fn(Request) -> bool,
)
    requires
        #[trigger] permits_queries(permitted),
    ensures
        within(t, (#[trigger] foreground::virtual_keys_flow(t, keys, i, so_far)).trail, permitted),
    decreases keys.len() - i,
{
    broadcast use group_within;

    if i < keys.len() {
        let found = emitter::virtual_key_flow(t, keys[i as int]);
        let vk = (found.value->0)->Ok_0;
        virtual_keys_within(
            found.trail,
            keys,
            i + 1,
            so_far + emitter::implied_keys(vk.1) + seq![vk.0],
            permitted,
        );
    }
}

pub(crate) broadcast proof fn foreground_key_chord_within(
    t: Trail,
    id: Seq<char>,
    keys: Seq<KeyName>,
    permitted: spec_fn(Request) -> bool,
)
    requires
        #[trigger] permits_queries(permitted),
        permits_foreground(permitted),
    ensures
        within(t, (#[trigger] foreground::key_chord_flow(t, id, keys)).trail, permitted),
{
    broadcast use {
        group_within,
        virtual_keys_within,
        key_events_within,
        guard_activate_within,
        holding_within,
        activate_within,
    };

}

pub(crate) broadcast proof fn text_events_within(
    t: Trail,
    units: Seq<TextUnit>,
    i: nat,
    so_far: Seq<InputEvent>,
    permitted: spec_fn(Request) -> bool,
)
    requires
        #[trigger] permits_queries(permitted),
    ensures
        within(t, (#[trigger] foreground::text_events_flow(t, units, i, so_far)).trail, permitted),
    decreases units.len() - i,
{
    broadcast use group_within;

    if i < units.len() {
        match units[i as int] {
            TextUnit::Enter => {
                let press = foreground::key_event_flow(t, VK_RETURN, false);
                let release = foreground::key_event_flow(press.trail, VK_RETURN, true);
                text_events_within(
                    release.trail,
                    units,
                    i + 1,
                    so_far.push(press.value->0).push(release.value->0),
                    permitted,
                );
            },
            TextUnit::Char(c) => {
                text_events_within(
                    t,
                    units,
                    i + 1,
                    so_far + foreground::unit_events(text::utf16(c)),
                    permitted,
                );
            },
        }
    }
}

pub(crate) broadcast proof fn foreground_type_text_within(
    t: Trail,
    id: Seq<char>,
    text: Seq<char>,
    permitted: spec_fn(Request) -> bool,
)
    requires
        #[trigger] permits_queries(permitted),
        permits_foreground(permitted),
    ensures
        within(t, (#[trigger] foreground::type_text_flow(t, id, text)).trail, permitted),
{
    broadcast use {group_within, text_events_within, guard_activate_within, activate_within};

}

/// The procedures that look before they act change nothing: they only make
/// queries.
pub proof fn law_checks_are_quiet(
    t: Trail,
    window: usize,
    screen: Point,
    id: Seq<char>,
    kind: EventKind,
    millis: u64,
)
    ensures
        within(t, delivery::hwnd_flow(t, id).trail, |c: Request| is_query(c)),
        within(
            t,
            delivery::ensure_delivery_flow(t, id, window, kind).trail,
            |c: Request| is_query(c),
        ),
        within(
            t,
            delivery::ensure_text_supported_flow(t, id, window).trail,
            |c: Request| is_query(c),
        ),
        within(t, window::deepest_child_flow(t, window, screen).trail, |c: Request| is_query(c)),
        within(t, window::focused_descendant_flow(t, window).trail, |c: Request| is_query(c)),
        within(t, window::owns_foreground_flow(t, window).trail, |c: Request| is_query(c)),
        within(
            t,
            activation::wait_for_foreground_flow(t, window, millis).trail,
            |c: Request| is_query(c),
        ),
{
    broadcast use {
        group_within, ensure_delivery_within, descend_within, search_focus_within, poll_within,
    };

    assert(permits_queries(|c: Request| is_query(c)));
}

/// Input posted to a window makes no call but queries, posted messages, invoked
/// controls and what keeps the foreground with the user: it injects nothing and
/// does not touch the user's own pointer and keyboard.
pub proof fn law_posted_input_leaves_the_user_alone(
    t: Trail,
    id: Seq<char>,
    gesture: Gesture,
    keys: Seq<KeyName>,
    text: Seq<char>,
)
    ensures
        within(
            t,
            input::pointer_flow(t, Route::Posted(id), gesture).trail,
            |c: Request| in_background(c),
        ),
        within(
            t,
            input::key_chord_flow(t, Route::Posted(id), keys).trail,
            |c: Request| in_background(c),
        ),
        within(
            t,
            input::type_text_flow(t, Route::Posted(id), text).trail,
            |c: Request| in_background(c),
        ),
{
    broadcast use {
        within_nothing, background_pointer_within, background_key_chord_within,
        background_type_text_within,
    };

    assert(permits_queries(|c: Request| in_background(c)));
    assert(permits_background(|c: Request| in_background(c)));
}

/// Input injected into a window makes no call but queries, injections,
/// activations and moves of the cursor: it posts nothing.
pub proof fn law_injected_input_is_not_posted(
    t: Trail,
    id: Seq<char>,
    gesture: Gesture,
    keys: Seq<KeyName>,
    text: Seq<char>,
)
    ensures
        within(
            t,
            input::pointer_flow(t, Route::Injected(id), gesture).trail,
            |c: Request| in_foreground(c),
        ),
        within(
            t,
            input::key_chord_flow(t, Route::Injected(id), keys).trail,
            |c: Request| in_foreground(c),
        ),
        within(
            t,
            input::type_text_flow(t, Route::Injected(id), text).trail,
            |c: Request| in_foreground(c),
        ),
{
    broadcast use {
        within_nothing, foreground_pointer_within, foreground_key_chord_within,
        foreground_type_text_within,
    };

    assert(permits_queries(|c: Request| in_foreground(c)));
    assert(permits_foreground(|c: Request| in_foreground(c)));
}

/// Input for the desktop goes through the user's own devices and nothing else.
pub proof fn law_desktop_input_is_global(
    t: Trail,
    gesture: Gesture,
    keys: Seq<KeyName>,
    text: Seq<char>,
)
    ensures
        within(
            t,
            input::pointer_flow(t, Route::Global, gesture).trail,
            |c: Request| is_global(c),
        ),
        within(
            t,
            input::key_chord_flow(t, Route::Global, keys).trail,
            |c: Request| is_global(c),
        ),
        within(
            t,
            input::type_text_flow(t, Route::Global, text).trail,
            |c: Request| is_global(c),
        ),
{
    broadcast use {group_within, global_pointer_within, global_key_chord_within};

    assert(permits_global(|c: Request| is_global(c)));
}

/// Posted keys and text all go to one window.
pub proof fn law_posted_keys_reach_one_window(
    t: Trail,
    window: usize,
    keys: Seq<KeyName>,
    alt: u8,
    units: Seq<TextUnit>,
)
    ensures
        within(
            t,
            background::posted_chord_flow(t, window, keys).trail,
            |c: Request| is_query(c) || posts_to(c, window),
        ),
        within(
            t,
            background::typed_text_flow(t, window, alt, units, 0).trail,
            |c: Request| is_query(c) || posts_to(c, window),
        ),
{
    broadcast use {group_within, press_held_within, release_held_within, typed_text_within};

    assert(permits_queries(|c: Request| is_query(c) || posts_to(c, window)));
    assert(permits_posts(|c: Request| is_query(c) || posts_to(c, window), window));
}

/// An identifier that names no window ends a request before any call.
pub proof fn law_invalid_id_makes_no_call(
    t: Trail,
    id: Seq<char>,
    gesture: Gesture,
    keys: Seq<KeyName>,
    text: Seq<char>,
)
    requires
        text::word_of(id) is None,
    ensures
        background::pointer_flow(t, id, gesture).trail == t,
        background::pointer_flow(t, id, gesture).value matches Some(Err(fault)) && fault.kind
            is InvalidTarget,
        background::key_chord_flow(t, id, keys).trail == t,
        background::key_chord_flow(t, id, keys).value matches Some(Err(fault)) && fault.kind
            is InvalidTarget,
        background::type_text_flow(t, id, text).trail == t,
        background::type_text_flow(t, id, text).value matches Some(Err(fault)) && fault.kind
            is InvalidTarget,
        input::raise_window_flow(t, id).trail == t,
        input::raise_window_flow(t, id).value matches Some(Err(fault)) && fault.kind
            is InvalidTarget,
{
}

/// A window that runs at a higher integrity level is refused: the caller gets
/// the refusal, and nothing but queries was made.
pub proof fn law_higher_integrity_gets_nothing(
    t: Trail,
    id: Seq<char>,
    root: usize,
    fault: Fault,
    gesture: Gesture,
    keys: Seq<KeyName>,
    settle: u64,
)
    requires
        delivery::hwnd_flow(t, id).value == Some(Ok::<usize, Fault>(root)),
        delivery::ensure_integrity_flow(delivery::hwnd_flow(t, id).trail, id, root).value == Some(
            Err::<(), Fault>(fault),
        ),
    ensures
        fault.kind is PermissionDenied,
        background::pointer_flow(t, id, gesture).value == Some(Err::<(), Fault>(fault)),
        within(t, background::pointer_flow(t, id, gesture).trail, |c: Request| is_query(c)),
        background::key_chord_flow(t, id, keys).value == Some(Err::<(), Fault>(fault)),
        within(t, background::key_chord_flow(t, id, keys).trail, |c: Request| is_query(c)),
        ForegroundGuard::activate_flow(t, id, settle).value == Some(
            Err::<ForegroundGuard, Fault>(fault),
        ),
        within(t, ForegroundGuard::activate_flow(t, id, settle).trail, |c: Request| is_query(c)),
{
    broadcast use {group_within, ensure_integrity_within};

    assert(permits_queries(|c: Request| is_query(c)));
}

/// Input that the window would drop is refused before anything is posted.
pub proof fn law_undeliverable_keys_are_not_posted(
    t: Trail,
    id: Seq<char>,
    root: usize,
    fault: Fault,
    keys: Seq<KeyName>,
)
    requires
        delivery::hwnd_flow(t, id).value == Some(Ok::<usize, Fault>(root)),
        delivery::ensure_delivery_flow(
            delivery::hwnd_flow(t, id).trail,
            id,
            root,
            background::chord_kind(keys),
        ).value == Some(Err::<(), Fault>(fault)),
    ensures
        background::key_chord_flow(t, id, keys).value == Some(Err::<(), Fault>(fault)),
        within(t, background::key_chord_flow(t, id, keys).trail, |c: Request| is_query(c)),
{
    broadcast use {group_within, ensure_delivery_within};

    assert(permits_queries(|c: Request| is_query(c)));
}

/// A window that does not come to the front gets no input: the caller gets the
/// failure, whatever was to be injected, and nothing but queries, activations
/// and the no-op key was sent.
pub proof fn law_unreached_window_gets_no_input(
    t: Trail,
    id: Seq<char>,
    settle: u64,
    input: spec_fn(Trail) -> Flow<Outcome>,
    fault: Fault,
)
    requires
        ForegroundGuard::activate_flow(t, id, settle).value == Some(
            Err::<ForegroundGuard, Fault>(fault),
        ),
    ensures
        foreground::in_front_flow(t, id, settle, input).value == Some(Err::<(), Fault>(fault)),
        within(
            t,
            foreground::in_front_flow(t, id, settle, input).trail,
            |c: Request| is_query(c) || is_token(c) || is_activation(c),
        ),
{
    broadcast use {group_within, guard_activate_within};

    let permitted = |c: Request| is_query(c) || is_token(c) || is_activation(c);
    assert(permits_queries(permitted));
    assert(permits_token(permitted));
    assert forall|window: usize| #[trigger] permits_focus(permitted, window) by {
        assert forall|call: Request| focuses(call, window) implies #[trigger] permitted(call) by {
            assert(is_activation(call));
        }
    }
    assert(permits_any_focus(permitted));
}

/// Containment shields its own window and nothing else, and its release sets no
/// foreground window but the one that the user had before.
pub proof fn law_containment_only_hands_back(
    t: Trail,
    root: usize,
    shield_host: bool,
    armed: Containment,
)
    ensures
        within(
            t,
            activation::contain_flow(t, root, shield_host).trail,
            |c: Request| is_query(c) || shields(c, root),
        ),
        activation::contain_flow(t, root, shield_host).value matches Some(Some(guard)) ==> {
            &&& guard.root == root
            &&& guard.previous == t.upcoming(0).handle_value()
            &&& guard.previous != 0
        },
        within(
            t,
            activation::release_flow(t, Some(armed)).trail,
            |c: Request| is_query(c) || shields(c, armed.root) || focuses(c, armed.previous),
        ),
{
    broadcast use {group_within, contain_within, release_within};

    let shielding = |c: Request| is_query(c) || shields(c, root);
    assert(permits_queries(shielding));
    assert(permits_shield(shielding, root));
    let releasing = |c: Request|
        is_query(c) || shields(c, armed.root) || focuses(c, armed.previous);
    assert(permits_queries(releasing));
    assert(permits_shield(releasing, armed.root));
    assert(permits_focus(releasing, armed.previous));
}

/// Raising a window restores and activates that window and sends it no input.
pub proof fn law_raising_sends_no_input(t: Trail, id: Seq<char>)
    ensures
        within(
            t,
            input::raise_window_flow(t, id).trail,
            |c: Request| is_query(c) || is_token(c) || is_activation(c) || is_restore(c),
        ),
{
    broadcast use {group_within, activate_within, poll_within};

    let permitted = |c: Request|
        is_query(c) || is_token(c) || is_activation(c) || is_restore(c);
    assert(permits_queries(permitted));
    assert(permits_token(permitted));
    assert forall|window: usize| #[trigger] permits_focus(permitted, window) by {
        assert forall|call: Request| focuses(call, window) implies #[trigger] permitted(call) by {
            assert(is_activation(call));
        }
    }
    assert forall|u: Trail, window: usize| within(
        u,
        (#[trigger] u.plain(Plain::Restore { window })).trail,
        permitted,
    ) by {
        reveal(within);
        assert(permitted(Request::Plain(Plain::Restore { window })));
    }
}

/// Every key that was held is released at some point, whatever fails and
/// whatever its layout position asks for.
pub proof fn law_every_held_key_is_released(
    t: Trail,
    window: usize,
    alt: u8,
    keys: Seq<KeyName>,
    n: nat,
    so_far: Outcome,
    j: int,
) -> (at: (Trail, u8))
    requires
        0 <= j < n <= keys.len(),
        emitter::release_held_flow(t, window, alt, keys, n, so_far).value is Some,
    ensures
        ({
            let end = emitter::release_held_flow(t, window, alt, keys, n, so_far).trail;
            let release = emitter::key_flow(at.0, window, at.1, keys[j], false);
            &&& extends(t, at.0)
            &&& release.value is Some
            &&& extends(release.trail, end)
        }),
    decreases n,
{
    broadcast use {within_nothing, key_within, release_held_within};

    let permitted = |c: Request| is_query(c) || posts_to(c, window);
    assert(permits_queries(permitted));
    assert(permits_posts(permitted, window));
    reveal(within);
    let released = emitter::key_flow(t, window, alt, keys[n - 1], false);
    let turn = released.value->0;
    let failure = global::first_failure(so_far, turn.result);
    let rest = emitter::release_held_flow(
        released.trail,
        window,
        turn.alt,
        keys,
        (n - 1) as nat,
        failure,
    );
    assert(within(t, released.trail, permitted));
    assert(within(released.trail, rest.trail, permitted));
    if j == n - 1 {
        (t, alt)
    } else {
        let at = law_every_held_key_is_released(
            released.trail,
            window,
            turn.alt,
            keys,
            (n - 1) as nat,
            failure,
            j,
        );
        assert forall|i: int| 0 <= i < t.calls.len() implies at.0.calls[i]
            == #[trigger] t.calls[i] by {
            assert(released.trail.calls[i] == t.calls[i]);
        }
        at
    }
}

} // verus!
