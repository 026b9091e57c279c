//! Why a procedure may be run again from the start.
//!
//! The host runs a procedure on the answers it has, makes the call the run
//! waits for, and runs it again with one more answer. That is sound where a run
//! without a value waits for a call, and where a run on more answers repeats
//! the one before. Each flow is shown to do both, from the single call up to
//! the entry points that the laws at the end speak of.

use vstd::prelude::*;

use crate::activation::Containment;
use crate::background::Posting;
use crate::error::{Fault, Outcome};
use crate::foreground::{ForegroundGuard, Injection};
use crate::global::Held;
use crate::input::Route;
use crate::keys::{KeyName, Modifiers, MouseButton};
use crate::request::{Axis, Direction, EventKind, Gesture, InputEvent, Point, Spot, TextUnit};
use crate::tape::{Flow, Plain, Reply, Request, Trail};
use crate::win32::{
    CWP_SKIPDISABLED, CWP_SKIPINVISIBLE, CWP_SKIPTRANSPARENT, GA_PARENT, GA_ROOTOWNER, VK_RETURN,
    WM_CHAR, WM_MOUSEMOVE, WM_NCHITTEST,
};
use crate::{
    activation, background, delivery, emitter, foreground, global, input, text, window,
};

verus! {

/// Whether `later` begins with the calls of `earlier`.
#[verifier::opaque]
pub open spec fn grows(earlier: Trail, later: Trail) -> bool {
    &&& earlier.calls.len() <= later.calls.len()
    &&& forall|i: int|
        0 <= i < earlier.calls.len() ==> later.calls[i] == #[trigger] earlier.calls[i]
}

impl Trail {
    /// The same trail once more answers are in.
    pub open spec fn given(self, more: Seq<Reply>) -> Trail {
        Trail { replies: self.replies + more, calls: self.calls }
    }
}

/// Whether `later`, a run on more answers, repeats `earlier`: where that one
/// yielded a value it makes the same calls and yields the same value, and else
/// it begins with the same calls.
pub open spec fn steady<T>(earlier: Flow<T>, later: Flow<T>, more: Seq<Reply>) -> bool {
    match earlier.value {
        Some(value) => later == (Flow { trail: earlier.trail.given(more), value: Some(value) }),
        None => grows(earlier.trail, later.trail),
    }
}

/// Whether `flow` goes on from `t`: it keeps the calls made before, and where
/// it yields no value it waits for the answer to its last call.
pub open spec fn proper<T>(t: Trail, flow: Flow<T>) -> bool {
    &&& onward(t, flow.trail)
    &&& flow.value is None ==> flow.trail.stalled()
}

/// Whether what a trail begins with, `later` begins with too.
pub open spec fn onward(t: Trail, later: Trail) -> bool {
    forall|earlier: Trail| #[trigger] grows(earlier, t) ==> grows(earlier, later)
}

broadcast proof fn proper_ask(t: Trail, call: Request)
    ensures
        proper(t, #[trigger] t.ask(call)),
{
    reveal(grows);
}

broadcast proof fn grows_given(t: Trail, more: Seq<Reply>)
    ensures
        grows(t, #[trigger] t.given(more)),
{
    reveal(grows);
}

broadcast proof fn steady_ask(t: Trail, call: Request, more: Seq<Reply>)
    ensures
        steady(t.ask(call), #[trigger] t.given(more).ask(call), more),
{
    reveal(grows);
}

broadcast group group_repeats {
    proper_ask,
    grows_given,
    steady_ask,
}

broadcast proof fn root_repeats(t: Trail, window: usize)
    ensures
        proper(t, #[trigger] window::root_flow(t, window)),
        forall|more: Seq<Reply>|
            steady(
                window::root_flow(t, window),
                #[trigger] window::root_flow(t.given(more), window),
                more,
            ),
{
    broadcast use group_repeats;

}

broadcast proof fn class_text_repeats(t: Trail, window: usize)
    ensures
        proper(t, #[trigger] window::class_text_flow(t, window)),
        forall|more: Seq<Reply>|
            steady(
                window::class_text_flow(t, window),
                #[trigger] window::class_text_flow(t.given(more), window),
                more,
            ),
{
    broadcast use group_repeats;

}

broadcast proof fn class_name_repeats(t: Trail, window: usize)
    ensures
        proper(t, #[trigger] window::class_name_flow(t, window)),
        forall|more: Seq<Reply>|
            steady(
                window::class_name_flow(t, window),
                #[trigger] window::class_name_flow(t.given(more), window),
                more,
            ),
{
    broadcast use {group_repeats, class_text_repeats};

}

broadcast proof fn owns_foreground_repeats(t: Trail, window: usize)
    ensures
        proper(t, #[trigger] window::owns_foreground_flow(t, window)),
        forall|more: Seq<Reply>|
            steady(
                window::owns_foreground_flow(t, window),
                #[trigger] window::owns_foreground_flow(t.given(more), window),
                more,
            ),
{
    broadcast use {group_repeats, root_repeats};

}

broadcast proof fn is_chromium_repeats(t: Trail, class: Seq<char>)
    ensures
        proper(t, #[trigger] window::is_chromium_flow(t, class)),
        forall|more: Seq<Reply>|
            steady(
                window::is_chromium_flow(t, class),
                #[trigger] window::is_chromium_flow(t.given(more), class),
                more,
            ),
{
    broadcast use group_repeats;

}

broadcast proof fn any_chromium_repeats(t: Trail, windows: Seq<usize>, i: nat)
    ensures
        proper(t, #[trigger] window::any_chromium_flow(t, windows, i)),
        forall|more: Seq<Reply>|
            steady(
                window::any_chromium_flow(t, windows, i),
                #[trigger] window::any_chromium_flow(t.given(more), windows, i),
                more,
            ),
    decreases windows.len() - i,
{
    broadcast use {group_repeats, class_text_repeats, is_chromium_repeats};

    if i < windows.len() {
        let class = window::class_text_flow(t, windows[i as int]);
        let found = window::is_chromium_flow(class.trail, class.value->0);
        any_chromium_repeats(found.trail, windows, i + 1);
    }
    assert forall|more: Seq<Reply>|
        steady(
            window::any_chromium_flow(t, windows, i),
            #[trigger] window::any_chromium_flow(t.given(more), windows, i),
            more,
        ) by {
        let s = t.given(more);
        if i < windows.len() {
            let class = window::class_text_flow(s, windows[i as int]);
            let found = window::is_chromium_flow(class.trail, class.value->0);
            any_chromium_repeats(found.trail, windows, i + 1);
        }
    }
}

broadcast proof fn has_chromium_descendant_repeats(t: Trail, window: usize)
    ensures
        proper(t, #[trigger] window::has_chromium_descendant_flow(t, window)),
        forall|more: Seq<Reply>|
            steady(
                window::has_chromium_descendant_flow(t, window),
                #[trigger] window::has_chromium_descendant_flow(t.given(more), window),
                more,
            ),
{
    broadcast use {group_repeats, any_chromium_repeats};

}

broadcast proof fn descend_repeats(
    t: Trail,
    root: usize,
    screen: Point,
    current: usize,
    client: Point,
    left: nat,
)
    ensures
        proper(t, #[trigger] window::descend_flow(t, root, screen, current, client, left)),
        forall|more: Seq<Reply>|
            steady(
                window::descend_flow(t, root, screen, current, client, left),
                #[trigger] window::descend_flow(t.given(more), root, screen, current, client, left),
                more,
            ),
    decreases left,
{
    broadcast use group_repeats;

    if left > 0 {
        let child = t.plain(
            Plain::ChildFromPoint {
                window: current,
                point: client,
                flags: CWP_SKIPINVISIBLE | CWP_SKIPDISABLED | CWP_SKIPTRANSPARENT,
            },
        );
        let window = (child.value->0).handle_value();
        let inside = child.trail.plain(Plain::IsChild { parent: root, window });
        let mapped = inside.trail.plain(Plain::ScreenToClient { window, point: screen });
        let point = (mapped.value->0).point_value()->0;
        descend_repeats(mapped.trail, root, screen, window, point, (left - 1) as nat);
    }
    assert forall|more: Seq<Reply>|
        steady(
            window::descend_flow(t, root, screen, current, client, left),
            #[trigger] window::descend_flow(t.given(more), root, screen, current, client, left),
            more,
        ) by {
        let s = t.given(more);
        if left > 0 {
            let child = s.plain(
                Plain::ChildFromPoint {
                    window: current,
                    point: client,
                    flags: CWP_SKIPINVISIBLE | CWP_SKIPDISABLED | CWP_SKIPTRANSPARENT,
                },
            );
            let window = (child.value->0).handle_value();
            let inside = child.trail.plain(Plain::IsChild { parent: root, window });
            let mapped = inside.trail.plain(Plain::ScreenToClient { window, point: screen });
            let point = (mapped.value->0).point_value()->0;
            descend_repeats(mapped.trail, root, screen, window, point, (left - 1) as nat);
        }
    }
}

broadcast proof fn deepest_child_repeats(t: Trail, root: usize, screen: Point)
    ensures
        proper(t, #[trigger] window::deepest_child_flow(t, root, screen)),
        forall|more: Seq<Reply>|
            steady(
                window::deepest_child_flow(t, root, screen),
                #[trigger] window::deepest_child_flow(t.given(more), root, screen),
                more,
            ),
{
    broadcast use {group_repeats, descend_repeats};

}

broadcast proof fn depth_repeats(t: Trail, ancestor: usize, current: usize, depth: nat)
    ensures
        proper(t, #[trigger] window::depth_flow(t, ancestor, current, depth)),
        forall|more: Seq<Reply>|
            steady(
                window::depth_flow(t, ancestor, current, depth),
                #[trigger] window::depth_flow(t.given(more), ancestor, current, depth),
                more,
            ),
    decreases window::MAX_DEPTH - depth,
{
    broadcast use group_repeats;

    if current != ancestor && depth < window::MAX_DEPTH {
        let parent = t.plain(Plain::Ancestor { window: current, relation: GA_PARENT });
        depth_repeats(
            parent.trail,
            ancestor,
            (parent.value->0).handle_value(),
            depth + 1);
    }
    assert forall|more: Seq<Reply>|
        steady(
            window::depth_flow(t, ancestor, current, depth),
            #[trigger] window::depth_flow(t.given(more), ancestor, current, depth),
            more,
        ) by {
        let s = t.given(more);
        if current != ancestor && depth < window::MAX_DEPTH {
            let parent = s.plain(Plain::Ancestor { window: current, relation: GA_PARENT });
            depth_repeats(
                parent.trail,
                ancestor,
                (parent.value->0).handle_value(),
                depth + 1);
        }
    }
}

broadcast proof fn search_focus_repeats(
    t: Trail,
    root: usize,
    threads: Seq<u32>,
    i: nat,
    best: Option<(nat, usize)>,
)
    ensures
        proper(t, #[trigger] window::search_focus_flow(t, root, threads, i, best)),
        forall|more: Seq<Reply>|
            steady(
                window::search_focus_flow(t, root, threads, i, best),
                #[trigger] window::search_focus_flow(t.given(more), root, threads, i, best),
                more,
            ),
    decreases threads.len() - i,
{
    broadcast use {group_repeats, depth_repeats};

    if i < threads.len() {
        let info = t.plain(Plain::FocusOf { thread: threads[i as int] });
        let focused = (info.value->0).found_value()->0;
        let inside = info.trail.plain(Plain::IsChild { parent: root, window: focused });
        let depth = window::depth_flow(inside.trail, root, focused, 0);
        let deeper = window::deeper_of(best, depth.value->0, focused);
        search_focus_repeats(info.trail, root, threads, i + 1, best);
        search_focus_repeats(inside.trail, root, threads, i + 1, best);
        search_focus_repeats(depth.trail, root, threads, i + 1, deeper);
    }
    assert forall|more: Seq<Reply>|
        steady(
            window::search_focus_flow(t, root, threads, i, best),
            #[trigger] window::search_focus_flow(t.given(more), root, threads, i, best),
            more,
        ) by {
        let s = t.given(more);
        if i < threads.len() {
            let info = s.plain(Plain::FocusOf { thread: threads[i as int] });
            let focused = (info.value->0).found_value()->0;
            let inside = info.trail.plain(Plain::IsChild { parent: root, window: focused });
            let depth = window::depth_flow(inside.trail, root, focused, 0);
            let deeper = window::deeper_of(best, depth.value->0, focused);
            search_focus_repeats(info.trail, root, threads, i + 1, best);
            search_focus_repeats(inside.trail, root, threads, i + 1, best);
            search_focus_repeats(depth.trail, root, threads, i + 1, deeper);
        }
    }
}

broadcast proof fn focused_descendant_repeats(t: Trail, root: usize)
    ensures
        proper(t, #[trigger] window::focused_descendant_flow(t, root)),
        forall|more: Seq<Reply>|
            steady(
                window::focused_descendant_flow(t, root),
                #[trigger] window::focused_descendant_flow(t.given(more), root),
                more,
            ),
{
    broadcast use {group_repeats, search_focus_repeats};

}

broadcast proof fn integrity_level_repeats(t: Trail, process: usize)
    ensures
        proper(t, #[trigger] window::integrity_level_flow(t, process)),
        forall|more: Seq<Reply>|
            steady(
                window::integrity_level_flow(t, process),
                #[trigger] window::integrity_level_flow(t.given(more), process),
                more,
            ),
{
    broadcast use group_repeats;

}

broadcast proof fn target_block_repeats(t: Trail, pid: u32, own: u32)
    ensures
        proper(t, #[trigger] window::target_block_flow(t, pid, own)),
        forall|more: Seq<Reply>|
            steady(
                window::target_block_flow(t, pid, own),
                #[trigger] window::target_block_flow(t.given(more), pid, own),
                more,
            ),
{
    broadcast use {group_repeats, integrity_level_repeats};

}

broadcast proof fn uipi_block_repeats(t: Trail, window: usize)
    ensures
        proper(t, #[trigger] window::uipi_block_flow(t, window)),
        forall|more: Seq<Reply>|
            steady(
                window::uipi_block_flow(t, window),
                #[trigger] window::uipi_block_flow(t.given(more), window),
                more,
            ),
{
    broadcast use {group_repeats, integrity_level_repeats, target_block_repeats};

}

broadcast proof fn executable_is_any_repeats(t: Trail, window: usize, names: Seq<&str>)
    ensures
        proper(t, #[trigger] window::executable_is_any_flow(t, window, names)),
        forall|more: Seq<Reply>|
            steady(
                window::executable_is_any_flow(t, window, names),
                #[trigger] window::executable_is_any_flow(t.given(more), window, names),
                more,
            ),
{
    broadcast use group_repeats;

}

broadcast proof fn is_xaml_host_repeats(t: Trail, root: usize)
    ensures
        proper(t, #[trigger] window::is_xaml_host_flow(t, root)),
        forall|more: Seq<Reply>|
            steady(
                window::is_xaml_host_flow(t, root),
                #[trigger] window::is_xaml_host_flow(t.given(more), root),
                more,
            ),
{
    broadcast use {group_repeats, class_text_repeats, executable_is_any_repeats};

}

broadcast proof fn hwnd_repeats(t: Trail, id: Seq<char>)
    ensures
        proper(t, #[trigger] delivery::hwnd_flow(t, id)),
        forall|more: Seq<Reply>|
            steady(
                delivery::hwnd_flow(t, id),
                #[trigger] delivery::hwnd_flow(t.given(more), id),
                more,
            ),
{
    broadcast use group_repeats;

}

broadcast proof fn ensure_integrity_repeats(t: Trail, id: Seq<char>, root: usize)
    ensures
        proper(t, #[trigger] delivery::ensure_integrity_flow(t, id, root)),
        forall|more: Seq<Reply>|
            steady(
                delivery::ensure_integrity_flow(t, id, root),
                #[trigger] delivery::ensure_integrity_flow(t.given(more), id, root),
                more,
            ),
{
    broadcast use {group_repeats, uipi_block_repeats};

}

#[verifier::spinoff_prover]
#[verifier::rlimit(60)]
broadcast proof fn drop_reason_repeats(t: Trail, root: usize, class: Seq<char>, kind: EventKind)
    ensures
        proper(t, #[trigger] delivery::drop_reason_flow(t, root, class, kind)),
        forall|more: Seq<Reply>|
            steady(
                delivery::drop_reason_flow(t, root, class, kind),
                #[trigger] delivery::drop_reason_flow(t.given(more), root, class, kind),
                more,
            ),
{
    broadcast use {
        group_repeats,
        has_chromium_descendant_repeats,
        owns_foreground_repeats,
        is_xaml_host_repeats,
    };

}

broadcast proof fn ensure_text_supported_repeats(t: Trail, id: Seq<char>, root: usize)
    ensures
        proper(t, #[trigger] delivery::ensure_text_supported_flow(t, id, root)),
        forall|more: Seq<Reply>|
            steady(
                delivery::ensure_text_supported_flow(t, id, root),
                #[trigger] delivery::ensure_text_supported_flow(t.given(more), id, root),
                more,
            ),
{
    broadcast use {group_repeats, class_name_repeats};

}

broadcast proof fn refuse_repeats(
    t: Trail,
    id: Seq<char>,
    class: Seq<char>,
    kind: EventKind,
    reason: Seq<char>,
)
    ensures
        proper(t, #[trigger] delivery::refuse_flow(t, id, class, kind, reason)),
        forall|more: Seq<Reply>|
            steady(
                delivery::refuse_flow(t, id, class, kind, reason),
                #[trigger] delivery::refuse_flow(t.given(more), id, class, kind, reason),
                more,
            ),
{
    broadcast use group_repeats;

}

broadcast proof fn ensure_delivery_repeats(t: Trail, id: Seq<char>, root: usize, kind: EventKind)
    ensures
        proper(t, #[trigger] delivery::ensure_delivery_flow(t, id, root, kind)),
        forall|more: Seq<Reply>|
            steady(
                delivery::ensure_delivery_flow(t, id, root, kind),
                #[trigger] delivery::ensure_delivery_flow(t.given(more), id, root, kind),
                more,
            ),
{
    broadcast use {
        group_repeats,
        ensure_integrity_repeats,
        class_name_repeats,
        drop_reason_repeats,
        refuse_repeats,
    };

}

broadcast proof fn attached_activate_repeats(t: Trail, target: usize, own: u32, other: u32)
    ensures
        proper(t, #[trigger] activation::attached_activate_flow(t, target, own, other)),
        forall|more: Seq<Reply>|
            steady(
                activation::attached_activate_flow(t, target, own, other),
                #[trigger] activation::attached_activate_flow(t.given(more), target, own, other),
                more,
            ),
{
    broadcast use group_repeats;

}

broadcast proof fn attach_and_activate_repeats(t: Trail, target: usize)
    ensures
        proper(t, #[trigger] activation::attach_and_activate_flow(t, target)),
        forall|more: Seq<Reply>|
            steady(
                activation::attach_and_activate_flow(t, target),
                #[trigger] activation::attach_and_activate_flow(t.given(more), target),
                more,
            ),
{
    broadcast use {group_repeats, attached_activate_repeats};

}

broadcast proof fn retry_repeats(t: Trail, target: usize, left: nat)
    ensures
        proper(t, #[trigger] activation::retry_flow(t, target, left)),
        forall|more: Seq<Reply>|
            steady(
                activation::retry_flow(t, target, left),
                #[trigger] activation::retry_flow(t.given(more), target, left),
                more,
            ),
    decreases left,
{
    broadcast use {group_repeats, attach_and_activate_repeats};

    if left > 0 {
        let active = activation::attach_and_activate_flow(t, target);
        let slept = active.trail.plain(Plain::Sleep { millis: 25 });
        retry_repeats(slept.trail, target, (left - 1) as nat);
    }
    assert forall|more: Seq<Reply>|
        steady(
            activation::retry_flow(t, target, left),
            #[trigger] activation::retry_flow(t.given(more), target, left),
            more,
        ) by {
        let s = t.given(more);
        if left > 0 {
            let active = activation::attach_and_activate_flow(s, target);
            let slept = active.trail.plain(Plain::Sleep { millis: 25 });
            retry_repeats(slept.trail, target, (left - 1) as nat);
        }
    }
}

broadcast proof fn activate_repeats(t: Trail, target: usize)
    ensures
        proper(t, #[trigger] activation::activate_flow(t, target)),
        forall|more: Seq<Reply>|
            steady(
                activation::activate_flow(t, target),
                #[trigger] activation::activate_flow(t.given(more), target),
                more,
            ),
{
    broadcast use {group_repeats, attach_and_activate_repeats, retry_repeats};

}

proof fn poll_proper(t: Trail, target: usize, deadline: int)
    ensures
        proper(t, activation::poll_flow(t, target, deadline)),
    decreases t.replies.len() - t.calls.len(),
{
    broadcast use group_repeats;

    let foreground = t.plain(Plain::ForegroundWindow);
    let window = (foreground.value->0).handle_value();
    let owner = foreground.trail.plain(Plain::Ancestor { window, relation: GA_ROOTOWNER });
    let now = owner.trail.plain(Plain::Now);
    let slept = now.trail.plain(Plain::Sleep { millis: 10 });
    if slept.value is Some {
        poll_proper(slept.trail, target, deadline);
    }
}

broadcast proof fn poll_repeats(t: Trail, target: usize, deadline: int)
    ensures
        proper(t, #[trigger] activation::poll_flow(t, target, deadline)),
        forall|more: Seq<Reply>|
            steady(
                activation::poll_flow(t, target, deadline),
                #[trigger] activation::poll_flow(t.given(more), target, deadline),
                more,
            ),
    decreases t.replies.len() - t.calls.len(),
{
    broadcast use group_repeats;

    let foreground = t.plain(Plain::ForegroundWindow);
    let window = (foreground.value->0).handle_value();
    let owner = foreground.trail.plain(Plain::Ancestor { window, relation: GA_ROOTOWNER });
    let now = owner.trail.plain(Plain::Now);
    let slept = now.trail.plain(Plain::Sleep { millis: 10 });
    if slept.value is Some {
        poll_repeats(slept.trail, target, deadline);
    }
    assert forall|more: Seq<Reply>|
        steady(
            activation::poll_flow(t, target, deadline),
            #[trigger] activation::poll_flow(t.given(more), target, deadline),
            more,
        ) by {
        let s = t.given(more);
        let foreground = s.plain(Plain::ForegroundWindow);
        let window = (foreground.value->0).handle_value();
        let owner = foreground.trail.plain(Plain::Ancestor { window, relation: GA_ROOTOWNER });
        let now = owner.trail.plain(Plain::Now);
        let slept = now.trail.plain(Plain::Sleep { millis: 10 });
        if slept.value is Some {
            poll_proper(slept.trail, target, deadline);
        }
    }
}

broadcast proof fn wait_repeats(t: Trail, target: usize, millis: u64)
    ensures
        proper(t, #[trigger] activation::wait_for_foreground_flow(t, target, millis)),
        forall|more: Seq<Reply>|
            steady(
                activation::wait_for_foreground_flow(t, target, millis),
                #[trigger] activation::wait_for_foreground_flow(t.given(more), target, millis),
                more,
            ),
{
    broadcast use {group_repeats, poll_repeats};

}

broadcast proof fn arm_no_activate_repeats(t: Trail, root: usize)
    ensures
        proper(t, #[trigger] activation::arm_no_activate_flow(t, root)),
        forall|more: Seq<Reply>|
            steady(
                activation::arm_no_activate_flow(t, root),
                #[trigger] activation::arm_no_activate_flow(t.given(more), root),
                more,
            ),
{
    broadcast use group_repeats;

}

broadcast proof fn disarm_no_activate_repeats(t: Trail, root: usize, applied: bool)
    ensures
        proper(t, #[trigger] activation::disarm_no_activate_flow(t, root, applied)),
        forall|more: Seq<Reply>|
            steady(
                activation::disarm_no_activate_flow(t, root, applied),
                #[trigger] activation::disarm_no_activate_flow(t.given(more), root, applied),
                more,
            ),
{
    broadcast use group_repeats;

}

broadcast proof fn shields_host_repeats(t: Trail, root: usize)
    ensures
        proper(t, #[trigger] activation::shields_host_flow(t, root)),
        forall|more: Seq<Reply>|
            steady(
                activation::shields_host_flow(t, root),
                #[trigger] activation::shields_host_flow(t.given(more), root),
                more,
            ),
{
    broadcast use {group_repeats, is_xaml_host_repeats, class_text_repeats, is_chromium_repeats};

}

broadcast proof fn arm_disabled_host_repeats(t: Trail, root: usize)
    ensures
        proper(t, #[trigger] activation::arm_disabled_host_flow(t, root)),
        forall|more: Seq<Reply>|
            steady(
                activation::arm_disabled_host_flow(t, root),
                #[trigger] activation::arm_disabled_host_flow(t.given(more), root),
                more,
            ),
{
    broadcast use {group_repeats, shields_host_repeats};

}

broadcast proof fn disarm_disabled_host_repeats(t: Trail, root: usize, disabled: bool)
    ensures
        proper(t, #[trigger] activation::disarm_disabled_host_flow(t, root, disabled)),
        forall|more: Seq<Reply>|
            steady(
                activation::disarm_disabled_host_flow(t, root, disabled),
                #[trigger] activation::disarm_disabled_host_flow(t.given(more), root, disabled),
                more,
            ),
{
    broadcast use group_repeats;

}

broadcast proof fn contain_repeats(t: Trail, root: usize, shield_host: bool)
    ensures
        proper(t, #[trigger] activation::contain_flow(t, root, shield_host)),
        forall|more: Seq<Reply>|
            steady(
                activation::contain_flow(t, root, shield_host),
                #[trigger] activation::contain_flow(t.given(more), root, shield_host),
                more,
            ),
{
    broadcast use {
        group_repeats,
        root_repeats,
        arm_no_activate_repeats,
        arm_disabled_host_repeats,
    };

}

broadcast proof fn hand_back_repeats(t: Trail, root: usize, previous: usize)
    ensures
        proper(t, #[trigger] activation::hand_back_flow(t, root, previous)),
        forall|more: Seq<Reply>|
            steady(
                activation::hand_back_flow(t, root, previous),
                #[trigger] activation::hand_back_flow(t.given(more), root, previous),
                more,
            ),
{
    broadcast use {group_repeats, root_repeats, attach_and_activate_repeats};

}

broadcast proof fn release_repeats(t: Trail, guard: Option<Containment>)
    ensures
        proper(t, #[trigger] activation::release_flow(t, guard)),
        forall|more: Seq<Reply>|
            steady(
                activation::release_flow(t, guard),
                #[trigger] activation::release_flow(t.given(more), guard),
                more,
            ),
{
    broadcast use {
        group_repeats,
        disarm_disabled_host_repeats,
        hand_back_repeats,
        disarm_no_activate_repeats,
    };

}

broadcast proof fn post_repeats(
    t: Trail,
    window: usize,
    message: u32,
    wparam: usize,
    lparam: isize,
)
    ensures
        proper(t, #[trigger] emitter::post_flow(t, window, message, wparam, lparam)),
        forall|more: Seq<Reply>|
            steady(
                emitter::post_flow(t, window, message, wparam, lparam),
                #[trigger] emitter::post_flow(t.given(more), window, message, wparam, lparam),
                more,
            ),
{
    broadcast use group_repeats;

}

broadcast proof fn virtual_key_repeats(t: Trail, key: KeyName)
    ensures
        proper(t, #[trigger] emitter::virtual_key_flow(t, key)),
        forall|more: Seq<Reply>|
            steady(
                emitter::virtual_key_flow(t, key),
                #[trigger] emitter::virtual_key_flow(t.given(more), key),
                more,
            ),
{
    broadcast use group_repeats;

}

broadcast proof fn transition_repeats(t: Trail, window: usize, alt: u8, vk: u16, down: bool)
    ensures
        proper(t, #[trigger] emitter::transition_flow(t, window, alt, vk, down)),
        forall|more: Seq<Reply>|
            steady(
                emitter::transition_flow(t, window, alt, vk, down),
                #[trigger] emitter::transition_flow(t.given(more), window, alt, vk, down),
                more,
            ),
{
    broadcast use {group_repeats, post_repeats};

}

broadcast proof fn transitions_repeats(
    t: Trail,
    window: usize,
    alt: u8,
    vks: Seq<u16>,
    i: nat,
    down: bool,
)
    ensures
        proper(t, #[trigger] emitter::transitions_flow(t, window, alt, vks, i, down)),
        forall|more: Seq<Reply>|
            steady(
                emitter::transitions_flow(t, window, alt, vks, i, down),
                #[trigger] emitter::transitions_flow(t.given(more), window, alt, vks, i, down),
                more,
            ),
    decreases vks.len() - i,
{
    broadcast use {group_repeats, transition_repeats};

    if i < vks.len() {
        let moved = emitter::transition_flow(t, window, alt, vks[i as int], down);
        transitions_repeats(
            moved.trail,
            window,
            (moved.value->0).alt,
            vks,
            i + 1,
            down);
    }
    assert forall|more: Seq<Reply>|
        steady(
            emitter::transitions_flow(t, window, alt, vks, i, down),
            #[trigger] emitter::transitions_flow(t.given(more), window, alt, vks, i, down),
            more,
        ) by {
        let s = t.given(more);
        if i < vks.len() {
            let moved = emitter::transition_flow(s, window, alt, vks[i as int], down);
            transitions_repeats(
                moved.trail,
                window,
                (moved.value->0).alt,
                vks,
                i + 1,
                down);
        }
    }
}

broadcast proof fn key_repeats(t: Trail, window: usize, alt: u8, key: KeyName, down: bool)
    ensures
        proper(t, #[trigger] emitter::key_flow(t, window, alt, key, down)),
        forall|more: Seq<Reply>|
            steady(
                emitter::key_flow(t, window, alt, key, down),
                #[trigger] emitter::key_flow(t.given(more), window, alt, key, down),
                more,
            ),
{
    broadcast use {group_repeats, virtual_key_repeats, transitions_repeats};

}

broadcast proof fn release_held_repeats(
    t: Trail,
    window: usize,
    alt: u8,
    keys: Seq<KeyName>,
    n: nat,
    so_far: Outcome,
)
    ensures
        proper(t, #[trigger] emitter::release_held_flow(t, window, alt, keys, n, so_far)),
        forall|more: Seq<Reply>|
            steady(
                emitter::release_held_flow(t, window, alt, keys, n, so_far),
                #[trigger] emitter::release_held_flow(t.given(more), window, alt, keys, n, so_far),
                more,
            ),
    decreases n,
{
    broadcast use {group_repeats, key_repeats};

    if n > 0 {
        let released = emitter::key_flow(t, window, alt, keys[n - 1], false);
        let turn = released.value->0;
        release_held_repeats(
            released.trail,
            window,
            turn.alt,
            keys,
            (n - 1) as nat,
            global::first_failure(so_far, turn.result));
    }
    assert forall|more: Seq<Reply>|
        steady(
            emitter::release_held_flow(t, window, alt, keys, n, so_far),
            #[trigger] emitter::release_held_flow(t.given(more), window, alt, keys, n, so_far),
            more,
        ) by {
        let s = t.given(more);
        if n > 0 {
            let released = emitter::key_flow(s, window, alt, keys[n - 1], false);
            let turn = released.value->0;
            release_held_repeats(
                released.trail,
                window,
                turn.alt,
                keys,
                (n - 1) as nat,
                global::first_failure(so_far, turn.result));
        }
    }
}

broadcast proof fn press_held_repeats(t: Trail, window: usize, alt: u8, keys: Seq<KeyName>, i: nat)
    ensures
        proper(t, #[trigger] emitter::press_held_flow(t, window, alt, keys, i)),
        forall|more: Seq<Reply>|
            steady(
                emitter::press_held_flow(t, window, alt, keys, i),
                #[trigger] emitter::press_held_flow(t.given(more), window, alt, keys, i),
                more,
            ),
    decreases keys.len() - i,
{
    broadcast use {group_repeats, key_repeats, release_held_repeats};

    if i < keys.len() {
        let pressed = emitter::key_flow(t, window, alt, keys[i as int], true);
        press_held_repeats(pressed.trail, window, (pressed.value->0).alt, keys, i + 1);
    }
    assert forall|more: Seq<Reply>|
        steady(
            emitter::press_held_flow(t, window, alt, keys, i),
            #[trigger] emitter::press_held_flow(t.given(more), window, alt, keys, i),
            more,
        ) by {
        let s = t.given(more);
        if i < keys.len() {
            let pressed = emitter::key_flow(s, window, alt, keys[i as int], true);
            press_held_repeats(pressed.trail, window, (pressed.value->0).alt, keys, i + 1);
        }
    }
}

broadcast proof fn focused_repeats(t: Trail, root: usize)
    ensures
        proper(t, #[trigger] emitter::KeyEmitter::focused_flow(t, root)),
        forall|more: Seq<Reply>|
            steady(
                emitter::KeyEmitter::focused_flow(t, root),
                #[trigger] emitter::KeyEmitter::focused_flow(t.given(more), root),
                more,
            ),
{
    broadcast use {group_repeats, focused_descendant_repeats};

}

broadcast proof fn screen_point_repeats(t: Trail, at: Spot)
    ensures
        proper(t, #[trigger] background::screen_point_flow(t, at)),
        forall|more: Seq<Reply>|
            steady(
                background::screen_point_flow(t, at),
                #[trigger] background::screen_point_flow(t.given(more), at),
                more,
            ),
{
    broadcast use group_repeats;

}

broadcast proof fn child_under_repeats(t: Trail, root: usize, point: Point)
    ensures
        proper(t, #[trigger] background::child_under_flow(t, root, point)),
        forall|more: Seq<Reply>|
            steady(
                background::child_under_flow(t, root, point),
                #[trigger] background::child_under_flow(t.given(more), root, point),
                more,
            ),
{
    broadcast use {group_repeats, deepest_child_repeats};

}

broadcast proof fn child_at_repeats(t: Trail, root: usize, at: Spot)
    ensures
        proper(t, #[trigger] background::child_at_flow(t, root, at)),
        forall|more: Seq<Reply>|
            steady(
                background::child_at_flow(t, root, at),
                #[trigger] background::child_at_flow(t.given(more), root, at),
                more,
            ),
{
    broadcast use {group_repeats, screen_point_repeats, child_under_repeats};

}

broadcast proof fn client_point_repeats(t: Trail, window: usize, at: Spot)
    ensures
        proper(t, #[trigger] background::client_point_flow(t, window, at)),
        forall|more: Seq<Reply>|
            steady(
                background::client_point_flow(t, window, at),
                #[trigger] background::client_point_flow(t.given(more), window, at),
                more,
            ),
{
    broadcast use {group_repeats, screen_point_repeats};

}

broadcast proof fn hit_test_repeats(t: Trail, root: usize, point: Point)
    ensures
        proper(t, #[trigger] background::hit_test_flow(t, root, point)),
        forall|more: Seq<Reply>|
            steady(
                background::hit_test_flow(t, root, point),
                #[trigger] background::hit_test_flow(t.given(more), root, point),
                more,
            ),
{
    broadcast use group_repeats;

}

broadcast proof fn press_repeats(
    t: Trail,
    target: usize,
    point: isize,
    press: u32,
    up: u32,
    flags: usize,
    button_flag: usize,
)
    ensures
        proper(
            t,
            #[trigger] background::press_flow(t, target, point, press, up, flags, button_flag),
        ),
        forall|more: Seq<Reply>|
            steady(
                background::press_flow(t, target, point, press, up, flags, button_flag),
                #[trigger] background::press_flow(
                    t.given(more),
                    target,
                    point,
                    press,
                    up,
                    flags,
                    button_flag,
                ),
                more,
            ),
{
    broadcast use {group_repeats, post_repeats};

}

broadcast proof fn posted_click_of_repeats(
    t: Trail,
    target: usize,
    point: isize,
    button: MouseButton,
    flags: usize,
    wants_double: bool,
    index: u32,
)
    ensures
        proper(
            t,
            #[trigger] background::click_flow(t, target, point, button, flags, wants_double, index),
        ),
        forall|more: Seq<Reply>|
            steady(
                background::click_flow(t, target, point, button, flags, wants_double, index),
                #[trigger] background::click_flow(
                    t.given(more),
                    target,
                    point,
                    button,
                    flags,
                    wants_double,
                    index,
                ),
                more,
            ),
{
    broadcast use {group_repeats, post_repeats, press_repeats};

}

broadcast proof fn posted_clicks_repeats(
    t: Trail,
    target: usize,
    point: isize,
    button: MouseButton,
    count: u32,
    flags: usize,
    wants_double: bool,
    index: nat,
)
    ensures
        proper(
            t,
            #[trigger] background::clicks_flow(
                t,
                target,
                point,
                button,
                count,
                flags,
                wants_double,
                index,
            ),
        ),
        forall|more: Seq<Reply>|
            steady(
                background::clicks_flow(
                    t,
                    target,
                    point,
                    button,
                    count,
                    flags,
                    wants_double,
                    index,
                ),
                #[trigger] background::clicks_flow(
                    t.given(more),
                    target,
                    point,
                    button,
                    count,
                    flags,
                    wants_double,
                    index,
                ),
                more,
            ),
    decreases count - index,
{
    broadcast use {group_repeats, posted_click_of_repeats};

    if index < count {
        let clicked = background::click_flow(
            t,
            target,
            point,
            button,
            flags,
            wants_double,
            index as u32,
        );
        posted_clicks_repeats(
            clicked.trail,
            target,
            point,
            button,
            count,
            flags,
            wants_double,
            index + 1);
    }
    assert forall|more: Seq<Reply>|
        steady(
            background::clicks_flow(
                t,
                target,
                point,
                button,
                count,
                flags,
                wants_double,
                index,
            ),
            #[trigger] background::clicks_flow(
                t.given(more),
                target,
                point,
                button,
                count,
                flags,
                wants_double,
                index,
            ),
            more,
        ) by {
        let s = t.given(more);
        if index < count {
            let clicked = background::click_flow(
                s,
                target,
                point,
                button,
                flags,
                wants_double,
                index as u32,
            );
            posted_clicks_repeats(
                clicked.trail,
                target,
                point,
                button,
                count,
                flags,
                wants_double,
                index + 1);
        }
    }
}

broadcast proof fn drag_moves_repeats(
    t: Trail,
    target: usize,
    path: Seq<Spot>,
    i: nat,
    flags: usize,
    end: isize,
)
    ensures
        proper(t, #[trigger] background::drag_moves_flow(t, target, path, i, flags, end)),
        forall|more: Seq<Reply>|
            steady(
                background::drag_moves_flow(t, target, path, i, flags, end),
                #[trigger] background::drag_moves_flow(t.given(more), target, path, i, flags, end),
                more,
            ),
    decreases path.len() - i,
{
    broadcast use {group_repeats, client_point_repeats, post_repeats};

    if i < path.len() {
        let mapped = background::client_point_flow(t, target, path[i as int]);
        let location = (mapped.value->0)->Ok_0;
        let moved = emitter::post_flow(mapped.trail, target, WM_MOUSEMOVE, flags, location);
        let slept = moved.trail.plain(Plain::Sleep { millis: background::DRAG_STEP });
        drag_moves_repeats(slept.trail, target, path, i + 1, flags, location);
    }
    assert forall|more: Seq<Reply>|
        steady(
            background::drag_moves_flow(t, target, path, i, flags, end),
            #[trigger] background::drag_moves_flow(t.given(more), target, path, i, flags, end),
            more,
        ) by {
        let s = t.given(more);
        if i < path.len() {
            let mapped = background::client_point_flow(s, target, path[i as int]);
            let location = (mapped.value->0)->Ok_0;
            let moved = emitter::post_flow(mapped.trail, target, WM_MOUSEMOVE, flags, location);
            let slept = moved.trail.plain(Plain::Sleep { millis: background::DRAG_STEP });
            drag_moves_repeats(slept.trail, target, path, i + 1, flags, location);
        }
    }
}

broadcast proof fn posting_repeats(t: Trail, posting: Posting<Seq<Spot>>)
    ensures
        proper(t, #[trigger] background::posting_flow(t, posting)),
        forall|more: Seq<Reply>|
            steady(
                background::posting_flow(t, posting),
                #[trigger] background::posting_flow(t.given(more), posting),
                more,
            ),
{
    broadcast use {group_repeats, posted_clicks_repeats, post_repeats, drag_moves_repeats};

}

broadcast proof fn posted_modifiers_repeats(
    t: Trail,
    window: usize,
    modifiers: Modifiers,
    posting: Posting<Seq<Spot>>,
)
    ensures
        proper(t, #[trigger] background::with_modifiers_flow(t, window, modifiers, posting)),
        forall|more: Seq<Reply>|
            steady(
                background::with_modifiers_flow(t, window, modifiers, posting),
                #[trigger] background::with_modifiers_flow(
                    t.given(more),
                    window,
                    modifiers,
                    posting,
                ),
                more,
            ),
{
    broadcast use {group_repeats, press_held_repeats, posting_repeats, release_held_repeats};

}

broadcast proof fn contained_repeats(
    t: Trail,
    root: usize,
    window: usize,
    modifiers: Modifiers,
    posting: Posting<Seq<Spot>>,
)
    ensures
        proper(t, #[trigger] background::contained_flow(t, root, window, modifiers, posting)),
        forall|more: Seq<Reply>|
            steady(
                background::contained_flow(t, root, window, modifiers, posting),
                #[trigger] background::contained_flow(
                    t.given(more),
                    root,
                    window,
                    modifiers,
                    posting,
                ),
                more,
            ),
{
    broadcast use {group_repeats, contain_repeats, posted_modifiers_repeats, release_repeats};

}

broadcast proof fn dropped_repeats(
    t: Trail,
    id: Seq<char>,
    root: usize,
    class: Seq<char>,
    gesture: Gesture,
    reason: Seq<char>,
)
    ensures
        proper(t, #[trigger] background::dropped_flow(t, id, root, class, gesture, reason)),
        forall|more: Seq<Reply>|
            steady(
                background::dropped_flow(t, id, root, class, gesture, reason),
                #[trigger] background::dropped_flow(
                    t.given(more),
                    id,
                    root,
                    class,
                    gesture,
                    reason,
                ),
                more,
            ),
{
    broadcast use {group_repeats, refuse_repeats, is_chromium_repeats, screen_point_repeats};

}

broadcast proof fn posted_click_repeats(
    t: Trail,
    root: usize,
    at: Spot,
    button: MouseButton,
    count: u32,
    modifiers: Modifiers,
)
    ensures
        proper(t, #[trigger] background::posted_click_flow(t, root, at, button, count, modifiers)),
        forall|more: Seq<Reply>|
            steady(
                background::posted_click_flow(t, root, at, button, count, modifiers),
                #[trigger] background::posted_click_flow(
                    t.given(more),
                    root,
                    at,
                    button,
                    count,
                    modifiers,
                ),
                more,
            ),
{
    broadcast use {group_repeats, child_at_repeats, contained_repeats};

}

broadcast proof fn drag_region_repeats(t: Trail, root: usize, point: Point)
    ensures
        proper(t, #[trigger] background::drag_region_flow(t, root, point)),
        forall|more: Seq<Reply>|
            steady(
                background::drag_region_flow(t, root, point),
                #[trigger] background::drag_region_flow(t.given(more), root, point),
                more,
            ),
{
    broadcast use {group_repeats, hit_test_repeats};

}

broadcast proof fn posted_drag_repeats(
    t: Trail,
    id: Seq<char>,
    root: usize,
    path: Seq<Spot>,
    button: MouseButton,
    modifiers: Modifiers,
)
    ensures
        proper(t, #[trigger] background::posted_drag_flow(t, id, root, path, button, modifiers)),
        forall|more: Seq<Reply>|
            steady(
                background::posted_drag_flow(t, id, root, path, button, modifiers),
                #[trigger] background::posted_drag_flow(
                    t.given(more),
                    id,
                    root,
                    path,
                    button,
                    modifiers,
                ),
                more,
            ),
{
    broadcast use {
        group_repeats,
        screen_point_repeats,
        drag_region_repeats,
        child_under_repeats,
        contained_repeats,
    };

}

broadcast proof fn posted_wheel_repeats(
    t: Trail,
    window: usize,
    message: u32,
    travel: int,
    location: isize,
)
    ensures
        proper(t, #[trigger] background::wheel_flow(t, window, message, travel, location)),
        forall|more: Seq<Reply>|
            steady(
                background::wheel_flow(t, window, message, travel, location),
                #[trigger] background::wheel_flow(t.given(more), window, message, travel, location),
                more,
            ),
{
    broadcast use {group_repeats, post_repeats};

}

broadcast proof fn posted_scroll_repeats(
    t: Trail,
    root: usize,
    at: Spot,
    horizontal: i32,
    vertical: i32,
)
    ensures
        proper(t, #[trigger] background::posted_scroll_flow(t, root, at, horizontal, vertical)),
        forall|more: Seq<Reply>|
            steady(
                background::posted_scroll_flow(t, root, at, horizontal, vertical),
                #[trigger] background::posted_scroll_flow(
                    t.given(more),
                    root,
                    at,
                    horizontal,
                    vertical,
                ),
                more,
            ),
{
    broadcast use {group_repeats, screen_point_repeats, child_under_repeats, posted_wheel_repeats};

}

broadcast proof fn posted_gesture_repeats(t: Trail, id: Seq<char>, root: usize, gesture: Gesture)
    ensures
        proper(t, #[trigger] background::posted_gesture_flow(t, id, root, gesture)),
        forall|more: Seq<Reply>|
            steady(
                background::posted_gesture_flow(t, id, root, gesture),
                #[trigger] background::posted_gesture_flow(t.given(more), id, root, gesture),
                more,
            ),
{
    broadcast use {
        group_repeats,
        posted_click_repeats,
        child_at_repeats,
        post_repeats,
        posted_drag_repeats,
        posted_scroll_repeats,
    };

}

#[verifier::spinoff_prover]
#[verifier::rlimit(60)]
broadcast proof fn background_pointer_repeats(t: Trail, id: Seq<char>, gesture: Gesture)
    ensures
        proper(t, #[trigger] background::pointer_flow(t, id, gesture)),
        forall|more: Seq<Reply>|
            steady(
                background::pointer_flow(t, id, gesture),
                #[trigger] background::pointer_flow(t.given(more), id, gesture),
                more,
            ),
{
    broadcast use {
        group_repeats,
        hwnd_repeats,
        ensure_integrity_repeats,
        class_name_repeats,
        drop_reason_repeats,
        dropped_repeats,
        posted_gesture_repeats,
    };

}

broadcast proof fn posted_chord_repeats(t: Trail, window: usize, keys: Seq<KeyName>)
    ensures
        proper(t, #[trigger] background::posted_chord_flow(t, window, keys)),
        forall|more: Seq<Reply>|
            steady(
                background::posted_chord_flow(t, window, keys),
                #[trigger] background::posted_chord_flow(t.given(more), window, keys),
                more,
            ),
{
    broadcast use {group_repeats, press_held_repeats, release_held_repeats};

}

broadcast proof fn background_key_chord_repeats(t: Trail, id: Seq<char>, keys: Seq<KeyName>)
    ensures
        proper(t, #[trigger] background::key_chord_flow(t, id, keys)),
        forall|more: Seq<Reply>|
            steady(
                background::key_chord_flow(t, id, keys),
                #[trigger] background::key_chord_flow(t.given(more), id, keys),
                more,
            ),
{
    broadcast use {
        group_repeats,
        hwnd_repeats,
        ensure_delivery_repeats,
        focused_repeats,
        posted_chord_repeats,
    };

}

broadcast proof fn typed_units_repeats(t: Trail, window: usize, units: Seq<u16>, i: nat)
    ensures
        proper(t, #[trigger] background::typed_units_flow(t, window, units, i)),
        forall|more: Seq<Reply>|
            steady(
                background::typed_units_flow(t, window, units, i),
                #[trigger] background::typed_units_flow(t.given(more), window, units, i),
                more,
            ),
    decreases units.len() - i,
{
    broadcast use {group_repeats, post_repeats};

    if i < units.len() {
        let posted = emitter::post_flow(t, window, WM_CHAR, units[i as int] as usize, 1);
        typed_units_repeats(posted.trail, window, units, i + 1);
    }
    assert forall|more: Seq<Reply>|
        steady(
            background::typed_units_flow(t, window, units, i),
            #[trigger] background::typed_units_flow(t.given(more), window, units, i),
            more,
        ) by {
        let s = t.given(more);
        if i < units.len() {
            let posted = emitter::post_flow(s, window, WM_CHAR, units[i as int] as usize, 1);
            typed_units_repeats(posted.trail, window, units, i + 1);
        }
    }
}

broadcast proof fn typed_return_repeats(t: Trail, window: usize, alt: u8)
    ensures
        proper(t, #[trigger] background::typed_return_flow(t, window, alt)),
        forall|more: Seq<Reply>|
            steady(
                background::typed_return_flow(t, window, alt),
                #[trigger] background::typed_return_flow(t.given(more), window, alt),
                more,
            ),
{
    broadcast use {group_repeats, transition_repeats};

}

broadcast proof fn typed_character_repeats(t: Trail, window: usize, alt: u8, c: char)
    ensures
        proper(t, #[trigger] background::typed_character_flow(t, window, alt, c)),
        forall|more: Seq<Reply>|
            steady(
                background::typed_character_flow(t, window, alt, c),
                #[trigger] background::typed_character_flow(t.given(more), window, alt, c),
                more,
            ),
{
    broadcast use {group_repeats, typed_units_repeats};

}

broadcast proof fn typed_repeats(t: Trail, window: usize, alt: u8, unit: TextUnit)
    ensures
        proper(t, #[trigger] background::typed_flow(t, window, alt, unit)),
        forall|more: Seq<Reply>|
            steady(
                background::typed_flow(t, window, alt, unit),
                #[trigger] background::typed_flow(t.given(more), window, alt, unit),
                more,
            ),
{
    broadcast use {group_repeats, typed_return_repeats, typed_character_repeats};

}

broadcast proof fn typed_text_repeats(
    t: Trail,
    window: usize,
    alt: u8,
    units: Seq<TextUnit>,
    i: nat,
)
    ensures
        proper(t, #[trigger] background::typed_text_flow(t, window, alt, units, i)),
        forall|more: Seq<Reply>|
            steady(
                background::typed_text_flow(t, window, alt, units, i),
                #[trigger] background::typed_text_flow(t.given(more), window, alt, units, i),
                more,
            ),
    decreases units.len() - i,
{
    broadcast use {group_repeats, typed_repeats};

    if i < units.len() {
        let typed = background::typed_flow(t, window, alt, units[i as int]);
        typed_text_repeats(typed.trail, window, (typed.value->0).alt, units, i + 1);
    }
    assert forall|more: Seq<Reply>|
        steady(
            background::typed_text_flow(t, window, alt, units, i),
            #[trigger] background::typed_text_flow(t.given(more), window, alt, units, i),
            more,
        ) by {
        let s = t.given(more);
        if i < units.len() {
            let typed = background::typed_flow(s, window, alt, units[i as int]);
            typed_text_repeats(typed.trail, window, (typed.value->0).alt, units, i + 1);
        }
    }
}

#[verifier::spinoff_prover]
#[verifier::rlimit(60)]
broadcast proof fn background_type_text_repeats(t: Trail, id: Seq<char>, text: Seq<char>)
    ensures
        proper(t, #[trigger] background::type_text_flow(t, id, text)),
        forall|more: Seq<Reply>|
            steady(
                background::type_text_flow(t, id, text),
                #[trigger] background::type_text_flow(t.given(more), id, text),
                more,
            ),
{
    broadcast use {
        group_repeats,
        hwnd_repeats,
        ensure_text_supported_repeats,
        ensure_delivery_repeats,
        focused_repeats,
        typed_text_repeats,
    };

}

broadcast proof fn perform_repeats(t: Trail, action: Plain)
    ensures
        proper(t, #[trigger] global::perform_flow(t, action)),
        forall|more: Seq<Reply>|
            steady(
                global::perform_flow(t, action),
                #[trigger] global::perform_flow(t.given(more), action),
                more,
            ),
{
    broadcast use group_repeats;

}

broadcast proof fn release_keys_repeats(t: Trail, keys: Seq<KeyName>, n: nat, so_far: Outcome)
    ensures
        proper(t, #[trigger] global::release_keys_flow(t, keys, n, so_far)),
        forall|more: Seq<Reply>|
            steady(
                global::release_keys_flow(t, keys, n, so_far),
                #[trigger] global::release_keys_flow(t.given(more), keys, n, so_far),
                more,
            ),
    decreases n,
{
    broadcast use {group_repeats, perform_repeats};

    if n > 0 {
        let released = global::perform_flow(
            t,
            Plain::GlobalKey { key: keys[n - 1], direction: Direction::Release },
        );
        release_keys_repeats(
            released.trail,
            keys,
            (n - 1) as nat,
            global::first_failure(so_far, released.value->0));
    }
    assert forall|more: Seq<Reply>|
        steady(
            global::release_keys_flow(t, keys, n, so_far),
            #[trigger] global::release_keys_flow(t.given(more), keys, n, so_far),
            more,
        ) by {
        let s = t.given(more);
        if n > 0 {
            let released = global::perform_flow(
                s,
                Plain::GlobalKey { key: keys[n - 1], direction: Direction::Release },
            );
            release_keys_repeats(
                released.trail,
                keys,
                (n - 1) as nat,
                global::first_failure(so_far, released.value->0));
        }
    }
}

broadcast proof fn press_keys_repeats(t: Trail, keys: Seq<KeyName>, i: nat)
    ensures
        proper(t, #[trigger] global::press_keys_flow(t, keys, i)),
        forall|more: Seq<Reply>|
            steady(
                global::press_keys_flow(t, keys, i),
                #[trigger] global::press_keys_flow(t.given(more), keys, i),
                more,
            ),
    decreases keys.len() - i,
{
    broadcast use {group_repeats, perform_repeats, release_keys_repeats};

    if i < keys.len() {
        let pressed = global::perform_flow(
            t,
            Plain::GlobalKey { key: keys[i as int], direction: Direction::Press },
        );
        press_keys_repeats(pressed.trail, keys, i + 1);
    }
    assert forall|more: Seq<Reply>|
        steady(
            global::press_keys_flow(t, keys, i),
            #[trigger] global::press_keys_flow(t.given(more), keys, i),
            more,
        ) by {
        let s = t.given(more);
        if i < keys.len() {
            let pressed = global::perform_flow(
                s,
                Plain::GlobalKey { key: keys[i as int], direction: Direction::Press },
            );
            press_keys_repeats(pressed.trail, keys, i + 1);
        }
    }
}

broadcast proof fn global_clicks_repeats(t: Trail, button: MouseButton, left: nat)
    ensures
        proper(t, #[trigger] global::clicks_flow(t, button, left)),
        forall|more: Seq<Reply>|
            steady(
                global::clicks_flow(t, button, left),
                #[trigger] global::clicks_flow(t.given(more), button, left),
                more,
            ),
    decreases left,
{
    broadcast use {group_repeats, perform_repeats};

    if left > 0 {
        let clicked = global::perform_flow(
            t,
            Plain::GlobalButton { button, direction: Direction::Click },
        );
        global_clicks_repeats(clicked.trail, button, (left - 1) as nat);
    }
    assert forall|more: Seq<Reply>|
        steady(
            global::clicks_flow(t, button, left),
            #[trigger] global::clicks_flow(t.given(more), button, left),
            more,
        ) by {
        let s = t.given(more);
        if left > 0 {
            let clicked = global::perform_flow(
                s,
                Plain::GlobalButton { button, direction: Direction::Click },
            );
            global_clicks_repeats(clicked.trail, button, (left - 1) as nat);
        }
    }
}

broadcast proof fn global_moves_repeats(t: Trail, path: Seq<Spot>, i: nat)
    ensures
        proper(t, #[trigger] global::moves_flow(t, path, i)),
        forall|more: Seq<Reply>|
            steady(
                global::moves_flow(t, path, i),
                #[trigger] global::moves_flow(t.given(more), path, i),
                more,
            ),
    decreases path.len() - i,
{
    broadcast use {group_repeats, perform_repeats};

    if i < path.len() {
        let moved = global::perform_flow(t, Plain::GlobalMove { at: path[i as int] });
        global_moves_repeats(moved.trail, path, i + 1);
    }
    assert forall|more: Seq<Reply>|
        steady(
            global::moves_flow(t, path, i),
            #[trigger] global::moves_flow(t.given(more), path, i),
            more,
        ) by {
        let s = t.given(more);
        if i < path.len() {
            let moved = global::perform_flow(s, Plain::GlobalMove { at: path[i as int] });
            global_moves_repeats(moved.trail, path, i + 1);
        }
    }
}

broadcast proof fn held_repeats(t: Trail, held: Held<Seq<Spot>>)
    ensures
        proper(t, #[trigger] global::held_flow(t, held)),
        forall|more: Seq<Reply>|
            steady(
                global::held_flow(t, held),
                #[trigger] global::held_flow(t.given(more), held),
                more,
            ),
{
    broadcast use {group_repeats, perform_repeats, global_clicks_repeats, global_moves_repeats};

}

broadcast proof fn global_modifiers_repeats(t: Trail, modifiers: Modifiers, held: Held<Seq<Spot>>)
    ensures
        proper(t, #[trigger] global::with_global_modifiers_flow(t, modifiers, held)),
        forall|more: Seq<Reply>|
            steady(
                global::with_global_modifiers_flow(t, modifiers, held),
                #[trigger] global::with_global_modifiers_flow(t.given(more), modifiers, held),
                more,
            ),
{
    broadcast use {group_repeats, press_keys_repeats, held_repeats, release_keys_repeats};

}

broadcast proof fn scroll_axis_repeats(t: Trail, steps: i32, axis: Axis)
    ensures
        proper(t, #[trigger] global::scroll_axis_flow(t, steps, axis)),
        forall|more: Seq<Reply>|
            steady(
                global::scroll_axis_flow(t, steps, axis),
                #[trigger] global::scroll_axis_flow(t.given(more), steps, axis),
                more,
            ),
{
    broadcast use {group_repeats, perform_repeats};

}

broadcast proof fn global_pointer_repeats(t: Trail, gesture: Gesture)
    ensures
        proper(t, #[trigger] global::global_pointer_flow(t, gesture)),
        forall|more: Seq<Reply>|
            steady(
                global::global_pointer_flow(t, gesture),
                #[trigger] global::global_pointer_flow(t.given(more), gesture),
                more,
            ),
{
    broadcast use {group_repeats, global_modifiers_repeats, perform_repeats, scroll_axis_repeats};

}

broadcast proof fn global_key_chord_repeats(t: Trail, keys: Seq<KeyName>)
    ensures
        proper(t, #[trigger] global::global_key_chord_flow(t, keys)),
        forall|more: Seq<Reply>|
            steady(
                global::global_key_chord_flow(t, keys),
                #[trigger] global::global_key_chord_flow(t.given(more), keys),
                more,
            ),
{
    broadcast use {group_repeats, perform_repeats, press_keys_repeats, release_keys_repeats};

}

broadcast proof fn activate_any_repeats(t: Trail, window: usize)
    ensures
        proper(t, #[trigger] foreground::activate_any_flow(t, window)),
        forall|more: Seq<Reply>|
            steady(
                foreground::activate_any_flow(t, window),
                #[trigger] foreground::activate_any_flow(t.given(more), window),
                more,
            ),
{
    broadcast use {group_repeats, activate_repeats};

}

broadcast proof fn bring_forward_repeats(t: Trail, id: Seq<char>, target: usize, previous: usize)
    ensures
        proper(t, #[trigger] foreground::bring_forward_flow(t, id, target, previous)),
        forall|more: Seq<Reply>|
            steady(
                foreground::bring_forward_flow(t, id, target, previous),
                #[trigger] foreground::bring_forward_flow(t.given(more), id, target, previous),
                more,
            ),
{
    broadcast use {group_repeats, activate_repeats, wait_repeats, activate_any_repeats};

}

broadcast proof fn guard_activate_repeats(t: Trail, id: Seq<char>, settle: u64)
    ensures
        proper(t, #[trigger] ForegroundGuard::activate_flow(t, id, settle)),
        forall|more: Seq<Reply>|
            steady(
                ForegroundGuard::activate_flow(t, id, settle),
                #[trigger] ForegroundGuard::activate_flow(t.given(more), id, settle),
                more,
            ),
{
    broadcast use {group_repeats, hwnd_repeats, ensure_integrity_repeats, bring_forward_repeats};

}

broadcast proof fn guard_hand_back_repeats(t: Trail, guard: ForegroundGuard)
    ensures
        proper(t, #[trigger] guard.hand_back_flow(t)),
        forall|more: Seq<Reply>|
            steady(
                guard.hand_back_flow(t),
                #[trigger] guard.hand_back_flow(t.given(more)),
                more,
            ),
{
    broadcast use {group_repeats, activate_repeats};

}

broadcast proof fn restore_cursor_repeats(t: Trail, saved: Option<Point>)
    ensures
        proper(t, #[trigger] foreground::restore_cursor_flow(t, saved)),
        forall|more: Seq<Reply>|
            steady(
                foreground::restore_cursor_flow(t, saved),
                #[trigger] foreground::restore_cursor_flow(t.given(more), saved),
                more,
            ),
{
    broadcast use group_repeats;

}

broadcast proof fn send_repeats(t: Trail, events: Seq<InputEvent>)
    ensures
        proper(t, #[trigger] foreground::send_flow(t, events)),
        forall|more: Seq<Reply>|
            steady(
                foreground::send_flow(t, events),
                #[trigger] foreground::send_flow(t.given(more), events),
                more,
            ),
{
    broadcast use group_repeats;

}

broadcast proof fn move_event_repeats(t: Trail, at: Spot)
    ensures
        proper(t, #[trigger] foreground::move_event_flow(t, at)),
        forall|more: Seq<Reply>|
            steady(
                foreground::move_event_flow(t, at),
                #[trigger] foreground::move_event_flow(t.given(more), at),
                more,
            ),
{
    broadcast use {group_repeats, screen_point_repeats};

}

broadcast proof fn injected_clicks_repeats(
    t: Trail,
    at: InputEvent,
    button: MouseButton,
    left: nat,
)
    ensures
        proper(t, #[trigger] foreground::clicks_flow(t, at, button, left)),
        forall|more: Seq<Reply>|
            steady(
                foreground::clicks_flow(t, at, button, left),
                #[trigger] foreground::clicks_flow(t.given(more), at, button, left),
                more,
            ),
    decreases left,
{
    broadcast use {group_repeats, send_repeats};

    if left > 0 {
        let clicked = foreground::send_flow(t, foreground::click_events(at, button));
        injected_clicks_repeats(clicked.trail, at, button, (left - 1) as nat);
    }
    assert forall|more: Seq<Reply>|
        steady(
            foreground::clicks_flow(t, at, button, left),
            #[trigger] foreground::clicks_flow(t.given(more), at, button, left),
            more,
        ) by {
        let s = t.given(more);
        if left > 0 {
            let clicked = foreground::send_flow(s, foreground::click_events(at, button));
            injected_clicks_repeats(clicked.trail, at, button, (left - 1) as nat);
        }
    }
}

broadcast proof fn send_move_repeats(t: Trail, at: Spot)
    ensures
        proper(t, #[trigger] foreground::send_move_flow(t, at)),
        forall|more: Seq<Reply>|
            steady(
                foreground::send_move_flow(t, at),
                #[trigger] foreground::send_move_flow(t.given(more), at),
                more,
            ),
{
    broadcast use {group_repeats, move_event_repeats, send_repeats};

}

broadcast proof fn injected_moves_repeats(t: Trail, path: Seq<Spot>, i: nat)
    ensures
        proper(t, #[trigger] foreground::moves_flow(t, path, i)),
        forall|more: Seq<Reply>|
            steady(
                foreground::moves_flow(t, path, i),
                #[trigger] foreground::moves_flow(t.given(more), path, i),
                more,
            ),
    decreases path.len() - i,
{
    broadcast use {group_repeats, send_move_repeats};

    if i < path.len() {
        let slept = t.plain(Plain::Sleep { millis: foreground::DRAG_STEP });
        let moved = foreground::send_move_flow(slept.trail, path[i as int]);
        injected_moves_repeats(moved.trail, path, i + 1);
    }
    assert forall|more: Seq<Reply>|
        steady(
            foreground::moves_flow(t, path, i),
            #[trigger] foreground::moves_flow(t.given(more), path, i),
            more,
        ) by {
        let s = t.given(more);
        if i < path.len() {
            let slept = s.plain(Plain::Sleep { millis: foreground::DRAG_STEP });
            let moved = foreground::send_move_flow(slept.trail, path[i as int]);
            injected_moves_repeats(moved.trail, path, i + 1);
        }
    }
}

broadcast proof fn injection_repeats(t: Trail, injection: Injection<Seq<Spot>>)
    ensures
        proper(t, #[trigger] foreground::injection_flow(t, injection)),
        forall|more: Seq<Reply>|
            steady(
                foreground::injection_flow(t, injection),
                #[trigger] foreground::injection_flow(t.given(more), injection),
                more,
            ),
{
    broadcast use {group_repeats, injected_clicks_repeats, injected_moves_repeats, send_repeats};

}

broadcast proof fn holding_repeats(
    t: Trail,
    presses: Seq<InputEvent>,
    releases: Seq<InputEvent>,
    injection: Injection<Seq<Spot>>,
)
    ensures
        proper(t, #[trigger] foreground::holding_flow(t, presses, releases, injection)),
        forall|more: Seq<Reply>|
            steady(
                foreground::holding_flow(t, presses, releases, injection),
                #[trigger] foreground::holding_flow(t.given(more), presses, releases, injection),
                more,
            ),
{
    broadcast use {group_repeats, send_repeats, injection_repeats};

}

broadcast proof fn key_event_repeats(t: Trail, vk: u16, up: bool)
    ensures
        proper(t, #[trigger] foreground::key_event_flow(t, vk, up)),
        forall|more: Seq<Reply>|
            steady(
                foreground::key_event_flow(t, vk, up),
                #[trigger] foreground::key_event_flow(t.given(more), vk, up),
                more,
            ),
{
    broadcast use group_repeats;

}

broadcast proof fn key_events_repeats(
    t: Trail,
    vks: Seq<u16>,
    up: bool,
    i: nat,
    so_far: Seq<InputEvent>,
)
    ensures
        proper(t, #[trigger] foreground::key_events_flow(t, vks, up, i, so_far)),
        forall|more: Seq<Reply>|
            steady(
                foreground::key_events_flow(t, vks, up, i, so_far),
                #[trigger] foreground::key_events_flow(t.given(more), vks, up, i, so_far),
                more,
            ),
    decreases vks.len() - i,
{
    broadcast use {group_repeats, key_event_repeats};

    if i < vks.len() {
        let event = foreground::key_event_flow(t, vks[i as int], up);
        key_events_repeats(event.trail, vks, up, i + 1, so_far.push(event.value->0));
    }
    assert forall|more: Seq<Reply>|
        steady(
            foreground::key_events_flow(t, vks, up, i, so_far),
            #[trigger] foreground::key_events_flow(t.given(more), vks, up, i, so_far),
            more,
        ) by {
        let s = t.given(more);
        if i < vks.len() {
            let event = foreground::key_event_flow(s, vks[i as int], up);
            key_events_repeats(event.trail, vks, up, i + 1, so_far.push(event.value->0));
        }
    }
}

broadcast proof fn strokes_repeats(t: Trail, vks: Seq<u16>)
    ensures
        proper(t, #[trigger] foreground::strokes_flow(t, vks)),
        forall|more: Seq<Reply>|
            steady(
                foreground::strokes_flow(t, vks),
                #[trigger] foreground::strokes_flow(t.given(more), vks),
                more,
            ),
{
    broadcast use {group_repeats, key_events_repeats};

}

broadcast proof fn injected_modifiers_repeats(
    t: Trail,
    modifiers: Modifiers,
    injection: Injection<Seq<Spot>>,
)
    ensures
        proper(t, #[trigger] foreground::with_modifiers_flow(t, modifiers, injection)),
        forall|more: Seq<Reply>|
            steady(
                foreground::with_modifiers_flow(t, modifiers, injection),
                #[trigger] foreground::with_modifiers_flow(t.given(more), modifiers, injection),
                more,
            ),
{
    broadcast use {group_repeats, strokes_repeats, holding_repeats};

}

broadcast proof fn injected_wheel_repeats(t: Trail, flags: u32, travel: int)
    ensures
        proper(t, #[trigger] foreground::wheel_flow(t, flags, travel)),
        forall|more: Seq<Reply>|
            steady(
                foreground::wheel_flow(t, flags, travel),
                #[trigger] foreground::wheel_flow(t.given(more), flags, travel),
                more,
            ),
{
    broadcast use {group_repeats, send_repeats};

}

broadcast proof fn click_gesture_repeats(
    t: Trail,
    at: Spot,
    button: MouseButton,
    count: u32,
    modifiers: Modifiers,
)
    ensures
        proper(t, #[trigger] foreground::click_gesture_flow(t, at, button, count, modifiers)),
        forall|more: Seq<Reply>|
            steady(
                foreground::click_gesture_flow(t, at, button, count, modifiers),
                #[trigger] foreground::click_gesture_flow(
                    t.given(more),
                    at,
                    button,
                    count,
                    modifiers,
                ),
                more,
            ),
{
    broadcast use {group_repeats, move_event_repeats, injected_modifiers_repeats};

}

broadcast proof fn drag_gesture_repeats(
    t: Trail,
    path: Seq<Spot>,
    button: MouseButton,
    modifiers: Modifiers,
)
    ensures
        proper(t, #[trigger] foreground::drag_gesture_flow(t, path, button, modifiers)),
        forall|more: Seq<Reply>|
            steady(
                foreground::drag_gesture_flow(t, path, button, modifiers),
                #[trigger] foreground::drag_gesture_flow(t.given(more), path, button, modifiers),
                more,
            ),
{
    broadcast use {group_repeats, move_event_repeats, injected_modifiers_repeats};

}

broadcast proof fn scroll_gesture_repeats(t: Trail, at: Spot, horizontal: i32, vertical: i32)
    ensures
        proper(t, #[trigger] foreground::scroll_gesture_flow(t, at, horizontal, vertical)),
        forall|more: Seq<Reply>|
            steady(
                foreground::scroll_gesture_flow(t, at, horizontal, vertical),
                #[trigger] foreground::scroll_gesture_flow(t.given(more), at, horizontal, vertical),
                more,
            ),
{
    broadcast use {group_repeats, send_move_repeats, injected_wheel_repeats};

}

broadcast proof fn gesture_repeats(t: Trail, gesture: Gesture)
    ensures
        proper(t, #[trigger] foreground::gesture_flow(t, gesture)),
        forall|more: Seq<Reply>|
            steady(
                foreground::gesture_flow(t, gesture),
                #[trigger] foreground::gesture_flow(t.given(more), gesture),
                more,
            ),
{
    broadcast use {
        group_repeats,
        click_gesture_repeats,
        send_move_repeats,
        drag_gesture_repeats,
        scroll_gesture_repeats,
    };

}

#[verifier::spinoff_prover]
#[verifier::rlimit(60)]
broadcast proof fn foreground_pointer_repeats(t: Trail, id: Seq<char>, gesture: Gesture)
    ensures
        proper(t, #[trigger] foreground::pointer_flow(t, id, gesture)),
        forall|more: Seq<Reply>|
            steady(
                foreground::pointer_flow(t, id, gesture),
                #[trigger] foreground::pointer_flow(t.given(more), id, gesture),
                more,
            ),
{
    broadcast use {
        group_repeats,
        guard_activate_repeats,
        gesture_repeats,
        guard_hand_back_repeats,
        restore_cursor_repeats,
    };

}

broadcast proof fn virtual_keys_repeats(t: Trail, keys: Seq<KeyName>, i: nat, so_far: Seq<u16>)
    ensures
        proper(t, #[trigger] foreground::virtual_keys_flow(t, keys, i, so_far)),
        forall|more: Seq<Reply>|
            steady(
                foreground::virtual_keys_flow(t, keys, i, so_far),
                #[trigger] foreground::virtual_keys_flow(t.given(more), keys, i, so_far),
                more,
            ),
    decreases keys.len() - i,
{
    broadcast use {group_repeats, virtual_key_repeats};

    if i < keys.len() {
        let found = emitter::virtual_key_flow(t, keys[i as int]);
        let vk = (found.value->0)->Ok_0;
        virtual_keys_repeats(
            found.trail,
            keys,
            i + 1,
            so_far + emitter::implied_keys(vk.1) + seq![vk.0]);
    }
    assert forall|more: Seq<Reply>|
        steady(
            foreground::virtual_keys_flow(t, keys, i, so_far),
            #[trigger] foreground::virtual_keys_flow(t.given(more), keys, i, so_far),
            more,
        ) by {
        let s = t.given(more);
        if i < keys.len() {
            let found = emitter::virtual_key_flow(s, keys[i as int]);
            let vk = (found.value->0)->Ok_0;
            virtual_keys_repeats(
                found.trail,
                keys,
                i + 1,
                so_far + emitter::implied_keys(vk.1) + seq![vk.0]);
        }
    }
}

#[verifier::spinoff_prover]
#[verifier::rlimit(60)]
broadcast proof fn foreground_key_chord_repeats(t: Trail, id: Seq<char>, keys: Seq<KeyName>)
    ensures
        proper(t, #[trigger] foreground::key_chord_flow(t, id, keys)),
        forall|more: Seq<Reply>|
            steady(
                foreground::key_chord_flow(t, id, keys),
                #[trigger] foreground::key_chord_flow(t.given(more), id, keys),
                more,
            ),
{
    broadcast use {
        group_repeats,
        virtual_keys_repeats,
        strokes_repeats,
        guard_activate_repeats,
        holding_repeats,
        guard_hand_back_repeats,
    };

}

broadcast proof fn text_events_repeats(
    t: Trail,
    units: Seq<TextUnit>,
    i: nat,
    so_far: Seq<InputEvent>,
)
    ensures
        proper(t, #[trigger] foreground::text_events_flow(t, units, i, so_far)),
        forall|more: Seq<Reply>|
            steady(
                foreground::text_events_flow(t, units, i, so_far),
                #[trigger] foreground::text_events_flow(t.given(more), units, i, so_far),
                more,
            ),
    decreases units.len() - i,
{
    broadcast use {group_repeats, key_event_repeats};

    if i < units.len() {
        match units[i as int] {
            TextUnit::Enter => {
                let press = foreground::key_event_flow(t, VK_RETURN, false);
                let release = foreground::key_event_flow(press.trail, VK_RETURN, true);
                text_events_repeats(
                    release.trail,
                    units,
                    i + 1,
                    so_far.push(press.value->0).push(release.value->0));
            },
            TextUnit::Char(c) => {
                text_events_repeats(
                    t,
                    units,
                    i + 1,
                    so_far + foreground::unit_events(text::utf16(c)));
            },
        }
    }
    assert forall|more: Seq<Reply>|
        steady(
            foreground::text_events_flow(t, units, i, so_far),
            #[trigger] foreground::text_events_flow(t.given(more), units, i, so_far),
            more,
        ) by {
        let s = t.given(more);
        if i < units.len() {
            match units[i as int] {
                TextUnit::Enter => {
                    let press = foreground::key_event_flow(s, VK_RETURN, false);
                    let release = foreground::key_event_flow(press.trail, VK_RETURN, true);
                    text_events_repeats(
                        release.trail,
                        units,
                        i + 1,
                        so_far.push(press.value->0).push(release.value->0));
                },
                TextUnit::Char(c) => {
                    text_events_repeats(
                        s,
                        units,
                        i + 1,
                        so_far + foreground::unit_events(text::utf16(c)));
                },
            }
        }
    }
}

#[verifier::spinoff_prover]
#[verifier::rlimit(60)]
broadcast proof fn foreground_type_text_repeats(t: Trail, id: Seq<char>, text: Seq<char>)
    ensures
        proper(t, #[trigger] foreground::type_text_flow(t, id, text)),
        forall|more: Seq<Reply>|
            steady(
                foreground::type_text_flow(t, id, text),
                #[trigger] foreground::type_text_flow(t.given(more), id, text),
                more,
            ),
{
    broadcast use {
        group_repeats,
        text_events_repeats,
        hwnd_repeats,
        ensure_text_supported_repeats,
        guard_activate_repeats,
        send_repeats,
        guard_hand_back_repeats,
    };

}

broadcast proof fn restore_repeats(t: Trail, window: usize)
    ensures
        proper(t, #[trigger] input::restore_flow(t, window)),
        forall|more: Seq<Reply>|
            steady(
                input::restore_flow(t, window),
                #[trigger] input::restore_flow(t.given(more), window),
                more,
            ),
{
    broadcast use group_repeats;

}

broadcast proof fn raise_window_repeats(t: Trail, id: Seq<char>)
    ensures
        proper(t, #[trigger] input::raise_window_flow(t, id)),
        forall|more: Seq<Reply>|
            steady(
                input::raise_window_flow(t, id),
                #[trigger] input::raise_window_flow(t.given(more), id),
                more,
            ),
{
    broadcast use {group_repeats, hwnd_repeats, restore_repeats, activate_repeats, wait_repeats};

}

/// Whether `later` repeats `earlier`: its calls begin with those of `earlier`,
/// and where `earlier` yielded a value it makes no other call and yields the
/// same value.
pub open spec fn repeats<T>(earlier: Flow<T>, later: Flow<T>) -> bool {
    &&& earlier.trail.calls.is_prefix_of(later.trail.calls)
    &&& earlier.value is Some ==> later.value == earlier.value && later.trail.calls
        == earlier.trail.calls
}

proof fn lemma_steady_repeats<T>(earlier: Flow<T>, later: Flow<T>, more: Seq<Reply>)
    requires
        steady(earlier, later, more),
    ensures
        repeats(earlier, later),
{
    reveal(grows);
    let calls = earlier.trail.calls;
    assert(calls =~= later.trail.calls.subrange(0, calls.len() as int));
}

/// A run of a procedure on more answers repeats the run before it.
pub proof fn law_more_answers_repeat_the_calls(
    t: Trail,
    longer: Trail,
    route: Route,
    gesture: Gesture,
    keys: Seq<KeyName>,
    text: Seq<char>,
    id: Seq<char>,
    root: usize,
    shield_host: bool,
    guard: Option<Containment>,
)
    requires
        t.replies.is_prefix_of(longer.replies),
        longer.calls == t.calls,
    ensures
        repeats(
            input::pointer_flow(t, route, gesture),
            input::pointer_flow(longer, route, gesture),
        ),
        repeats(input::key_chord_flow(t, route, keys), input::key_chord_flow(longer, route, keys)),
        repeats(
            input::type_text_flow(t, route, text),
            input::type_text_flow(longer, route, text),
        ),
        repeats(input::raise_window_flow(t, id), input::raise_window_flow(longer, id)),
        repeats(
            activation::contain_flow(t, root, shield_host),
            activation::contain_flow(longer, root, shield_host),
        ),
        repeats(activation::release_flow(t, guard), activation::release_flow(longer, guard)),
{
    broadcast use {
        group_repeats,
        global_pointer_repeats,
        global_key_chord_repeats,
        perform_repeats,
        background_pointer_repeats,
        background_key_chord_repeats,
        background_type_text_repeats,
        foreground_pointer_repeats,
        foreground_key_chord_repeats,
        foreground_type_text_repeats,
        raise_window_repeats,
        contain_repeats,
        release_repeats,
    };

    let more = longer.replies.skip(t.replies.len() as int);
    assert(longer.replies =~= t.replies + more);
    assert(longer == t.given(more));
    lemma_steady_repeats(
        input::pointer_flow(t, route, gesture),
        input::pointer_flow(longer, route, gesture),
        more,
    );
    lemma_steady_repeats(
        input::key_chord_flow(t, route, keys),
        input::key_chord_flow(longer, route, keys),
        more,
    );
    lemma_steady_repeats(
        input::type_text_flow(t, route, text),
        input::type_text_flow(longer, route, text),
        more,
    );
    lemma_steady_repeats(
        input::raise_window_flow(t, id),
        input::raise_window_flow(longer, id),
        more,
    );
    lemma_steady_repeats(
        activation::contain_flow(t, root, shield_host),
        activation::contain_flow(longer, root, shield_host),
        more,
    );
    lemma_steady_repeats(
        activation::release_flow(t, guard),
        activation::release_flow(longer, guard),
        more,
    );
}

/// Whether a run without a value waits for the answer to its last call.
pub open spec fn waits<T>(flow: Flow<T>) -> bool {
    flow.value is None ==> flow.trail.stalled()
}

/// A procedure yields a value or waits for the answer to its last call.
pub proof fn law_a_run_ends_or_waits(
    t: Trail,
    route: Route,
    gesture: Gesture,
    keys: Seq<KeyName>,
    text: Seq<char>,
    id: Seq<char>,
    root: usize,
    shield_host: bool,
    guard: Option<Containment>,
)
    ensures
        waits(input::pointer_flow(t, route, gesture)),
        waits(input::key_chord_flow(t, route, keys)),
        waits(input::type_text_flow(t, route, text)),
        waits(input::raise_window_flow(t, id)),
        waits(activation::contain_flow(t, root, shield_host)),
        waits(activation::release_flow(t, guard)),
{
    broadcast use {
        group_repeats,
        global_pointer_repeats,
        global_key_chord_repeats,
        perform_repeats,
        background_pointer_repeats,
        background_key_chord_repeats,
        background_type_text_repeats,
        foreground_pointer_repeats,
        foreground_key_chord_repeats,
        foreground_type_text_repeats,
        raise_window_repeats,
        contain_repeats,
        release_repeats,
    };

}

} // verus!
