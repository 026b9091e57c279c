//! What taking the foreground, and keeping it from a window, comes to in terms
//! of the answers that were given.

use vstd::prelude::*;

use crate::activation::Containment;
use crate::background::Posting;
use crate::deeds::{lemma_extends, nudge, picked, picked_ask, repeated};
use crate::error::Fault;
use crate::keys::{Modifiers, MouseButton};
use crate::request::{Gesture, Point, Spot};
use crate::tape::{Plain, Reply, Request, Trail};
use crate::win32::{CS_DBLCLKS, GA_ROOT, WM_NCHITTEST, WS_EX_NOACTIVATE};
use crate::{activation, background, effects, window};

verus! {

/// What one attempt to activate `target` asks and does, given the answers in
/// `replies` from index `i` on: it looks which window is in front, and where
/// that is another one it joins the input state of that window's thread where
/// there is one to join, sets the foreground window, leaves the input state it
/// joined, and looks again.
pub open spec fn attempt_calls(replies: Seq<Reply>, i: int, target: usize) -> Seq<Request> {
    let current = replies[i].handle_value();
    let own = replies[i + 1].word_value();
    let other = replies[i + 2].word_value();
    let joins = other != 0 && other != own;
    let joined = joins && replies[i + 3].flag_value();
    if current == target {
        seq![Request::Plain(Plain::ForegroundWindow)]
    } else {
        seq![
            Request::Plain(Plain::ForegroundWindow),
            Request::Plain(Plain::OwnThread),
            Request::Plain(Plain::ThreadOf { window: current }),
        ] + (if joins {
            seq![Request::Plain(Plain::AttachInput { own, other, attach: true })]
        } else {
            seq![]
        }) + seq![Request::Plain(Plain::SetForeground { window: target })] + (if joined {
            seq![Request::Plain(Plain::AttachInput { own, other, attach: false })]
        } else {
            seq![]
        }) + seq![Request::Plain(Plain::ForegroundWindow)]
    }
}

/// One attempt to activate a window makes exactly these calls, and succeeds
/// where the last look sees the window in front.
pub proof fn law_attempt_is_complete(t: Trail, target: usize)
    requires
        activation::attach_and_activate_flow(t, target).value is Some,
    ensures
        ({
            let flow = activation::attach_and_activate_flow(t, target);
            let calls = attempt_calls(t.replies, t.calls.len() as int, target);
            &&& flow.trail.replies == t.replies
            &&& flow.trail.calls == t.calls + calls
            &&& flow.value == Some(
                t.replies[t.calls.len() + calls.len() - 1].handle_value() == target,
            )
        }),
{
    let flow = activation::attach_and_activate_flow(t, target);
    assert(flow.trail.calls =~= t.calls + attempt_calls(t.replies, t.calls.len() as int, target));
}

/// Calls that set a foreground window.
pub open spec fn setting() -> spec_fn(Request, Reply) -> bool {
    |call: Request, reply: Reply|
        match call {
            Request::Plain(Plain::SetForeground { .. }) => true,
            _ => false,
        }
}

/// Calls that inject anything.
pub open spec fn injecting() -> spec_fn(Request, Reply) -> bool {
    |call: Request, reply: Reply| call is SendInput
}

proof fn lemma_attempt(t: Trail, target: usize)
    requires
        activation::attach_and_activate_flow(t, target).value is Some,
    ensures
        ({
            let flow = activation::attach_and_activate_flow(t, target);
            &&& effects::extends(t, flow.trail)
            &&& picked(flow.trail, injecting()) == picked(t, injecting())
            &&& flow.value == Some(false) ==> picked(flow.trail, setting()) == picked(
                t,
                setting(),
            ).push(Request::Plain(Plain::SetForeground { window: target }))
        }),
{
    broadcast use picked_ask;

}

proof fn lemma_retries(t: Trail, target: usize, left: nat)
    requires
        activation::retry_flow(t, target, left).value is Some,
    ensures
        ({
            let flow = activation::retry_flow(t, target, left);
            &&& effects::extends(t, flow.trail)
            &&& picked(flow.trail, injecting()) == picked(t, injecting())
            &&& flow.value == Some(false) ==> picked(flow.trail, setting()) == picked(t, setting())
                + repeated(Request::Plain(Plain::SetForeground { window: target }), left)
        }),
    decreases left,
{
    broadcast use picked_ask;

    let set = Request::Plain(Plain::SetForeground { window: target });
    if left == 0 {
        assert(picked(t, setting()) + repeated(set, 0) =~= picked(t, setting()));
    } else {
        let tried = activation::attach_and_activate_flow(t, target);
        lemma_attempt(t, target);
        if tried.value == Some(false) {
            let slept = tried.trail.plain(Plain::Sleep { millis: 25 });
            lemma_retries(slept.trail, target, (left - 1) as nat);
            let end = activation::retry_flow(t, target, left).trail;
            lemma_extends(tried.trail, slept.trail, end);
            lemma_extends(t, tried.trail, end);
            assert(picked(t, setting()).push(set) + repeated(set, (left - 1) as nat) =~= picked(
                t,
                setting(),
            ) + repeated(set, left));
        }
    }
}

/// A window that could not be activated was tried for four times: once, and
/// three times more after the nudge that makes this process the source of the
/// most recent input. Where the first attempt succeeds nothing is injected.
pub proof fn law_activation_is_tried(t: Trail, target: usize)
    requires
        activation::activate_flow(t, target).value is Some,
    ensures
        ({
            let flow = activation::activate_flow(t, target);
            let first = t.calls.len() as int + attempt_calls(
                t.replies,
                t.calls.len() as int,
                target,
            ).len();
            let active = t.replies[first - 1].handle_value() == target;
            &&& effects::extends(t, flow.trail)
            &&& active ==> flow.value == Some(true) && flow.trail.calls.len() == first
            &&& !active ==> flow.trail.calls[first] == (Request::SendInput { events: nudge() })
                && picked(flow.trail, injecting()) == picked(t, injecting()).push(
                Request::SendInput { events: nudge() },
            )
            &&& flow.value == Some(false) ==> picked(flow.trail, setting()) == picked(t, setting())
                + repeated(Request::Plain(Plain::SetForeground { window: target }), 4)
        }),
{
    broadcast use picked_ask;

    let set = Request::Plain(Plain::SetForeground { window: target });
    let tried = activation::attach_and_activate_flow(t, target);
    law_attempt_is_complete(t, target);
    lemma_attempt(t, target);
    assert(activation::input_token() =~= nudge());
    if tried.value == Some(false) {
        let sent = tried.trail.ask(Request::SendInput { events: nudge() });
        lemma_retries(sent.trail, target, 3);
        let end = activation::activate_flow(t, target).trail;
        lemma_extends(tried.trail, sent.trail, end);
        lemma_extends(t, tried.trail, end);
        let at = tried.trail.calls.len() as int;
        assert(end.calls[at] == sent.trail.calls[at]);
        assert(picked(t, setting()).push(set) + repeated(set, 3) =~= picked(t, setting()) + repeated(
            set,
            4,
        ));
    }
}

/// The top-level window of a window, given the answer to the question for it.
pub open spec fn top_level(window: usize, answer: Reply) -> usize {
    if answer.handle_value() == 0 {
        window
    } else {
        answer.handle_value()
    }
}

/// Whether the answers from index `c` on tell that the user has a window in
/// front that does not belong to `root`.
pub open spec fn elsewhere(u: Trail, c: int, root: usize) -> bool {
    let previous = u.replies[c].handle_value();
    previous != 0 && top_level(previous, u.replies[c + 1]) != root
}

/// Whether the answers from index `c` on tell that `root` was made
/// non-activatable: it does not hang, had not got the bit, and has it now.
pub open spec fn shielded(u: Trail, c: int, root: usize) -> bool {
    &&& elsewhere(u, c, root)
    &&& !u.replies[c + 2].flag_value()
    &&& u.replies[c + 3].word_value() & WS_EX_NOACTIVATE == 0
    &&& u.replies[c + 5].word_value() & WS_EX_NOACTIVATE != 0
}

/// Whether a trail arms the shield of `root` from index `c` on, as far as the
/// answers ask for it.
pub open spec fn arms(u: Trail, c: int, root: usize) -> bool {
    let previous = u.replies[c].handle_value();
    let style = u.replies[c + 3].word_value();
    &&& u.calls[c] == Request::Plain(Plain::ForegroundWindow)
    &&& previous != 0 ==> u.calls[c + 1] == Request::Plain(
        Plain::Ancestor { window: previous, relation: GA_ROOT },
    )
    &&& elsewhere(u, c, root) ==> u.calls[c + 2] == Request::Plain(Plain::IsHung { window: root })
    &&& elsewhere(u, c, root) && !u.replies[c + 2].flag_value() ==> u.calls[c + 3]
        == Request::Plain(Plain::ExStyle { window: root }) && (style & WS_EX_NOACTIVATE == 0 ==> {
        &&& u.calls[c + 4] == Request::Plain(
            Plain::SetExStyle { window: root, style: style | WS_EX_NOACTIVATE },
        )
        &&& u.calls[c + 5] == Request::Plain(Plain::ExStyle { window: root })
    })
}

/// How many calls it takes to arm the shield.
pub open spec fn arming_len(u: Trail, c: int, root: usize) -> int {
    if u.replies[c].handle_value() == 0 {
        1
    } else if !elsewhere(u, c, root) {
        2
    } else if u.replies[c + 2].flag_value() {
        3
    } else if u.replies[c + 3].word_value() & WS_EX_NOACTIVATE != 0 {
        4
    } else {
        6
    }
}

/// A window is contained unless it owns the foreground or nothing does. Without
/// a shield for its host, containing it arms the non-activatable bit and does
/// nothing else.
pub proof fn law_containment_arms_its_root(t: Trail, root: usize)
    requires
        activation::contain_flow(t, root, false).value is Some,
    ensures
        ({
            let flow = activation::contain_flow(t, root, false);
            let c = t.calls.len() as int;
            &&& effects::extends(t, flow.trail)
            &&& flow.trail.calls.len() == c + arming_len(t, c, root)
            &&& arms(flow.trail, c, root)
            &&& flow.value->0 is Some <==> elsewhere(t, c, root)
            &&& flow.value matches Some(Some(armed)) ==> armed.root == root && armed.previous
                == t.upcoming(0).handle_value() && !armed.disabled && armed.no_activate
                == shielded(t, c, root)
        }),
{
}

/// Whether a trail looks from index `h` on whether `root` is in front, and if so
/// attempts to activate `previous` twice, with a pause between.
pub open spec fn hands_back(u: Trail, h: int, root: usize, previous: usize) -> bool {
    let current = u.replies[h].handle_value();
    let taken = current != 0 && top_level(current, u.replies[h + 1]) == root;
    &&& u.calls[h] == Request::Plain(Plain::ForegroundWindow)
    &&& current != 0 ==> u.calls[h + 1] == Request::Plain(
        Plain::Ancestor { window: current, relation: GA_ROOT },
    )
    &&& taken ==> {
        let pause = h + 2 + attempt_calls(u.replies, h + 2, previous).len();
        &&& attempts_at(u, h + 2, previous)
        &&& u.calls[pause] == Request::Plain(Plain::Sleep { millis: 12 })
        &&& attempts_at(u, pause + 1, previous)
    }
}

proof fn lemma_hands_back(t: Trail, root: usize, previous: usize)
    requires
        activation::hand_back_flow(t, root, previous).value is Some,
    ensures
        ({
            let u = activation::hand_back_flow(t, root, previous).trail;
            &&& effects::extends(t, u)
            &&& u.calls.len() > t.calls.len()
            &&& hands_back(u, t.calls.len() as int, root, previous)
            &&& t.upcoming(0).handle_value() != 0 ==> u.calls.len() > t.calls.len() + 1
        }),
{
    let h = t.calls.len() as int;
    let looked = t.plain(Plain::ForegroundWindow).trail;
    let current = t.upcoming(0).handle_value();
    let u = activation::hand_back_flow(t, root, previous).trail;
    if current != 0 {
        let owner = window::root_flow(looked, current).trail;
        if top_level(current, t.upcoming(1)) == root {
            let first = activation::attach_and_activate_flow(owner, previous).trail;
            let paused = first.plain(Plain::Sleep { millis: 12 }).trail;
            law_attempt_is_complete(owner, previous);
            law_attempt_is_complete(paused, previous);
            lemma_extends(first, paused, u);
            lemma_extends(owner, first, u);
            lemma_attempt_is_kept(first, u, h + 2, previous);
            lemma_attempt_is_kept(u, u, paused.calls.len() as int, previous);
            assert(u.calls[h] == owner.calls[h]);
            assert(u.calls[h + 1] == owner.calls[h + 1]);
            assert(u.calls[first.calls.len() as int] == paused.calls[first.calls.len() as int]);
        }
    }
}

proof fn lemma_hands_back_is_kept(t: Trail, u: Trail, h: int, root: usize, previous: usize)
    requires
        effects::extends(t, u),
        0 <= h < t.calls.len(),
        t.replies[h].handle_value() != 0 ==> h + 1 < t.calls.len(),
        hands_back(t, h, root, previous),
    ensures
        hands_back(u, h, root, previous),
{
    let current = t.replies[h].handle_value();
    assert(u.calls[h] == t.calls[h]);
    if current != 0 {
        assert(u.calls[h + 1] == t.calls[h + 1]);
        if top_level(current, t.replies[h + 1]) == root {
            let calls = attempt_calls(t.replies, h + 2, previous);
            let pause = h + 2 + calls.len();
            lemma_attempt_moves(t, u, h + 2, previous);
            lemma_attempt_moves(t, u, pause + 1, previous);
            assert(u.calls[pause] == t.calls[pause]);
        }
    }
}

proof fn lemma_attempt_moves(t: Trail, u: Trail, i: int, target: usize)
    requires
        effects::extends(t, u),
        attempts_at(t, i, target),
    ensures
        attempts_at(u, i, target),
{
    let calls = attempt_calls(t.replies, i, target);
    assert forall|k: int| 0 <= k < calls.len() implies t.calls[i + k] == #[trigger] calls[k] by {
        assert(t.calls.subrange(i, i + calls.len())[k] == t.calls[i + k]);
    }
    lemma_attempt_is_kept(t, u, i, target);
}

/// A release first enables a host that was disabled, waits, and looks whether
/// the contained window took the foreground after all. If so, the user's window
/// is set in front again unless it is seen there. Last, the non-activatable bit
/// that was set is cleared, and no other.
pub proof fn law_release_hands_back(t: Trail, armed: Containment)
    requires
        activation::release_flow(t, Some(armed)).value is Some,
    ensures
        ({
            let u = activation::release_flow(t, Some(armed)).trail;
            let h = t.calls.len() as int + (if armed.disabled {
                1int
            } else {
                0
            });
            let n = u.calls.len() as int;
            &&& effects::extends(t, u)
            &&& armed.disabled ==> u.calls[h - 1] == Request::Plain(
                Plain::Enable { window: armed.root, enable: true },
            )
            &&& u.calls[h] == Request::Plain(Plain::Sleep { millis: activation::ACTIVATION_SETTLE })
            &&& hands_back(u, h + 1, armed.root, armed.previous)
            &&& armed.no_activate ==> n >= 2 && u.calls[n - 2] == Request::Plain(
                Plain::ExStyle { window: armed.root },
            ) && u.calls[n - 1] == Request::Plain(
                Plain::SetExStyle {
                    window: armed.root,
                    style: t.replies[n - 2].word_value() & !WS_EX_NOACTIVATE,
                },
            )
        }),
{
    let h = t.calls.len() as int + (if armed.disabled {
        1int
    } else {
        0
    });
    let enabled = activation::disarm_disabled_host_flow(t, armed.root, armed.disabled).trail;
    let slept = enabled.plain(Plain::Sleep { millis: activation::ACTIVATION_SETTLE }).trail;
    let back = activation::hand_back_flow(slept, armed.root, armed.previous).trail;
    let u = activation::release_flow(t, Some(armed)).trail;
    lemma_hands_back(slept, armed.root, armed.previous);
    lemma_hands_back_is_kept(back, u, h + 1, armed.root, armed.previous);
    lemma_extends(slept, back, u);
    lemma_extends(enabled, slept, u);
    lemma_extends(t, enabled, u);
    assert(u.calls[h] == slept.calls[h]);
    if armed.disabled {
        assert(u.calls[h - 1] == enabled.calls[h - 1]);
    }
}

/// Whether a trail holds one attempt to activate `target` from index `i` on.
pub open spec fn attempts_at(u: Trail, i: int, target: usize) -> bool {
    let calls = attempt_calls(u.replies, i, target);
    &&& 0 <= i
    &&& i + calls.len() <= u.calls.len()
    &&& u.calls.subrange(i, i + calls.len()) == calls
}

proof fn lemma_attempt_is_kept(t: Trail, u: Trail, i: int, target: usize)
    requires
        effects::extends(t, u),
        0 <= i,
        i + attempt_calls(t.replies, i, target).len() <= t.calls.len(),
        forall|k: int|
            0 <= k < attempt_calls(t.replies, i, target).len() ==> t.calls[i + k]
                == #[trigger] attempt_calls(t.replies, i, target)[k],
    ensures
        attempts_at(u, i, target),
{
    let calls = attempt_calls(t.replies, i, target);
    assert forall|k: int| 0 <= k < calls.len() implies u.calls.subrange(i, i + calls.len())[k]
        == #[trigger] calls[k] by {
        assert(u.calls[i + k] == t.calls[i + k]);
    }
    assert(u.calls.subrange(i, i + calls.len()) =~= calls);
}

/// Whether a call posts a message.
pub open spec fn is_post(call: Request) -> bool {
    match call {
        Request::Plain(Plain::Post { .. }) => true,
        _ => false,
    }
}

/// Whether what a trail posts from index `from` on is contained: the shield of
/// `root` is armed at index `c`, before any of it, and from index `r` on, after
/// all of it, the foreground is handed back where it was taken and the shield is
/// lifted.
pub open spec fn contains_posts(u: Trail, from: int, c: int, r: int, root: usize) -> bool {
    let n = u.calls.len() as int;
    &&& from <= c
    &&& arms(u, c, root)
    &&& c + arming_len(u, c, root) <= r <= n
    &&& forall|i: int|
        from <= i < n && is_post(#[trigger] u.calls[i]) ==> c + arming_len(u, c, root) <= i < r
    &&& elsewhere(u, c, root) ==> u.calls[r] == Request::Plain(
        Plain::Sleep { millis: activation::ACTIVATION_SETTLE },
    ) && hands_back(u, r + 1, root, u.replies[c].handle_value())
    &&& shielded(u, c, root) ==> u.calls[n - 2] == Request::Plain(Plain::ExStyle { window: root })
        && u.calls[n - 1] == Request::Plain(
        Plain::SetExStyle {
            window: root,
            style: u.replies[n - 2].word_value() & !WS_EX_NOACTIVATE,
        },
    )
}

/// Calls that post nothing.
pub open spec fn posts_nothing(call: Request) -> bool {
    !is_post(call)
}

proof fn lemma_contained_posts(
    t: Trail,
    root: usize,
    target: usize,
    modifiers: Modifiers,
    posting: Posting<Seq<Spot>>,
) -> (r: int)
    requires
        background::contained_flow(t, root, target, modifiers, posting).value is Some,
    ensures
        ({
            let u = background::contained_flow(t, root, target, modifiers, posting).trail;
            &&& effects::extends(t, u)
            &&& contains_posts(u, t.calls.len() as int, t.calls.len() as int, r, root)
        }),
{
    broadcast use {
        effects::group_within,
        effects::contain_within,
        effects::release_within,
        effects::posted_modifiers_within,
    };

    let quiet = |c: Request| posts_nothing(c);
    let all = |c: Request| true;
    let c = t.calls.len() as int;
    let armed = activation::contain_flow(t, root, false);
    let guard = armed.value->0;
    law_containment_arms_its_root(t, root);
    let done = background::with_modifiers_flow(armed.trail, target, modifiers, posting);
    let u = background::contained_flow(t, root, target, modifiers, posting).trail;
    let r = done.trail.calls.len() as int;
    assert(effects::permits_queries(quiet));
    assert(effects::permits_shield(quiet, root));
    assert(effects::within(t, armed.trail, quiet));
    if let Some(containment) = guard {
        assert(effects::permits_focus(quiet, containment.previous));
        law_release_hands_back(done.trail, containment);
    }
    assert(effects::within(done.trail, u, quiet));
    lemma_modifiers_extend(armed.trail, target, modifiers, posting);
    reveal(effects::within);
    lemma_extends(armed.trail, done.trail, u);
    lemma_extends(t, armed.trail, u);
    let n = arming_len(t, c, root);
    assert(forall|k: int| c <= k < c + n ==> u.calls[k] == #[trigger] armed.trail.calls[k]);
    assert(u.calls[c] == armed.trail.calls[c]);
    if n > 1 {
        assert(u.calls[c + 1] == armed.trail.calls[c + 1]);
    }
    if n > 2 {
        assert(u.calls[c + 2] == armed.trail.calls[c + 2]);
    }
    if n > 3 {
        assert(u.calls[c + 3] == armed.trail.calls[c + 3]);
    }
    if n > 4 {
        assert(u.calls[c + 4] == armed.trail.calls[c + 4]);
        assert(u.calls[c + 5] == armed.trail.calls[c + 5]);
    }
    assert(arms(u, c, root));
    assert forall|i: int| c <= i < u.calls.len() && is_post(#[trigger] u.calls[i]) implies c + n <= i
        < r by {
        if i < c + n {
            assert(u.calls[i] == armed.trail.calls[i]);
        }
    }
    r
}

proof fn lemma_modifiers_extend(
    t: Trail,
    target: usize,
    modifiers: Modifiers,
    posting: Posting<Seq<Spot>>,
)
    ensures
        effects::extends(
            t,
            background::with_modifiers_flow(t, target, modifiers, posting).trail,
        ),
{
    broadcast use {effects::group_within, effects::posted_modifiers_within};

    let all = |c: Request| true;
    assert(effects::permits_queries(all));
    assert(forall|window: usize| effects::permits_posts(all, window));
    assert(effects::within(
        t,
        background::with_modifiers_flow(t, target, modifiers, posting).trail,
        all,
    ));
    reveal(effects::within);
}

proof fn lemma_contained_after(t: Trail, v: Trail, u: Trail, r: int, root: usize)
    requires
        effects::within(t, v, |c: Request| effects::is_query(c)),
        effects::extends(v, u),
        contains_posts(u, v.calls.len() as int, v.calls.len() as int, r, root),
    ensures
        contains_posts(u, t.calls.len() as int, v.calls.len() as int, r, root),
        effects::extends(t, u),
{
    reveal(effects::within);
    lemma_extends(t, v, u);
    let c = v.calls.len() as int;
    assert forall|i: int| t.calls.len() <= i < u.calls.len() && is_post(
        #[trigger] u.calls[i],
    ) implies c + arming_len(u, c, root) <= i < r by {
        if i < c {
            assert(u.calls[i] == v.calls[i]);
        }
    }
}

/// Clicks that were posted are contained: the window is kept from taking the
/// foreground while they are posted, and what that took is undone after.
pub proof fn law_posted_click_is_contained(
    t: Trail,
    id: Seq<char>,
    root: usize,
    at: Spot,
    button: MouseButton,
    count: u32,
    modifiers: Modifiers,
) -> (span: (int, int))
    requires
        background::posted_gesture_flow(
            t,
            id,
            root,
            Gesture::Click { at, button, count, modifiers },
        ).value == Some(Ok::<(), Fault>(())),
    ensures
        contains_posts(
            background::posted_gesture_flow(
                t,
                id,
                root,
                Gesture::Click { at, button, count, modifiers },
            ).trail,
            t.calls.len() as int,
            span.0,
            span.1,
            root,
        ),
{
    broadcast use {effects::group_within, effects::descend_within};

    let queries = |c: Request| effects::is_query(c);
    assert(effects::permits_queries(queries));
    let child = background::child_at_flow(t, root, at);
    let (target, point) = (child.value->0)->Ok_0;
    let styled = child.trail.plain(Plain::ClassStyle { window: target });
    let v = styled.trail;
    assert(effects::within(t, v, queries));
    let posting = Posting::Clicks {
        target,
        point,
        button,
        count,
        flags: crate::message::modifier_flags(modifiers),
        wants_double: (styled.value->0).word_value() & CS_DBLCLKS != 0,
    };
    let r = lemma_contained_posts(v, root, target, modifiers, posting);
    let u = background::contained_flow(v, root, target, modifiers, posting).trail;
    assert(u == background::posted_gesture_flow(
        t,
        id,
        root,
        Gesture::Click { at, button, count, modifiers },
    ).trail);
    lemma_contained_after(t, v, u, r, root);
    (v.calls.len() as int, r)
}

/// A drag that was posted is contained: the window is kept from taking the
/// foreground while it is posted, and what that took is undone after.
pub proof fn law_posted_drag_is_contained(
    t: Trail,
    id: Seq<char>,
    root: usize,
    path: Seq<Spot>,
    button: MouseButton,
    modifiers: Modifiers,
) -> (span: (int, int))
    requires
        background::posted_gesture_flow(
            t,
            id,
            root,
            Gesture::Drag { path, button, modifiers },
        ).value == Some(Ok::<(), Fault>(())),
    ensures
        contains_posts(
            background::posted_gesture_flow(
                t,
                id,
                root,
                Gesture::Drag { path, button, modifiers },
            ).trail,
            t.calls.len() as int,
            span.0,
            span.1,
            root,
        ),
{
    broadcast use {effects::group_within, effects::descend_within};

    let queries = |c: Request| effects::is_query(c);
    assert(effects::permits_queries(queries));
    let located = background::screen_point_flow(t, path[0]);
    let point = (located.value->0)->Ok_0;
    let tested = background::drag_region_flow(located.trail, root, point);
    let under = background::child_under_flow(tested.trail, root, point);
    let (target, client) = (under.value->0)->Ok_0;
    let v = under.trail;
    assert(effects::within(t, v, queries));
    let posting = Posting::Drag {
        target,
        start: crate::message::packed(client.x, client.y)->Ok_0,
        path,
        button,
        flags: crate::message::modifier_flags(modifiers),
    };
    let r = lemma_contained_posts(v, root, target, modifiers, posting);
    let u = background::contained_flow(v, root, target, modifiers, posting).trail;
    assert(u == background::posted_gesture_flow(
        t,
        id,
        root,
        Gesture::Drag { path, button, modifiers },
    ).trail);
    lemma_contained_after(t, v, u, r, root);
    (v.calls.len() as int, r)
}

/// A drag that starts where only the real pointer can drag is refused: the
/// window itself is asked what lies under the first point, and nothing is
/// posted.
pub proof fn law_frame_is_not_dragged(
    t: Trail,
    id: Seq<char>,
    root: usize,
    path: Seq<Spot>,
    button: MouseButton,
    modifiers: Modifiers,
)
    requires
        path.len() > 0,
        background::posted_drag_flow(t, id, root, path, button, modifiers).value is Some,
        t.upcoming(0).located_value() is Ok,
        fits_words(t.upcoming(0).located_value()->Ok_0),
    ensures
        ({
            let flow = background::posted_drag_flow(t, id, root, path, button, modifiers);
            let c = t.calls.len() as int;
            let hit = t.upcoming(1).found_value();
            &&& flow.trail.calls[c] == Request::Plain(Plain::Locate { at: path[0] })
            &&& flow.trail.calls[c + 1] matches Request::Plain(
                Plain::SendTimeout { window, message, wparam, lparam, .. },
            ) && window == root && message == WM_NCHITTEST && wparam == 0 && lparam as int / 0x10000
                == t.upcoming(0).located_value()->Ok_0.y && lparam as int % 0x10000
                == t.upcoming(0).located_value()->Ok_0.x as int % 0x10000
            &&& hit is Some ==> flow.trail.calls[c + 2] == Request::Plain(
                Plain::NonClientRegion { hit: hit->0 as isize },
            )
            &&& hit is Some && t.upcoming(2).text_value() is Some ==> flow.trail.calls.len() == c
                + 3 && (flow.value matches Some(Err(fault)) && fault.kind is BackgroundUnavailable)
        }),
{
    broadcast use {effects::group_within, effects::descend_within};

    let located = background::screen_point_flow(t, path[0]);
    let point = (located.value->0)->Ok_0;
    let tested = background::drag_region_flow(located.trail, root, point);
    crate::message::law_packed_point_reads_back(point.x, point.y);
    let under = background::child_under_flow(tested.trail, root, point);
    let all = |c: Request| true;
    assert(effects::permits_queries(all));
    assert(effects::within(tested.trail, under.trail, all));
    let u = background::posted_drag_flow(t, id, root, path, button, modifiers).trail;
    lemma_drag_extends(t, id, root, path, button, modifiers);
    let c = t.calls.len() as int;
    assert(tested.trail.calls.len() >= c + 2);
    assert(u.calls[c] == tested.trail.calls[c]);
    assert(u.calls[c + 1] == tested.trail.calls[c + 1]);
    if t.upcoming(1).found_value() is Some {
        assert(u.calls[c + 2] == tested.trail.calls[c + 2]);
    }
}

/// Whether both coordinates of a point fit a signed word of sixteen bits.
pub open spec fn fits_words(point: Point) -> bool {
    -0x8000 <= point.x < 0x8000 && -0x8000 <= point.y < 0x8000
}

proof fn lemma_drag_extends(
    t: Trail,
    id: Seq<char>,
    root: usize,
    path: Seq<Spot>,
    button: MouseButton,
    modifiers: Modifiers,
)
    requires
        path.len() > 0,
        t.upcoming(0).located_value() is Ok,
        background::posted_drag_flow(t, id, root, path, button, modifiers).value is Some,
    ensures
        effects::extends(
            background::drag_region_flow(
                background::screen_point_flow(t, path[0]).trail,
                root,
                t.upcoming(0).located_value()->Ok_0,
            ).trail,
            background::posted_drag_flow(t, id, root, path, button, modifiers).trail,
        ),
{
    broadcast use {
        effects::group_within,
        effects::descend_within,
        effects::contain_within,
        effects::release_within,
        effects::posted_modifiers_within,
    };

    let all = |c: Request| true;
    assert(effects::permits_queries(all));
    assert(forall|window: usize| effects::permits_posts(all, window));
    assert(forall|window: usize| effects::permits_focus(all, window));
    assert(forall|window: usize| effects::permits_shield(all, window));
    let located = background::screen_point_flow(t, path[0]);
    let point = (located.value->0)->Ok_0;
    let tested = background::drag_region_flow(located.trail, root, point);
    assert(effects::within(
        tested.trail,
        background::posted_drag_flow(t, id, root, path, button, modifiers).trail,
        all,
    ));
    reveal(effects::within);
}

} // verus!
