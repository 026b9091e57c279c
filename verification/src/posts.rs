//! What posted input that succeeded has posted: to which window, in which order
//! and with which parameters.

use vstd::prelude::*;

use crate::background::Posting;
use crate::deeds::{
    answered_key, answered_state, asked_modifiers, held_codes, lemma_asked_modifiers, lemma_extends,
    lemma_none_picked, lemma_scanned, lemma_success, picked, picked_ask,
};
use crate::error::{Fault, Outcome};
use crate::keys::{KeyName, Modifiers, MouseButton};
use crate::request::{EventKind, Gesture, Point, Spot, TextUnit};
use crate::tape::{Plain, Reply, Request, Trail};
use crate::win32::{
    CS_DBLCLKS, CWP_SKIPDISABLED, CWP_SKIPINVISIBLE, CWP_SKIPTRANSPARENT, MK_CONTROL, MK_LBUTTON,
    MK_MBUTTON, MK_RBUTTON, MK_SHIFT, VK_MENU, VK_RETURN, WM_CHAR, WM_KEYDOWN, WM_KEYUP,
    WM_LBUTTONDBLCLK, WM_LBUTTONDOWN, WM_LBUTTONUP, WM_MBUTTONDBLCLK, WM_MBUTTONDOWN, WM_MBUTTONUP,
    WM_MOUSEHWHEEL, WM_MOUSEMOVE, WM_MOUSEWHEEL, WM_RBUTTONDBLCLK, WM_RBUTTONDOWN, WM_RBUTTONUP,
};
use crate::{
    activation, background, delivery, effects, emitter, global, keys, message, text, window,
};

verus! {

/// Mouse messages that were posted; where `arrived`, only those that were taken.
pub open spec fn mouse(arrived: bool) -> spec_fn(Request, Reply) -> bool {
    |call: Request, reply: Reply|
        match call {
            Request::Plain(Plain::Post { message, .. }) => message >= WM_MOUSEMOVE && (arrived
                ==> reply.posted_value() is Ok),
            _ => false,
        }
}

/// Key and character messages that were posted; where `arrived`, only those
/// that were taken.
pub open spec fn keyboard(arrived: bool) -> spec_fn(Request, Reply) -> bool {
    |call: Request, reply: Reply|
        match call {
            Request::Plain(Plain::Post { message, .. }) => message < WM_MOUSEMOVE && (arrived
                ==> reply.posted_value() is Ok),
            _ => false,
        }
}

/// The call that posts one message.
pub open spec fn posted(window: usize, message: u32, wparam: usize, lparam: isize) -> Request {
    Request::Plain(Plain::Post { window, message, wparam, lparam })
}

/// The window on level `k` of a descent that begins at index `i` of a trail.
pub open spec fn level_window(u: Trail, i: int, root: usize, k: int) -> usize {
    if k == 0 {
        root
    } else {
        u.replies[i + 3 * k - 2].handle_value()
    }
}

/// The point in client coordinates of the window on level `k` of a descent that
/// begins at index `i` of a trail.
pub open spec fn level_point(u: Trail, i: int, k: int) -> Point {
    u.replies[i + 3 * k].point_value()->0
}

/// The question for the visible, enabled child of a window at a point.
pub open spec fn child_at_point(window: usize, point: Point) -> Request {
    Request::Plain(
        Plain::ChildFromPoint {
            window,
            point,
            flags: CWP_SKIPINVISIBLE | CWP_SKIPDISABLED | CWP_SKIPTRANSPARENT,
        },
    )
}

/// Whether level `k` of a descent lies below level `k - 1`: the window there
/// named another window under the point, which is a child of the root and maps
/// the point.
pub open spec fn steps_down(u: Trail, i: int, root: usize, screen: Point, k: int) -> bool {
    let above = level_window(u, i, root, k - 1);
    let below = level_window(u, i, root, k);
    &&& u.calls[i + 3 * k - 2] == child_at_point(above, level_point(u, i, k - 1))
    &&& below != 0
    &&& below != above
    &&& u.calls[i + 3 * k - 1] == Request::Plain(Plain::IsChild { parent: root, window: below })
    &&& u.replies[i + 3 * k - 1].flag_value()
    &&& u.calls[i + 3 * k] == Request::Plain(Plain::ScreenToClient { window: below, point: screen })
    &&& u.replies[i + 3 * k].point_value() is Some
}

/// Whether a descent ends on level `n`: no other window lies under the point
/// there, or the one that does is no child of the root or does not map the
/// point, or the bound is reached.
pub open spec fn ends_at(u: Trail, i: int, root: usize, screen: Point, n: int) -> bool {
    let last = level_window(u, i, root, n);
    let child = u.replies[i + 3 * n + 1].handle_value();
    ||| n == window::MAX_NESTING
    ||| {
        &&& u.calls[i + 3 * n + 1] == child_at_point(last, level_point(u, i, n))
        &&& {
            ||| child == 0
            ||| child == last
            ||| {
                &&& u.calls[i + 3 * n + 2] == Request::Plain(
                    Plain::IsChild { parent: root, window: child },
                )
                &&& {
                    ||| !u.replies[i + 3 * n + 2].flag_value()
                    ||| u.calls[i + 3 * n + 3] == Request::Plain(
                        Plain::ScreenToClient { window: child, point: screen },
                    ) && u.replies[i + 3 * n + 3].point_value() is None
                }
            }
        }
    }
}

/// Whether a trail holds, from index `i` on, a descent from `root` to the
/// deepest window under a screen point, over `n` levels.
pub open spec fn descent(u: Trail, i: int, root: usize, screen: Point, n: int) -> bool {
    &&& 0 <= i < u.calls.len()
    &&& 0 <= n <= window::MAX_NESTING
    &&& u.calls[i] == Request::Plain(Plain::ScreenToClient { window: root, point: screen })
    &&& u.replies[i].point_value() is Some
    &&& forall|k: int| 1 <= k <= n ==> #[trigger] steps_down(u, i, root, screen, k)
    &&& ends_at(u, i, root, screen, n)
    &&& i + 3 * n < u.calls.len()
    &&& n < window::MAX_NESTING ==> i + 3 * n + 1 < u.calls.len()
}

/// How far the answers of the last, futile step of a descent reach.
pub open spec fn tail_len(u: Trail, i: int, root: usize, n: int) -> int {
    let last = level_window(u, i, root, n);
    let child = u.replies[i + 3 * n + 1].handle_value();
    if n == window::MAX_NESTING {
        0
    } else if child == 0 || child == last {
        1
    } else if !u.replies[i + 3 * n + 2].flag_value() {
        2
    } else {
        3
    }
}

/// Whether a trail that holds a descent reaches to its end.
#[verifier::opaque]
pub open spec fn whole_descent(u: Trail, i: int, root: usize, screen: Point, n: int) -> bool {
    &&& descent(u, i, root, screen, n)
    &&& i + 3 * n + 1 + tail_len(u, i, root, n) <= u.calls.len()
}

proof fn lemma_descent(
    t: Trail,
    i: int,
    root: usize,
    screen: Point,
    current: usize,
    client: Point,
    n: nat,
) -> (m: nat)
    requires
        0 <= i,
        n <= window::MAX_NESTING,
        t.calls.len() == i + 3 * n + 1,
        t.calls[i] == Request::Plain(Plain::ScreenToClient { window: root, point: screen }),
        t.replies[i].point_value() is Some,
        forall|k: int| 1 <= k <= n ==> #[trigger] steps_down(t, i, root, screen, k),
        current == level_window(t, i, root, n as int),
        client == level_point(t, i, n as int),
        window::descend_flow(
            t,
            root,
            screen,
            current,
            client,
            (window::MAX_NESTING - n) as nat,
        ).value is Some,
    ensures
        ({
            let flow = window::descend_flow(
                t,
                root,
                screen,
                current,
                client,
                (window::MAX_NESTING - n) as nat,
            );
            let found = flow.value->0;
            &&& effects::extends(t, flow.trail)
            &&& whole_descent(flow.trail, i, root, screen, m as int)
            &&& found.0 == level_window(flow.trail, i, root, m as int)
            &&& found.1 == level_point(flow.trail, i, m as int)
        }),
    decreases window::MAX_NESTING - n,
{
    reveal(whole_descent);
    let left = (window::MAX_NESTING - n) as nat;
    let flow = window::descend_flow(t, root, screen, current, client, left);
    let end = flow.trail;
    let asked = t.ask(child_at_point(current, client));
    let child = (asked.value->0).handle_value();
    let inside = asked.trail.plain(Plain::IsChild { parent: root, window: child });
    let place = inside.trail.plain(Plain::ScreenToClient { window: child, point: screen });
    if left == 0 {
        n
    } else if child == 0 || child == current || !(inside.value->0).flag_value() || (
    place.value->0).point_value() is None {
        lemma_steps_kept(t, end, i, root, screen, n as int);
        n
    } else {
        let point = (place.value->0).point_value()->0;
        lemma_steps_kept(t, place.trail, i, root, screen, n as int);
        assert(steps_down(place.trail, i, root, screen, n as int + 1));
        let m = lemma_descent(place.trail, i, root, screen, child, point, n + 1);
        lemma_extends(t, place.trail, end);
        m
    }
}

proof fn lemma_steps_kept(t: Trail, u: Trail, i: int, root: usize, screen: Point, n: int)
    requires
        effects::extends(t, u),
        0 <= i,
        i + 3 * n < t.calls.len(),
        forall|k: int| 1 <= k <= n ==> #[trigger] steps_down(t, i, root, screen, k),
    ensures
        forall|k: int| 1 <= k <= n ==> #[trigger] steps_down(u, i, root, screen, k),
{
    assert forall|k: int| 1 <= k <= n implies #[trigger] steps_down(u, i, root, screen, k) by {
        assert(steps_down(t, i, root, screen, k));
        assert(u.calls[i + 3 * k - 2] == t.calls[i + 3 * k - 2]);
        assert(u.calls[i + 3 * k - 1] == t.calls[i + 3 * k - 1]);
        assert(u.calls[i + 3 * k] == t.calls[i + 3 * k]);
    }
}

proof fn lemma_descent_is_kept(t: Trail, u: Trail, i: int, root: usize, screen: Point, n: int)
    requires
        effects::extends(t, u),
        whole_descent(t, i, root, screen, n),
    ensures
        whole_descent(u, i, root, screen, n),
{
    reveal(whole_descent);
    lemma_steps_kept(t, u, i, root, screen, n);
    assert(u.calls[i] == t.calls[i]);
    if n < window::MAX_NESTING {
        assert(u.calls[i + 3 * n + 1] == t.calls[i + 3 * n + 1]);
        if tail_len(t, i, root, n) >= 2 {
            assert(u.calls[i + 3 * n + 2] == t.calls[i + 3 * n + 2]);
        }
        if tail_len(t, i, root, n) >= 3 {
            assert(u.calls[i + 3 * n + 3] == t.calls[i + 3 * n + 3]);
        }
    }
}

/// The window found under a point is the last of a chain: each names the next
/// as its visible, enabled child under the point, each is a child of the root,
/// and the last names no further one. The point that comes with it is where that
/// window maps the screen point.
pub proof fn law_deepest_child_is_reached(t: Trail, root: usize, screen: Point) -> (n: nat)
    requires
        window::deepest_child_flow(t, root, screen).value is Some,
    ensures
        ({
            let flow = window::deepest_child_flow(t, root, screen);
            let i = t.calls.len() as int;
            &&& effects::extends(t, flow.trail)
            &&& flow.trail.calls[i] == Request::Plain(
                Plain::ScreenToClient { window: root, point: screen },
            )
            &&& flow.value->0 is None <==> t.upcoming(0).point_value() is None
            &&& flow.value matches Some(Some(found)) ==> {
                &&& whole_descent(flow.trail, i, root, screen, n as int)
                &&& found.0 == level_window(flow.trail, i, root, n as int)
                &&& found.1 == level_point(flow.trail, i, n as int)
            }
        }),
{
    let first = t.plain(Plain::ScreenToClient { window: root, point: screen });
    if let Some(client) = t.upcoming(0).point_value() {
        let n = lemma_descent(first.trail, t.calls.len() as int, root, screen, root, client, 0);
        let end = window::deepest_child_flow(t, root, screen).trail;
        lemma_extends(t, first.trail, end);
        n
    } else {
        0
    }
}

/// Whether a message parameter carries a point: `x` in its low word and `y` in
/// its high word, each in two's complement.
pub open spec fn carries(lparam: isize, point: Point) -> bool {
    &&& -0x8000 <= point.x < 0x8000
    &&& -0x8000 <= point.y < 0x8000
    &&& lparam as int % 0x10000 == point.x as int % 0x10000
    &&& lparam as int / 0x10000 == point.y
}

proof fn lemma_packed(point: Point)
    ensures
        message::packed(point.x, point.y) matches Ok(lparam) ==> carries(lparam, point),
{
    message::law_packed_point_reads_back(point.x, point.y);
}

/// Messages of a button: press, release and double click.
pub open spec fn button_numbers(button: MouseButton) -> (u32, u32, u32) {
    match button {
        MouseButton::Left => (WM_LBUTTONDOWN, WM_LBUTTONUP, WM_LBUTTONDBLCLK),
        MouseButton::Right => (WM_RBUTTONDOWN, WM_RBUTTONUP, WM_RBUTTONDBLCLK),
        MouseButton::Middle => (WM_MBUTTONDOWN, WM_MBUTTONUP, WM_MBUTTONDBLCLK),
    }
}

/// The bit of mouse messages that tells that a button is down.
pub open spec fn button_bit(button: MouseButton) -> int {
    match button {
        MouseButton::Left => MK_LBUTTON as int,
        MouseButton::Right => MK_RBUTTON as int,
        MouseButton::Middle => MK_MBUTTON as int,
    }
}

/// The bits of mouse messages that tell which modifiers are down: only Ctrl and
/// Shift have one.
pub open spec fn modifier_bits(modifiers: Modifiers) -> int {
    (if modifiers.ctrl {
        MK_CONTROL as int
    } else {
        0
    }) + (if modifiers.shift {
        MK_SHIFT as int
    } else {
        0
    })
}

proof fn lemma_bits(modifiers: Modifiers, button: MouseButton)
    ensures
        message::modifier_flags(modifiers) == modifier_bits(modifiers),
        message::modifier_flags(modifiers) | message::button_messages(button).3 == modifier_bits(
            modifiers,
        ) + button_bit(button),
        message::button_messages(button).0 == button_numbers(button).0,
        message::button_messages(button).1 == button_numbers(button).1,
        message::button_messages(button).2 == button_numbers(button).2,
{
    let f = message::modifier_flags(modifiers);
    let b = message::button_messages(button).3;
    assert(8usize | 4 == 12 && 8usize | 0 == 8 && 0usize | 4 == 4 && 0usize | 0 == 0)
        by (bit_vector);
    assert(f | b == f + b) by (bit_vector)
        requires
            f == 0 || f == 4 || f == 8 || f == 12,
            b == 1 || b == 2 || b == 16,
    ;
}

/// Mouse messages of posted clicks, one after the other: for each a move, the
/// press, which is a double click where `doubles` says so, and the release.
pub open spec fn click_posts(
    target: usize,
    point: isize,
    button: MouseButton,
    modifiers: Modifiers,
    doubles: Seq<bool>,
) -> Seq<Request> {
    let (down, up, double) = button_numbers(button);
    let bits = modifier_bits(modifiers);
    Seq::new(
        3 * doubles.len(),
        |k: int|
            if k % 3 == 0 {
                posted(target, WM_MOUSEMOVE, bits as usize, point)
            } else if k % 3 == 1 {
                posted(
                    target,
                    if doubles[k / 3] {
                        double
                    } else {
                        down
                    },
                    (bits + button_bit(button)) as usize,
                    point,
                )
            } else {
                posted(target, up, bits as usize, point)
            },
    )
}

/// Whether the question if the click at `index` is posted as a double click got
/// this answer.
pub open spec fn double_answered(u: Trail, index: int, wants_double: bool, double: bool) -> bool {
    exists|k: int|
        0 <= k < u.calls.len() && #[trigger] u.calls[k] == Request::Plain(
            Plain::PostsDoubleClick { index: index as u32, wants_double },
        ) && u.replies[k].flag_value() == double
}

proof fn lemma_double_is_kept(t: Trail, u: Trail, index: int, wants_double: bool, double: bool)
    requires
        effects::extends(t, u),
        double_answered(t, index, wants_double, double),
    ensures
        double_answered(u, index, wants_double, double),
{
    let k = choose|k: int|
        0 <= k < t.calls.len() && #[trigger] t.calls[k] == Request::Plain(
            Plain::PostsDoubleClick { index: index as u32, wants_double },
        ) && t.replies[k].flag_value() == double;
    assert(u.calls[k] == t.calls[k]);
}

/// Mouse messages of one posted click.
pub open spec fn one_click(
    target: usize,
    point: isize,
    button: MouseButton,
    modifiers: Modifiers,
    double: bool,
) -> Seq<Request> {
    let bits = modifier_bits(modifiers);
    seq![
        posted(target, WM_MOUSEMOVE, bits as usize, point),
        posted(
            target,
            if double {
                button_numbers(button).2
            } else {
                button_numbers(button).0
            },
            (bits + button_bit(button)) as usize,
            point,
        ),
        posted(target, button_numbers(button).1, bits as usize, point),
    ]
}

proof fn lemma_posted_click(
    t: Trail,
    target: usize,
    point: isize,
    button: MouseButton,
    modifiers: Modifiers,
    wants_double: bool,
    index: u32,
    arrived: bool,
) -> (double: bool)
    requires
        background::click_flow(
            t,
            target,
            point,
            button,
            message::modifier_flags(modifiers),
            wants_double,
            index,
        ).value == Some(Ok::<(), Fault>(())),
    ensures
        ({
            let end = background::click_flow(
                t,
                target,
                point,
                button,
                message::modifier_flags(modifiers),
                wants_double,
                index,
            ).trail;
            &&& effects::extends(t, end)
            &&& picked(end, keyboard(arrived)) == picked(t, keyboard(arrived))
            &&& picked(end, mouse(arrived)) == picked(t, mouse(arrived)) + one_click(
                target,
                point,
                button,
                modifiers,
                double,
            )
            &&& double_answered(end, index as int, wants_double, double)
        }),
{
    broadcast use picked_ask;

    let flags = message::modifier_flags(modifiers);
    lemma_bits(modifiers, button);
    let end = background::click_flow(t, target, point, button, flags, wants_double, index).trail;
    let gap = background::click_gap_flow(t, index).trail;
    let asked = gap.plain(Plain::PostsDoubleClick { index, wants_double });
    let double = (asked.value->0).flag_value();
    let at = gap.calls.len() as int;
    assert(end.calls[at] == Request::Plain(Plain::PostsDoubleClick { index, wants_double }));
    assert(picked(end, mouse(arrived)) =~= picked(t, mouse(arrived)) + one_click(
        target,
        point,
        button,
        modifiers,
        double,
    ));
    double
}

proof fn lemma_click_posts_join(
    target: usize,
    point: isize,
    button: MouseButton,
    modifiers: Modifiers,
    double: bool,
    rest: Seq<bool>,
)
    ensures
        click_posts(target, point, button, modifiers, seq![double] + rest) == one_click(
            target,
            point,
            button,
            modifiers,
            double,
        ) + click_posts(target, point, button, modifiers, rest),
{
    let doubles = seq![double] + rest;
    let all = click_posts(target, point, button, modifiers, doubles);
    let more = click_posts(target, point, button, modifiers, rest);
    let one = one_click(target, point, button, modifiers, double);
    assert forall|k: int| 0 <= k < all.len() implies all[k] == (one + more)[k] by {
        if k >= 3 {
            assert((k - 3) / 3 == k / 3 - 1);
            assert((k - 3) % 3 == k % 3);
            assert(doubles[k / 3] == rest[k / 3 - 1]);
        } else {
            assert(doubles[0] == double);
        }
    }
    assert(all =~= one + more);
}

proof fn lemma_posted_clicks(
    t: Trail,
    target: usize,
    point: isize,
    button: MouseButton,
    count: u32,
    modifiers: Modifiers,
    wants_double: bool,
    index: nat,
    arrived: bool,
) -> (doubles: Seq<bool>)
    requires
        index <= count,
        background::clicks_flow(
            t,
            target,
            point,
            button,
            count,
            message::modifier_flags(modifiers),
            wants_double,
            index,
        ).value == Some(Ok::<(), Fault>(())),
    ensures
        ({
            let end = background::clicks_flow(
                t,
                target,
                point,
                button,
                count,
                message::modifier_flags(modifiers),
                wants_double,
                index,
            ).trail;
            &&& effects::extends(t, end)
            &&& picked(end, keyboard(arrived)) == picked(t, keyboard(arrived))
            &&& picked(end, mouse(arrived)) == picked(t, mouse(arrived)) + click_posts(
                target,
                point,
                button,
                modifiers,
                doubles,
            )
            &&& doubles.len() == count - index
            &&& forall|j: int|
                0 <= j < doubles.len() ==> double_answered(
                    end,
                    index + j,
                    wants_double,
                    #[trigger] doubles[j],
                )
        }),
    decreases count - index,
{
    let flags = message::modifier_flags(modifiers);
    let kind = mouse(arrived);
    if index >= count {
        assert(picked(t, kind) + click_posts(target, point, button, modifiers, Seq::empty())
            =~= picked(t, kind));
        Seq::empty()
    } else {
        let double = lemma_posted_click(
            t,
            target,
            point,
            button,
            modifiers,
            wants_double,
            index as u32,
            arrived,
        );
        let clicked = background::click_flow(
            t,
            target,
            point,
            button,
            flags,
            wants_double,
            index as u32,
        ).trail;
        let rest = lemma_posted_clicks(
            clicked,
            target,
            point,
            button,
            count,
            modifiers,
            wants_double,
            index + 1,
            arrived,
        );
        let doubles = seq![double] + rest;
        let end = background::clicks_flow(
            t,
            target,
            point,
            button,
            count,
            flags,
            wants_double,
            index,
        ).trail;
        lemma_extends(t, clicked, end);
        lemma_double_is_kept(clicked, end, index as int, wants_double, double);
        lemma_click_posts_join(target, point, button, modifiers, double, rest);
        let one = one_click(target, point, button, modifiers, double);
        let more = click_posts(target, point, button, modifiers, rest);
        assert(picked(t, kind) + one + more =~= picked(t, kind) + (one + more));
        assert forall|j: int| 0 <= j < doubles.len() implies double_answered(
            end,
            index + j,
            wants_double,
            #[trigger] doubles[j],
        ) by {
            if j > 0 {
                assert(doubles[j] == rest[j - 1]);
                assert(index + j == (index + 1) + (j - 1));
            }
        }
        doubles
    }
}

/// Whether at index `i` of a trail a spot was located and mapped into `target`,
/// and `lparam` carries the point it was mapped to.
pub open spec fn mapped_at(u: Trail, i: int, target: usize, at: Spot, lparam: isize) -> bool {
    &&& 0 <= i
    &&& i + 1 < u.calls.len()
    &&& u.calls[i] == Request::Plain(Plain::Locate { at })
    &&& u.replies[i].located_value() is Ok
    &&& u.calls[i + 1] == Request::Plain(
        Plain::ScreenToClient { window: target, point: u.replies[i].located_value()->Ok_0 },
    )
    &&& u.replies[i + 1].point_value() is Some
    &&& carries(lparam, u.replies[i + 1].point_value()->0)
}

/// Whether `lparam` carries where `target` maps a spot.
pub open spec fn mapped(u: Trail, target: usize, at: Spot, lparam: isize) -> bool {
    exists|i: int| #[trigger] mapped_at(u, i, target, at, lparam)
}

proof fn lemma_mapped_is_kept(t: Trail, u: Trail, target: usize, at: Spot, lparam: isize)
    requires
        effects::extends(t, u),
        mapped(t, target, at, lparam),
    ensures
        mapped(u, target, at, lparam),
{
    let i = choose|i: int| #[trigger] mapped_at(t, i, target, at, lparam);
    assert(u.calls[i] == t.calls[i]);
    assert(u.calls[i + 1] == t.calls[i + 1]);
    assert(mapped_at(u, i, target, at, lparam));
}

/// Mouse messages of the points of a drag but the first: a move each, with the
/// button down.
pub open spec fn drag_posts(target: usize, wparam: usize, locations: Seq<isize>) -> Seq<Request> {
    Seq::new(
        locations.len(),
        |k: int| posted(target, WM_MOUSEMOVE, wparam, locations[k]),
    )
}

proof fn lemma_drag_moves(
    t: Trail,
    target: usize,
    path: Seq<Spot>,
    i: nat,
    flags: usize,
    last: isize,
    arrived: bool,
) -> (locations: Seq<isize>)
    requires
        background::drag_moves_flow(t, target, path, i, flags, last).value matches Some(Ok(_)),
    ensures
        ({
            let flow = background::drag_moves_flow(t, target, path, i, flags, last);
            &&& effects::extends(t, flow.trail)
            &&& picked(flow.trail, keyboard(arrived)) == picked(t, keyboard(arrived))
            &&& picked(flow.trail, mouse(arrived)) == picked(t, mouse(arrived)) + drag_posts(
                target,
                flags,
                locations,
            )
            &&& locations.len() == if i < path.len() {
                path.len() - i
            } else {
                0
            }
            &&& forall|j: int|
                0 <= j < locations.len() ==> mapped(
                    flow.trail,
                    target,
                    path[i + j],
                    #[trigger] locations[j],
                )
            &&& flow.value == Some(
                Ok::<isize, Fault>(
                    if locations.len() == 0 {
                        last
                    } else {
                        locations.last()
                    },
                ),
            )
        }),
    decreases path.len() - i,
{
    broadcast use picked_ask;

    let kind = mouse(arrived);
    if i >= path.len() {
        assert(picked(t, kind) + drag_posts(target, flags, Seq::empty()) =~= picked(t, kind));
        Seq::empty()
    } else {
        let placed = background::client_point_flow(t, target, path[i as int]);
        let location = (placed.value->0)->Ok_0;
        let client = t.upcoming(1).point_value()->0;
        lemma_packed(client);
        assert(mapped_at(placed.trail, t.calls.len() as int, target, path[i as int], location));
        let moved = emitter::post_flow(placed.trail, target, WM_MOUSEMOVE, flags, location);
        let slept = moved.trail.plain(Plain::Sleep { millis: background::DRAG_STEP });
        let rest = lemma_drag_moves(slept.trail, target, path, i + 1, flags, location, arrived);
        let locations = seq![location] + rest;
        let end = background::drag_moves_flow(t, target, path, i, flags, last).trail;
        lemma_extends(placed.trail, slept.trail, end);
        lemma_extends(t, slept.trail, end);
        lemma_mapped_is_kept(placed.trail, end, target, path[i as int], location);
        let call = posted(target, WM_MOUSEMOVE, flags, location);
        assert(drag_posts(target, flags, locations) =~= seq![call] + drag_posts(
            target,
            flags,
            rest,
        ));
        assert(picked(slept.trail, kind) =~= picked(t, kind) + seq![call]);
        assert(picked(t, kind) + seq![call] + drag_posts(target, flags, rest) =~= picked(t, kind)
            + drag_posts(target, flags, locations));
        assert forall|j: int| 0 <= j < locations.len() implies mapped(
            end,
            target,
            path[i + j],
            #[trigger] locations[j],
        ) by {
            if j > 0 {
                assert(locations[j] == rest[j - 1]);
                assert(path[i + j] == path[(i + 1) + (j - 1)]);
            }
        }
        if rest.len() > 0 {
            assert(locations.last() == rest.last());
        }
        locations
    }
}

/// Whether a posted key message is a system key message: Alt itself, or any key
/// while Alt is down.
pub open spec fn with_alt(alt: u8, vk: u16) -> bool {
    alt > 0 || vk == VK_MENU
}

/// A key transition looks up the scan code and posts one message: a system key
/// message where Alt is down or goes down, with the virtual key, a repeat count
/// of one, the scan code, the extended bit, the context bit for Alt, and the
/// previous-state and transition bits of a key that goes up. Alt is counted
/// where its message was taken.
pub proof fn law_key_transition(t: Trail, window: usize, alt: u8, vk: u16, down: bool)
    requires
        emitter::transition_flow(t, window, alt, vk, down).value is Some,
    ensures
        ({
            let flow = emitter::transition_flow(t, window, alt, vk, down);
            let turn = flow.value->0;
            let at = t.calls.len() as int;
            let taken = t.upcoming(1).posted_value();
            &&& effects::extends(t, flow.trail)
            &&& flow.trail.calls.len() == t.calls.len() + 2
            &&& flow.trail.calls[at] == Request::Plain(Plain::MapVirtualKey { vk })
            &&& flow.trail.calls[at + 1] matches Request::Plain(
                Plain::Post { window: to, message, wparam, lparam },
            ) && {
                let bits = lparam as int % 0x1_0000_0000;
                &&& to == window
                &&& wparam == vk
                &&& message == WM_KEYDOWN + (if down {
                    0int
                } else {
                    1
                }) + (if with_alt(alt, vk) {
                    4int
                } else {
                    0
                })
                &&& -0x8000_0000 <= lparam < 0x8000_0000
                &&& bits % 0x1_0000 == 1
                &&& bits / 0x1_0000 % 0x100 == t.upcoming(0).word_value() % 0x100
                &&& bits / 0x100_0000 % 2 == if keys::extended(vk) {
                    1int
                } else {
                    0
                }
                &&& bits / 0x200_0000 % 0x10 == 0
                &&& bits / 0x2000_0000 % 2 == if with_alt(alt, vk) {
                    1int
                } else {
                    0
                }
                &&& bits / 0x4000_0000 == if down {
                    0int
                } else {
                    3
                }
            }
            &&& turn.result is Ok <==> taken is Ok
            &&& turn.alt == if taken is Err || vk != VK_MENU {
                alt as int
            } else if down && alt < u8::MAX {
                alt + 1
            } else if !down && alt > 0 {
                alt - 1
            } else {
                alt as int
            }
        }),
{
}

/// Whether these calls post a transition of each virtual key in order.
pub open spec fn posts_keys(calls: Seq<Request>, window: usize, vks: Seq<u16>, down: bool) -> bool {
    &&& calls.len() == vks.len()
    &&& forall|j: int|
        0 <= j < vks.len() ==> emitter::posts_code(#[trigger] calls[j], window, vks[j], down)
}

proof fn lemma_transitions(
    t: Trail,
    window: usize,
    alt: u8,
    vks: Seq<u16>,
    i: nat,
    down: bool,
    arrived: bool,
) -> (calls: Seq<Request>)
    requires
        i <= vks.len(),
        emitter::transitions_flow(t, window, alt, vks, i, down).value matches Some(turn)
            && turn.result is Ok,
    ensures
        ({
            let end = emitter::transitions_flow(t, window, alt, vks, i, down).trail;
            &&& effects::extends(t, end)
            &&& picked(end, mouse(arrived)) == picked(t, mouse(arrived))
            &&& picked(end, keyboard(arrived)) == picked(t, keyboard(arrived)) + calls
            &&& posts_keys(calls, window, vks.skip(i as int), down)
        }),
    decreases vks.len() - i,
{
    broadcast use picked_ask;

    let kind = keyboard(arrived);
    if i >= vks.len() {
        assert(picked(t, kind) + Seq::<Request>::empty() =~= picked(t, kind));
        Seq::empty()
    } else {
        let vk = vks[i as int];
        let first = emitter::transition_flow(t, window, alt, vk, down);
        law_key_transition(t, window, alt, vk, down);
        let u = first.trail;
        let call = u.calls[t.calls.len() as int + 1];
        assert(picked(u, kind) == picked(t, kind).push(call));
        let rest = lemma_transitions(u, window, (first.value->0).alt, vks, i + 1, down, arrived);
        let calls = seq![call] + rest;
        assert(picked(t, kind).push(call) + rest =~= picked(t, kind) + calls);
        lemma_extends(t, u, emitter::transitions_flow(t, window, alt, vks, i, down).trail);
        assert forall|j: int| 0 <= j < vks.skip(i as int).len() implies emitter::posts_code(
            #[trigger] calls[j],
            window,
            vks.skip(i as int)[j],
            down,
        ) by {
            if j > 0 {
                assert(vks.skip(i as int)[j] == vks.skip(i as int + 1)[j - 1]);
                assert(emitter::posts_code(rest[j - 1], window, vks.skip(i as int + 1)[j - 1], down));
            }
        }
        calls
    }
}

/// Whether a layout answer at index `k` of a trail gives these virtual keys for
/// a character: the modifiers it asks for, and then the key.
pub open spec fn answered_at(u: Trail, k: int, c: char, vks: Seq<u16>) -> bool {
    &&& 0 <= k < u.calls.len()
    &&& (c as int) < 0x10000
    &&& u.calls[k] == Request::Plain(Plain::VkKeyScan { unit: c as u16 })
    &&& u.replies[k].scan_value() != -1
    &&& vks == asked_modifiers(answered_state(u.replies[k].scan_value())) + seq![
        answered_key(u.replies[k].scan_value()),
    ]
}

/// Whether these are the virtual keys that press a key: its own, or what the
/// layout answered for the character.
pub open spec fn strikes(u: Trail, key: KeyName, vks: Seq<u16>) -> bool {
    match key {
        KeyName::Char(c) => exists|k: int| #[trigger] answered_at(u, k, c, vks),
        _ => vks == seq![keys::fixed_key(key)->0],
    }
}

proof fn lemma_strikes_kept(t: Trail, u: Trail, key: KeyName, vks: Seq<u16>)
    requires
        effects::extends(t, u),
        strikes(t, key, vks),
    ensures
        strikes(u, key, vks),
{
    if let KeyName::Char(c) = key {
        let k = choose|k: int| #[trigger] answered_at(t, k, c, vks);
        assert(u.calls[k] == t.calls[k]);
        assert(answered_at(u, k, c, vks));
    }
}

proof fn lemma_key(t: Trail, window: usize, alt: u8, key: KeyName, down: bool, arrived: bool) -> (made:
    (Seq<Request>, Seq<u16>))
    requires
        emitter::key_flow(t, window, alt, key, down).value matches Some(turn) && turn.result is Ok,
    ensures
        ({
            let end = emitter::key_flow(t, window, alt, key, down).trail;
            let (calls, vks) = made;
            &&& effects::extends(t, end)
            &&& picked(end, mouse(arrived)) == picked(t, mouse(arrived))
            &&& picked(end, keyboard(arrived)) == picked(t, keyboard(arrived)) + calls
            &&& strikes(end, key, vks)
            &&& posts_keys(
                calls,
                window,
                if down {
                    vks
                } else {
                    vks.reverse()
                },
                down,
            )
        }),
{
    broadcast use picked_ask;

    let found = emitter::virtual_key_flow(t, key);
    let code = (found.value->0)->Ok_0;
    let vks = asked_modifiers(code.1) + seq![code.0];
    lemma_asked_modifiers(code.1);
    let strokes = emitter::strokes(code.0, code.1, down);
    let calls = lemma_transitions(found.trail, window, alt, strokes, 0, down, arrived);
    assert(strokes.skip(0) =~= if down {
        vks
    } else {
        vks.reverse()
    });
    let end = emitter::key_flow(t, window, alt, key, down).trail;
    lemma_extends(t, found.trail, end);
    if let KeyName::Char(c) = key {
        lemma_scanned(t.upcoming(0).scan_value());
        assert(text::utf16(c)[0] == c as u16);
        assert(answered_at(found.trail, t.calls.len() as int, c, vks));
    } else {
        assert(vks =~= seq![keys::fixed_key(key)->0]);
    }
    lemma_strikes_kept(found.trail, end, key, vks);
    (calls, vks)
}

/// Virtual keys of several keys, one after the other.
pub open spec fn joined(codes: Seq<Seq<u16>>) -> Seq<u16>
    decreases codes.len(),
{
    if codes.len() == 0 {
        Seq::empty()
    } else {
        codes[0] + joined(codes.skip(1))
    }
}

proof fn lemma_posts_join(
    window: usize,
    first: Seq<Request>,
    rest: Seq<Request>,
    a: Seq<u16>,
    b: Seq<u16>,
    down: bool,
)
    requires
        posts_keys(first, window, a, down),
        posts_keys(rest, window, b, down),
    ensures
        posts_keys(first + rest, window, a + b, down),
{
}

proof fn lemma_pressed(t: Trail, window: usize, alt: u8, keys: Seq<KeyName>, i: nat, arrived: bool) -> (made:
    (Seq<Request>, Seq<Seq<u16>>))
    requires
        i <= keys.len(),
        emitter::press_held_flow(t, window, alt, keys, i).value matches Some(turn) && turn.result
            is Ok,
    ensures
        ({
            let end = emitter::press_held_flow(t, window, alt, keys, i).trail;
            let (calls, codes) = made;
            &&& effects::extends(t, end)
            &&& picked(end, mouse(arrived)) == picked(t, mouse(arrived))
            &&& picked(end, keyboard(arrived)) == picked(t, keyboard(arrived)) + calls
            &&& codes.len() == keys.len() - i
            &&& forall|j: int|
                0 <= j < codes.len() ==> strikes(end, keys[i + j], #[trigger] codes[j])
            &&& posts_keys(calls, window, joined(codes), true)
        }),
    decreases keys.len() - i,
{
    let kind = keyboard(arrived);
    if i >= keys.len() {
        assert(picked(t, kind) + Seq::<Request>::empty() =~= picked(t, kind));
        (Seq::empty(), Seq::empty())
    } else {
        let pressed = emitter::key_flow(t, window, alt, keys[i as int], true);
        let turn = pressed.value->0;
        if turn.result is Err {
            lemma_failure_stands(pressed.trail, window, turn.alt, keys, i, turn.result);
        }
        let (first, vks) = lemma_key(t, window, alt, keys[i as int], true, arrived);
        let u = pressed.trail;
        let (rest, more) = lemma_pressed(u, window, turn.alt, keys, i + 1, arrived);
        let end = emitter::press_held_flow(t, window, alt, keys, i).trail;
        let codes = seq![vks] + more;
        lemma_extends(t, u, end);
        lemma_strikes_kept(u, end, keys[i as int], vks);
        assert(codes.skip(1) =~= more);
        lemma_posts_join(window, first, rest, vks, joined(more), true);
        assert(picked(t, kind) + first + rest =~= picked(t, kind) + (first + rest));
        assert forall|j: int| 0 <= j < codes.len() implies strikes(
            end,
            keys[i + j],
            #[trigger] codes[j],
        ) by {
            if j > 0 {
                assert(codes[j] == more[j - 1]);
                assert(keys[i + j] == keys[(i + 1) + (j - 1)]);
            }
        }
        (first + rest, codes)
    }
}

proof fn lemma_failure_stands(
    t: Trail,
    window: usize,
    alt: u8,
    keys: Seq<KeyName>,
    n: nat,
    so_far: Outcome,
)
    requires
        so_far is Err,
    ensures
        emitter::release_held_flow(t, window, alt, keys, n, so_far).value matches Some(turn)
            ==> turn.result is Err,
    decreases n,
{
    if n > 0 {
        let released = emitter::key_flow(t, window, alt, keys[n - 1], false);
        lemma_failure_stands(
            released.trail,
            window,
            (released.value->0).alt,
            keys,
            (n - 1) as nat,
            so_far,
        );
    }
}

proof fn lemma_released(
    t: Trail,
    window: usize,
    alt: u8,
    keys: Seq<KeyName>,
    n: nat,
    so_far: Outcome,
    arrived: bool,
) -> (made: (Seq<Request>, Seq<Seq<u16>>))
    requires
        n <= keys.len(),
        emitter::release_held_flow(t, window, alt, keys, n, so_far).value matches Some(turn)
            && turn.result is Ok,
    ensures
        so_far is Ok,
        ({
            let end = emitter::release_held_flow(t, window, alt, keys, n, so_far).trail;
            let (calls, codes) = made;
            &&& effects::extends(t, end)
            &&& picked(end, mouse(arrived)) == picked(t, mouse(arrived))
            &&& picked(end, keyboard(arrived)) == picked(t, keyboard(arrived)) + calls
            &&& codes.len() == n
            &&& forall|j: int|
                0 <= j < codes.len() ==> strikes(
                    end,
                    keys[n - 1 - j],
                    (#[trigger] codes[j]).reverse(),
                )
            &&& posts_keys(calls, window, joined(codes), false)
        }),
    decreases n,
{
    let kind = keyboard(arrived);
    if so_far is Err {
        lemma_failure_stands(t, window, alt, keys, n, so_far);
    }
    if n == 0 {
        assert(picked(t, kind) + Seq::<Request>::empty() =~= picked(t, kind));
        (Seq::empty(), Seq::empty())
    } else {
        let released = emitter::key_flow(t, window, alt, keys[n - 1], false);
        let turn = released.value->0;
        let failure = global::first_failure(so_far, turn.result);
        if failure is Err {
            lemma_failure_stands(
                released.trail,
                window,
                turn.alt,
                keys,
                (n - 1) as nat,
                failure,
            );
        }
        let (first, vks) = lemma_key(t, window, alt, keys[n - 1], false, arrived);
        let u = released.trail;
        let (rest, more) = lemma_released(
            u,
            window,
            turn.alt,
            keys,
            (n - 1) as nat,
            failure,
            arrived,
        );
        let end = emitter::release_held_flow(t, window, alt, keys, n, so_far).trail;
        let codes = seq![vks.reverse()] + more;
        lemma_extends(t, u, end);
        lemma_strikes_kept(u, end, keys[n - 1], vks);
        assert(codes.skip(1) =~= more);
        assert(vks.reverse().reverse() =~= vks);
        lemma_posts_join(window, first, rest, vks.reverse(), joined(more), false);
        assert(picked(t, kind) + first + rest =~= picked(t, kind) + (first + rest));
        assert forall|j: int| 0 <= j < codes.len() implies strikes(
            end,
            keys[n - 1 - j],
            (#[trigger] codes[j]).reverse(),
        ) by {
            if j > 0 {
                assert(codes[j] == more[j - 1]);
                assert(keys[n - 1 - j] == keys[(n - 1) - 1 - (j - 1)]);
            }
        }
        (first + rest, codes)
    }
}

proof fn lemma_joined_singles(codes: Seq<Seq<u16>>, vks: Seq<u16>)
    requires
        codes.len() == vks.len(),
        forall|j: int| 0 <= j < codes.len() ==> #[trigger] codes[j] == seq![vks[j]],
    ensures
        joined(codes) == vks,
    decreases codes.len(),
{
    if codes.len() > 0 {
        let rest = codes.skip(1);
        assert forall|j: int| 0 <= j < rest.len() implies #[trigger] rest[j] == seq![
            vks.skip(1)[j],
        ] by {
            assert(rest[j] == codes[j + 1]);
        }
        lemma_joined_singles(rest, vks.skip(1));
        assert(codes[0] == seq![vks[0]]);
        assert(seq![vks[0]] + vks.skip(1) =~= vks);
    } else {
        assert(joined(codes) =~= vks);
    }
}

proof fn lemma_held_key(modifiers: Modifiers, j: int)
    requires
        0 <= j < keys::held_keys(modifiers).len(),
    ensures
        held_codes(modifiers).len() == keys::held_keys(modifiers).len(),
        held_codes(modifiers)[j] == keys::fixed_key(keys::held_keys(modifiers)[j])->0,
        !(keys::held_keys(modifiers)[j] is Char),
{
}

proof fn lemma_held_len(modifiers: Modifiers)
    ensures
        held_codes(modifiers).len() == keys::held_keys(modifiers).len(),
{
}

/// Calls that keep a window from taking the foreground.
pub open spec fn contains_root(call: Request, root: usize) -> bool {
    effects::is_query(call) || effects::shields(call, root) || effects::is_activation(call)
}

proof fn lemma_contained(
    t: Trail,
    root: usize,
    target: usize,
    modifiers: Modifiers,
    posting: Posting<Seq<Spot>>,
    arrived: bool,
) -> (held: (Trail, Seq<Request>, Seq<Request>))
    requires
        background::contained_flow(t, root, target, modifiers, posting).value == Some(
            Ok::<(), Fault>(()),
        ),
    ensures
        ({
            let (u, downs, ups) = held;
            let done = background::posting_flow(u, posting);
            let end = background::contained_flow(t, root, target, modifiers, posting).trail;
            &&& effects::extends(t, u)
            &&& picked(u, mouse(arrived)) == picked(t, mouse(arrived))
            &&& picked(u, keyboard(arrived)) == picked(t, keyboard(arrived)) + downs
            &&& posts_keys(downs, target, held_codes(modifiers), true)
            &&& done.value == Some(Ok::<(), Fault>(()))
            &&& effects::extends(done.trail, end)
            &&& picked(end, mouse(arrived)) == picked(done.trail, mouse(arrived))
            &&& picked(end, keyboard(arrived)) == picked(done.trail, keyboard(arrived)) + ups
            &&& posts_keys(ups, target, held_codes(modifiers).reverse(), false)
        }),
{
    broadcast use {effects::group_within, effects::contain_within, effects::release_within};

    let permitted = |c: Request| contains_root(c, root);
    let armed = activation::contain_flow(t, root, false);
    let guard = armed.value->0;
    assert(effects::permits_queries(permitted));
    assert(effects::permits_shield(permitted, root));
    assert(effects::within(t, armed.trail, permitted));
    lemma_none_picked(t, armed.trail, permitted, mouse(arrived));
    lemma_none_picked(t, armed.trail, permitted, keyboard(arrived));
    let held = keys::held_keys(modifiers);
    let vks = held_codes(modifiers);
    let pressed = emitter::press_held_flow(armed.trail, target, 0, held, 0);
    let alt = (pressed.value->0).alt;
    let (downs, codes) = lemma_pressed(armed.trail, target, 0, held, 0, arrived);
    lemma_held_len(modifiers);
    assert forall|j: int| 0 <= j < codes.len() implies #[trigger] codes[j] == seq![vks[j]] by {
        lemma_held_key(modifiers, j);
        assert(strikes(pressed.trail, held[0 + j], codes[j]));
    }
    lemma_joined_singles(codes, vks);
    let u = pressed.trail;
    let done = background::posting_flow(u, posting);
    let freed = emitter::release_held_flow(
        done.trail,
        target,
        alt,
        held,
        held.len(),
        done.value->0,
    );
    let (ups, back) = lemma_released(
        done.trail,
        target,
        alt,
        held,
        held.len(),
        done.value->0,
        arrived,
    );
    lemma_success(done.value->0);
    assert forall|j: int| 0 <= j < back.len() implies #[trigger] back[j] == seq![
        vks.reverse()[j],
    ] by {
        let key = held.len() - 1 - j;
        lemma_held_key(modifiers, key);
        assert(strikes(freed.trail, held[key], back[j].reverse()));
        assert(back[j].reverse() == seq![vks[key]]);
        assert(back[j].len() == back[j].reverse().len());
        assert(back[j][0] == back[j].reverse()[0]);
        assert(back[j] =~= seq![vks[key]]);
    }
    lemma_joined_singles(back, vks.reverse());
    let end = background::contained_flow(t, root, target, modifiers, posting).trail;
    if let Some(containment) = guard {
        assert(containment.root == root);
        assert(effects::permits_focus(permitted, containment.previous));
    }
    assert(effects::within(freed.trail, end, permitted));
    lemma_none_picked(freed.trail, end, permitted, mouse(arrived));
    lemma_none_picked(freed.trail, end, permitted, keyboard(arrived));
    assert(effects::extends(t, armed.trail) && effects::extends(freed.trail, end)) by {
        reveal(effects::within);
    }
    lemma_extends(t, armed.trail, u);
    lemma_extends(done.trail, freed.trail, end);
    (u, downs, ups)
}

/// Whether a trail locates a spot at index `i` and finds the deepest window of
/// `root` under it, `target`, where the spot lies at `client`.
pub open spec fn found_under(
    u: Trail,
    i: int,
    at: Spot,
    d: int,
    root: usize,
    target: usize,
    client: Point,
    n: int,
) -> bool {
    &&& 0 <= i < d
    &&& u.calls[i] == Request::Plain(Plain::Locate { at })
    &&& u.replies[i].located_value() is Ok
    &&& whole_descent(u, d, root, u.replies[i].located_value()->Ok_0, n)
    &&& target == level_window(u, d, root, n)
    &&& client == level_point(u, d, n)
}

/// Where a gesture was aimed: the window, the point in its client coordinates,
/// and the places in the trail that show it.
pub struct Aim {
    pub target: usize,
    pub client: Point,
    /// Index at which the spot was located.
    pub located: int,
    /// Index at which the descent begins.
    pub began: int,
    /// Levels of the descent.
    pub levels: int,
}

/// Whether an aim is at the deepest window of `root` under a spot.
pub open spec fn aims(u: Trail, aim: Aim, root: usize, at: Spot) -> bool {
    found_under(u, aim.located, at, aim.began, root, aim.target, aim.client, aim.levels)
}

proof fn lemma_aim_is_kept(t: Trail, u: Trail, aim: Aim, root: usize, at: Spot)
    requires
        effects::extends(t, u),
        aims(t, aim, root, at),
    ensures
        aims(u, aim, root, at),
{
    reveal(whole_descent);
    let screen = t.replies[aim.located].located_value()->Ok_0;
    assert(u.calls[aim.located] == t.calls[aim.located]);
    lemma_descent_is_kept(t, u, aim.began, root, screen, aim.levels);
}

proof fn lemma_child_under(
    t: Trail,
    located: int,
    root: usize,
    at: Spot,
    arrived: bool,
) -> (aim: Aim)
    requires
        0 <= located < t.calls.len(),
        t.calls[located] == Request::Plain(Plain::Locate { at }),
        t.replies[located].located_value() is Ok,
        background::child_under_flow(
            t,
            root,
            t.replies[located].located_value()->Ok_0,
        ).value matches Some(Ok(_)),
    ensures
        ({
            let flow = background::child_under_flow(
                t,
                root,
                t.replies[located].located_value()->Ok_0,
            );
            let found = (flow.value->0)->Ok_0;
            &&& effects::extends(t, flow.trail)
            &&& picked(flow.trail, mouse(arrived)) == picked(t, mouse(arrived))
            &&& picked(flow.trail, keyboard(arrived)) == picked(t, keyboard(arrived))
            &&& aims(flow.trail, aim, root, at)
            &&& aim.target == found.0
            &&& aim.client == found.1
            &&& aim.located == located
        }),
{
    broadcast use {effects::group_within, effects::descend_within};

    let screen = t.replies[located].located_value()->Ok_0;
    let flow = background::child_under_flow(t, root, screen);
    let found = (flow.value->0)->Ok_0;
    let n = law_deepest_child_is_reached(t, root, screen);
    let queries = |c: Request| effects::is_query(c);
    assert(effects::permits_queries(queries));
    assert(effects::within(t, flow.trail, queries));
    lemma_none_picked(t, flow.trail, queries, mouse(arrived));
    lemma_none_picked(t, flow.trail, queries, keyboard(arrived));
    assert(flow.trail.calls[located] == t.calls[located]);
    Aim {
        target: found.0,
        client: found.1,
        located,
        began: t.calls.len() as int,
        levels: n as int,
    }
}

/// A posted click that succeeded held the modifiers of the gesture in the
/// deepest window under its spot, and in between clicked there as often as
/// asked: a move, a press and a release of the button that the gesture names,
/// each at the spot in that window's client coordinates.
pub proof fn law_posted_click(
    t: Trail,
    id: Seq<char>,
    root: usize,
    at: Spot,
    button: MouseButton,
    count: u32,
    modifiers: Modifiers,
    arrived: bool,
) -> (made: (Aim, isize, Seq<bool>, Seq<Request>, Seq<Request>))
    requires
        background::posted_gesture_flow(
            t,
            id,
            root,
            Gesture::Click { at, button, count, modifiers },
        ).value == Some(Ok::<(), Fault>(())),
    ensures
        ({
            let end = background::posted_gesture_flow(
                t,
                id,
                root,
                Gesture::Click { at, button, count, modifiers },
            ).trail;
            let (aim, point, doubles, downs, ups) = made;
            &&& effects::extends(t, end)
            &&& aims(end, aim, root, at)
            &&& carries(point, aim.client)
            &&& doubles.len() == count
            &&& forall|j: int|
                0 <= j < count ==> {
                    ||| double_answered(end, j, true, #[trigger] doubles[j]) && style_answered(
                        end,
                        aim.target,
                        true,
                    )
                    ||| double_answered(end, j, false, doubles[j]) && style_answered(
                        end,
                        aim.target,
                        false,
                    )
                }
            &&& picked(end, mouse(arrived)) == picked(t, mouse(arrived)) + click_posts(
                aim.target,
                point,
                button,
                modifiers,
                doubles,
            )
            &&& picked(end, keyboard(arrived)) == picked(t, keyboard(arrived)) + downs + ups
            &&& posts_keys(downs, aim.target, held_codes(modifiers), true)
            &&& posts_keys(ups, aim.target, held_codes(modifiers).reverse(), false)
        }),
{
    broadcast use picked_ask;

    let located = background::screen_point_flow(t, at);
    let point = (located.value->0)->Ok_0;
    let under = background::child_under_flow(located.trail, root, point);
    let aim = lemma_child_under(located.trail, t.calls.len() as int, root, at, arrived);
    let lparam = message::packed(aim.client.x, aim.client.y)->Ok_0;
    lemma_packed(aim.client);
    let styled = under.trail.plain(Plain::ClassStyle { window: aim.target });
    let wants_double = (styled.value->0).word_value() & CS_DBLCLKS != 0;
    let posting = Posting::Clicks {
        target: aim.target,
        point: lparam,
        button,
        count,
        flags: message::modifier_flags(modifiers),
        wants_double,
    };
    let (u, downs, ups) = lemma_contained(
        styled.trail,
        root,
        aim.target,
        modifiers,
        posting,
        arrived,
    );
    let done = background::posting_flow(u, posting).trail;
    let doubles = lemma_posted_clicks(
        u,
        aim.target,
        lparam,
        button,
        count,
        modifiers,
        wants_double,
        0,
        arrived,
    );
    let end = background::posted_gesture_flow(
        t,
        id,
        root,
        Gesture::Click { at, button, count, modifiers },
    ).trail;
    assert(end == background::contained_flow(
        styled.trail,
        root,
        aim.target,
        modifiers,
        posting,
    ).trail);
    lemma_extends(u, done, end);
    lemma_extends(styled.trail, u, end);
    lemma_extends(under.trail, styled.trail, end);
    lemma_extends(located.trail, under.trail, end);
    lemma_extends(t, located.trail, end);
    lemma_aim_is_kept(under.trail, end, aim, root, at);
    let k = under.trail.calls.len() as int;
    assert(end.calls[k] == styled.trail.calls[k]);
    assert(style_answered(end, aim.target, wants_double));
    assert forall|j: int| 0 <= j < count implies {
        ||| double_answered(end, j, true, #[trigger] doubles[j]) && style_answered(
            end,
            aim.target,
            true,
        )
        ||| double_answered(end, j, false, doubles[j]) && style_answered(end, aim.target, false)
    } by {
        assert(double_answered(done, 0 + j, wants_double, doubles[j]));
        lemma_double_is_kept(done, end, j, wants_double, doubles[j]);
    }
    (aim, lparam, doubles, downs, ups)
}

/// Whether the class style of a window tells that it wants double clicks.
pub open spec fn style_answered(u: Trail, target: usize, wants_double: bool) -> bool {
    exists|k: int|
        0 <= k < u.calls.len() && #[trigger] u.calls[k] == Request::Plain(
            Plain::ClassStyle { window: target },
        ) && (u.replies[k].word_value() & CS_DBLCLKS != 0) == wants_double
}

/// A posted move that succeeded posted one message: to the deepest window under
/// its spot, with the spot in that window's client coordinates.
pub proof fn law_posted_move(t: Trail, id: Seq<char>, root: usize, at: Spot, arrived: bool) -> (made: (
    Aim,
    isize,
))
    requires
        background::posted_gesture_flow(t, id, root, Gesture::Move { at }).value == Some(
            Ok::<(), Fault>(()),
        ),
    ensures
        ({
            let end = background::posted_gesture_flow(t, id, root, Gesture::Move { at }).trail;
            let (aim, point) = made;
            &&& effects::extends(t, end)
            &&& aims(end, aim, root, at)
            &&& carries(point, aim.client)
            &&& picked(end, mouse(arrived)) == picked(t, mouse(arrived)).push(
                posted(aim.target, WM_MOUSEMOVE, 0, point),
            )
            &&& picked(end, keyboard(arrived)) == picked(t, keyboard(arrived))
        }),
{
    broadcast use picked_ask;

    let located = background::screen_point_flow(t, at);
    let point = (located.value->0)->Ok_0;
    let under = background::child_under_flow(located.trail, root, point);
    let aim = lemma_child_under(located.trail, t.calls.len() as int, root, at, arrived);
    let lparam = message::packed(aim.client.x, aim.client.y)->Ok_0;
    lemma_packed(aim.client);
    let end = background::posted_gesture_flow(t, id, root, Gesture::Move { at }).trail;
    lemma_extends(located.trail, under.trail, end);
    lemma_extends(t, located.trail, end);
    lemma_aim_is_kept(under.trail, end, aim, root, at);
    (aim, lparam)
}

proof fn lemma_posted_drag(
    t: Trail,
    target: usize,
    start: isize,
    path: Seq<Spot>,
    button: MouseButton,
    modifiers: Modifiers,
    arrived: bool,
) -> (rest: Seq<isize>)
    requires
        path.len() > 0,
        background::posting_flow(
            t,
            Posting::Drag {
                target,
                start,
                path,
                button,
                flags: message::modifier_flags(modifiers),
            },
        ).value == Some(Ok::<(), Fault>(())),
    ensures
        ({
            let end = background::posting_flow(
                t,
                Posting::Drag {
                    target,
                    start,
                    path,
                    button,
                    flags: message::modifier_flags(modifiers),
                },
            ).trail;
            let bits = modifier_bits(modifiers);
            let held = (bits + button_bit(button)) as usize;
            let all = seq![start] + rest;
            &&& effects::extends(t, end)
            &&& rest.len() == path.len() - 1
            &&& forall|j: int|
                0 <= j < rest.len() ==> mapped(end, target, path[1 + j], #[trigger] rest[j])
            &&& picked(end, keyboard(arrived)) == picked(t, keyboard(arrived))
            &&& picked(end, mouse(arrived)) == picked(t, mouse(arrived)) + seq![
                posted(target, WM_MOUSEMOVE, bits as usize, start),
                posted(target, button_numbers(button).0, held, start),
            ] + drag_posts(target, held, rest) + seq![
                posted(target, button_numbers(button).1, bits as usize, all.last()),
            ]
        }),
{
    broadcast use picked_ask;

    let flags = message::modifier_flags(modifiers);
    lemma_bits(modifiers, button);
    let (down, up, _, bit) = message::button_messages(button);
    let held = flags | bit;
    let moved = emitter::post_flow(t, target, WM_MOUSEMOVE, flags, start).trail;
    let pressed = emitter::post_flow(moved, target, down, held, start).trail;
    let slept = pressed.plain(Plain::Sleep { millis: background::CLICK_HOLD }).trail;
    let dragged = background::drag_moves_flow(slept, target, path, 1, held, start);
    let rest = lemma_drag_moves(slept, target, path, 1, held, start, arrived);
    let last = (dragged.value->0)->Ok_0;
    let all = seq![start] + rest;
    if rest.len() > 0 {
        assert(all.last() == rest.last());
    }
    assert(last == all.last());
    let end = background::posting_flow(
        t,
        Posting::Drag { target, start, path, button, flags },
    ).trail;
    let kind = mouse(arrived);
    assert(picked(slept, kind) =~= picked(t, kind) + seq![
        posted(target, WM_MOUSEMOVE, flags, start),
        posted(target, down, held, start),
    ]);
    assert(end == emitter::post_flow(dragged.trail, target, up, flags, last).trail);
    assert(picked(end, kind) =~= picked(dragged.trail, kind) + seq![
        posted(target, up, flags, last),
    ]);
    lemma_extends(slept, dragged.trail, end);
    lemma_extends(t, slept, end);
    assert forall|j: int| 0 <= j < rest.len() implies mapped(
        end,
        target,
        path[1 + j],
        #[trigger] rest[j],
    ) by {
        lemma_mapped_is_kept(dragged.trail, end, target, path[1 + j], rest[j]);
    }
    rest
}

proof fn lemma_drag_is_aimed(
    t: Trail,
    id: Seq<char>,
    root: usize,
    path: Seq<Spot>,
    button: MouseButton,
    modifiers: Modifiers,
    arrived: bool,
) -> (made: (Trail, Aim, isize))
    requires
        background::posted_drag_flow(t, id, root, path, button, modifiers).value == Some(
            Ok::<(), Fault>(()),
        ),
    ensures
        path.len() > 0,
        ({
            let (v, aim, start) = made;
            &&& effects::extends(t, v)
            &&& picked(v, mouse(arrived)) == picked(t, mouse(arrived))
            &&& picked(v, keyboard(arrived)) == picked(t, keyboard(arrived))
            &&& aims(v, aim, root, path[0])
            &&& carries(start, aim.client)
            &&& background::posted_drag_flow(t, id, root, path, button, modifiers)
                == background::contained_flow(
                v,
                root,
                aim.target,
                modifiers,
                Posting::Drag {
                    target: aim.target,
                    start,
                    path,
                    button,
                    flags: message::modifier_flags(modifiers),
                },
            )
        }),
{
    broadcast use {picked_ask, effects::group_within};

    let located = background::screen_point_flow(t, path[0]);
    let point = (located.value->0)->Ok_0;
    let tested = background::drag_region_flow(located.trail, root, point);
    let queries = |c: Request| effects::is_query(c);
    assert(effects::permits_queries(queries));
    assert(effects::within(located.trail, tested.trail, queries));
    lemma_none_picked(located.trail, tested.trail, queries, mouse(arrived));
    lemma_none_picked(located.trail, tested.trail, queries, keyboard(arrived));
    assert(effects::extends(located.trail, tested.trail)) by {
        reveal(effects::within);
    }
    let l = t.calls.len() as int;
    assert(tested.trail.calls[l] == located.trail.calls[l]);
    let under = background::child_under_flow(tested.trail, root, point);
    let aim = lemma_child_under(tested.trail, l, root, path[0], arrived);
    let start = message::packed(aim.client.x, aim.client.y)->Ok_0;
    lemma_packed(aim.client);
    lemma_extends(located.trail, tested.trail, under.trail);
    lemma_extends(t, located.trail, under.trail);
    (under.trail, aim, start)
}

#[verifier::spinoff_prover]
#[verifier::rlimit(40)]
proof fn lemma_contained_drag(
    v: Trail,
    root: usize,
    target: usize,
    start: isize,
    path: Seq<Spot>,
    button: MouseButton,
    modifiers: Modifiers,
    arrived: bool,
) -> (made: (Seq<isize>, Seq<Request>, Seq<Request>))
    requires
        path.len() > 0,
        background::contained_flow(
            v,
            root,
            target,
            modifiers,
            Posting::Drag {
                target,
                start,
                path,
                button,
                flags: message::modifier_flags(modifiers),
            },
        ).value == Some(Ok::<(), Fault>(())),
    ensures
        ({
            let end = background::contained_flow(
                v,
                root,
                target,
                modifiers,
                Posting::Drag {
                    target,
                    start,
                    path,
                    button,
                    flags: message::modifier_flags(modifiers),
                },
            ).trail;
            let (rest, downs, ups) = made;
            let bits = modifier_bits(modifiers);
            let held = (bits + button_bit(button)) as usize;
            &&& effects::extends(v, end)
            &&& rest.len() == path.len() - 1
            &&& forall|j: int|
                0 <= j < rest.len() ==> mapped(end, target, path[1 + j], #[trigger] rest[j])
            &&& picked(end, mouse(arrived)) == picked(v, mouse(arrived)) + seq![
                posted(target, WM_MOUSEMOVE, bits as usize, start),
                posted(target, button_numbers(button).0, held, start),
            ] + drag_posts(target, held, rest) + seq![
                posted(
                    target,
                    button_numbers(button).1,
                    bits as usize,
                    (seq![start] + rest).last(),
                ),
            ]
            &&& picked(end, keyboard(arrived)) == picked(v, keyboard(arrived)) + downs + ups
            &&& posts_keys(downs, target, held_codes(modifiers), true)
            &&& posts_keys(ups, target, held_codes(modifiers).reverse(), false)
        }),
{
    let flags = message::modifier_flags(modifiers);
    let posting = Posting::Drag { target, start, path, button, flags };
    let (u, downs, ups) = lemma_contained(v, root, target, modifiers, posting, arrived);
    let done = background::posting_flow(u, posting).trail;
    let rest = lemma_posted_drag(u, target, start, path, button, modifiers, arrived);
    let end = background::contained_flow(v, root, target, modifiers, posting).trail;
    lemma_extends(u, done, end);
    lemma_extends(v, u, end);
    assert forall|j: int| 0 <= j < rest.len() implies mapped(
        end,
        target,
        path[1 + j],
        #[trigger] rest[j],
    ) by {
        lemma_mapped_is_kept(done, end, target, path[1 + j], rest[j]);
    }
    (rest, downs, ups)
}

proof fn lemma_drag_gesture(
    t: Trail,
    id: Seq<char>,
    root: usize,
    path: Seq<Spot>,
    button: MouseButton,
    modifiers: Modifiers,
)
    ensures
        background::posted_gesture_flow(t, id, root, Gesture::Drag { path, button, modifiers })
            == background::posted_drag_flow(t, id, root, path, button, modifiers),
{
}

/// Whether a run from `t` to `end` posted this drag to the window it was aimed at,
/// which maps every point of the path to its location.
pub open spec fn dragged(
    t: Trail,
    end: Trail,
    root: usize,
    path: Seq<Spot>,
    button: MouseButton,
    modifiers: Modifiers,
    arrived: bool,
    aim: Aim,
    locations: Seq<isize>,
    downs: Seq<Request>,
    ups: Seq<Request>,
) -> bool {
    let target = aim.target;
    let bits = modifier_bits(modifiers);
    let held = (bits + button_bit(button)) as usize;
    &&& path.len() > 0
    &&& effects::extends(t, end)
    &&& aims(end, aim, root, path[0])
    &&& locations.len() == path.len()
    &&& carries(locations[0], aim.client)
    &&& forall|j: int|
        1 <= j < path.len() ==> mapped(end, target, path[j], #[trigger] locations[j])
    &&& picked(end, mouse(arrived)) == picked(t, mouse(arrived)) + seq![
        posted(target, WM_MOUSEMOVE, bits as usize, locations[0]),
        posted(target, button_numbers(button).0, held, locations[0]),
    ] + drag_posts(target, held, locations.skip(1)) + seq![
        posted(target, button_numbers(button).1, bits as usize, locations.last()),
    ]
    &&& picked(end, keyboard(arrived)) == picked(t, keyboard(arrived)) + downs + ups
    &&& posts_keys(downs, target, held_codes(modifiers), true)
    &&& posts_keys(ups, target, held_codes(modifiers).reverse(), false)
}

proof fn lemma_drag_ends(
    t: Trail,
    v: Trail,
    root: usize,
    path: Seq<Spot>,
    button: MouseButton,
    modifiers: Modifiers,
    arrived: bool,
    aim: Aim,
    start: isize,
) -> (made: (Seq<isize>, Seq<Request>, Seq<Request>))
    requires
        path.len() > 0,
        effects::extends(t, v),
        picked(v, mouse(arrived)) == picked(t, mouse(arrived)),
        picked(v, keyboard(arrived)) == picked(t, keyboard(arrived)),
        aims(v, aim, root, path[0]),
        carries(start, aim.client),
        background::contained_flow(
            v,
            root,
            aim.target,
            modifiers,
            Posting::Drag {
                target: aim.target,
                start,
                path,
                button,
                flags: message::modifier_flags(modifiers),
            },
        ).value == Some(Ok::<(), Fault>(())),
    ensures
        dragged(
            t,
            background::contained_flow(
                v,
                root,
                aim.target,
                modifiers,
                Posting::Drag {
                    target: aim.target,
                    start,
                    path,
                    button,
                    flags: message::modifier_flags(modifiers),
                },
            ).trail,
            root,
            path,
            button,
            modifiers,
            arrived,
            aim,
            made.0,
            made.1,
            made.2,
        ),
{
    let (rest, downs, ups) = lemma_contained_drag(
        v,
        root,
        aim.target,
        start,
        path,
        button,
        modifiers,
        arrived,
    );
    let end = background::contained_flow(
        v,
        root,
        aim.target,
        modifiers,
        Posting::Drag {
            target: aim.target,
            start,
            path,
            button,
            flags: message::modifier_flags(modifiers),
        },
    ).trail;
    lemma_extends(t, v, end);
    lemma_aim_is_kept(v, end, aim, root, path[0]);
    let locations = seq![start] + rest;
    assert(locations.skip(1) =~= rest);
    assert forall|j: int| 1 <= j < path.len() implies mapped(
        end,
        aim.target,
        path[j],
        #[trigger] locations[j],
    ) by {
        assert(locations[j] == rest[j - 1]);
        assert(path[1 + (j - 1)] == path[j]);
    }
    (locations, downs, ups)
}

/// A posted drag that succeeded held the modifiers of the gesture in the deepest
/// window under the first point of its path. In between it moved to that point
/// and pressed the button that the gesture names, moved once for every further
/// point with the button down, and released it at the last. Every message goes
/// to that one window, which maps every point.
pub proof fn law_posted_drag(
    t: Trail,
    id: Seq<char>,
    root: usize,
    path: Seq<Spot>,
    button: MouseButton,
    modifiers: Modifiers,
    arrived: bool,
) -> (made: (Aim, Seq<isize>, Seq<Request>, Seq<Request>))
    requires
        background::posted_gesture_flow(
            t,
            id,
            root,
            Gesture::Drag { path, button, modifiers },
        ).value == Some(Ok::<(), Fault>(())),
    ensures
        dragged(
            t,
            background::posted_gesture_flow(
                t,
                id,
                root,
                Gesture::Drag { path, button, modifiers },
            ).trail,
            root,
            path,
            button,
            modifiers,
            arrived,
            made.0,
            made.1,
            made.2,
            made.3,
        ),
{
    lemma_drag_gesture(t, id, root, path, button, modifiers);
    let (v, aim, start) = lemma_drag_is_aimed(t, id, root, path, button, modifiers, arrived);
    let (locations, downs, ups) = lemma_drag_ends(
        t,
        v,
        root,
        path,
        button,
        modifiers,
        arrived,
        aim,
        start,
    );
    (aim, locations, downs, ups)
}

/// The call that posts wheel travel, where there is any: the high word of the
/// first parameter is the travel in two's complement and its low word is zero,
/// and the second carries the screen point.
pub open spec fn turns(
    calls: Seq<Request>,
    target: usize,
    message: u32,
    travel: int,
    screen: Point,
) -> bool {
    if travel == 0 {
        calls.len() == 0
    } else {
        &&& calls.len() == 1
        &&& -0x8000 <= travel < 0x8000
        &&& calls[0] matches Request::Plain(
            Plain::Post { window, message: number, wparam, lparam },
        ) && window == target && number == message && carries(lparam, screen) && wparam as int
            % 0x10000 == 0 && wparam as int / 0x10000 == travel % 0x10000
    }
}

proof fn lemma_turned(
    t: Trail,
    target: usize,
    number: u32,
    steps: i32,
    notch: int,
    location: isize,
    screen: Point,
    arrived: bool,
) -> (calls: Seq<Request>)
    requires
        number >= WM_MOUSEMOVE,
        notch == 120 || notch == -120,
        carries(location, screen),
        background::wheel_flow(
            t,
            target,
            number,
            message::wheel_travel(steps as int, notch),
            location,
        ).value == Some(Ok::<(), Fault>(())),
    ensures
        ({
            let end = background::wheel_flow(
                t,
                target,
                number,
                message::wheel_travel(steps as int, notch),
                location,
            ).trail;
            &&& effects::extends(t, end)
            &&& picked(end, mouse(arrived)) == picked(t, mouse(arrived)) + calls
            &&& picked(end, keyboard(arrived)) == picked(t, keyboard(arrived))
            &&& turns(calls, target, number, steps * notch, screen)
        }),
{
    broadcast use picked_ask;

    let travel = message::wheel_travel(steps as int, notch);
    assert(travel == 0 <==> steps * notch == 0);
    if travel == 0 {
        assert(picked(t, mouse(arrived)) + Seq::<Request>::empty() =~= picked(t, mouse(arrived)));
        Seq::empty()
    } else {
        let wparam = message::wheel_bits(travel as i32)->Ok_0;
        let call = posted(target, number, wparam, location);
        assert(picked(t, mouse(arrived)).push(call) =~= picked(t, mouse(arrived)) + seq![call]);
        seq![call]
    }
}

proof fn lemma_scroll_is_aimed(
    t: Trail,
    root: usize,
    at: Spot,
    horizontal: i32,
    vertical: i32,
    arrived: bool,
) -> (made: (Trail, Aim, isize))
    requires
        background::posted_scroll_flow(t, root, at, horizontal, vertical).value == Some(
            Ok::<(), Fault>(()),
        ),
    ensures
        ({
            let (v, aim, location) = made;
            let turned = background::wheel_flow(
                v,
                aim.target,
                WM_MOUSEHWHEEL,
                message::wheel_travel(horizontal as int, 120),
                location,
            );
            &&& effects::extends(t, v)
            &&& picked(v, mouse(arrived)) == picked(t, mouse(arrived))
            &&& picked(v, keyboard(arrived)) == picked(t, keyboard(arrived))
            &&& aims(v, aim, root, at)
            &&& carries(location, v.replies[aim.located].located_value()->Ok_0)
            &&& turned.value == Some(Ok::<(), Fault>(()))
            &&& background::posted_scroll_flow(t, root, at, horizontal, vertical)
                == background::wheel_flow(
                turned.trail,
                aim.target,
                WM_MOUSEWHEEL,
                message::wheel_travel(vertical as int, -120),
                location,
            )
        }),
{
    broadcast use picked_ask;

    let located = background::screen_point_flow(t, at);
    let point = (located.value->0)->Ok_0;
    let under = background::child_under_flow(located.trail, root, point);
    let aim = lemma_child_under(located.trail, t.calls.len() as int, root, at, arrived);
    let location = message::packed(point.x, point.y)->Ok_0;
    lemma_packed(point);
    lemma_extends(t, located.trail, under.trail);
    (under.trail, aim, location)
}

/// A posted scroll that succeeded turned each wheel that has any notches, in the
/// deepest window under its spot: 120 a notch, to the right and, for the
/// vertical wheel, down as negative travel. Wheel messages carry the screen
/// point.
pub proof fn law_posted_scroll(
    t: Trail,
    id: Seq<char>,
    root: usize,
    at: Spot,
    horizontal: i32,
    vertical: i32,
    arrived: bool,
) -> (made: (Aim, Seq<Request>, Seq<Request>))
    requires
        background::posted_gesture_flow(
            t,
            id,
            root,
            Gesture::Scroll { at, horizontal, vertical },
        ).value == Some(Ok::<(), Fault>(())),
    ensures
        ({
            let end = background::posted_gesture_flow(
                t,
                id,
                root,
                Gesture::Scroll { at, horizontal, vertical },
            ).trail;
            let (aim, across, along) = made;
            let screen = end.replies[aim.located].located_value()->Ok_0;
            &&& effects::extends(t, end)
            &&& aims(end, aim, root, at)
            &&& turns(across, aim.target, WM_MOUSEHWHEEL, horizontal * 120, screen)
            &&& turns(along, aim.target, WM_MOUSEWHEEL, vertical * -120, screen)
            &&& picked(end, mouse(arrived)) == picked(t, mouse(arrived)) + across + along
            &&& picked(end, keyboard(arrived)) == picked(t, keyboard(arrived))
        }),
{
    let (v, aim, location) = lemma_scroll_is_aimed(t, root, at, horizontal, vertical, arrived);
    let point = v.replies[aim.located].located_value()->Ok_0;
    let turned = background::wheel_flow(
        v,
        aim.target,
        WM_MOUSEHWHEEL,
        message::wheel_travel(horizontal as int, 120),
        location,
    ).trail;
    let across = lemma_turned(
        v,
        aim.target,
        WM_MOUSEHWHEEL,
        horizontal,
        120,
        location,
        point,
        arrived,
    );
    let along = lemma_turned(
        turned,
        aim.target,
        WM_MOUSEWHEEL,
        vertical,
        -120,
        location,
        point,
        arrived,
    );
    let end = background::posted_gesture_flow(
        t,
        id,
        root,
        Gesture::Scroll { at, horizontal, vertical },
    ).trail;
    lemma_extends(v, turned, end);
    lemma_extends(t, v, end);
    lemma_aim_is_kept(v, end, aim, root, at);
    (aim, across, along)
}

/// The kind of input that a gesture is asked about as.
pub open spec fn asked_kind(gesture: Gesture) -> EventKind {
    match gesture {
        Gesture::Click { .. } => EventKind::MouseClick,
        Gesture::Scroll { .. } => EventKind::MouseScroll,
        _ => EventKind::MouseMove,
    }
}

/// Whether the last call of a trail asks why posted input of this kind would be
/// dropped.
pub open spec fn asks_drop_reason(u: Trail, kind: EventKind) -> bool {
    u.calls.len() > 0 && (u.calls.last() matches Request::DropReason { kind: asked, .. } && asked
        == kind)
}

/// Whether `root` is the live window that an identifier names, asked at index
/// `i` of a trail.
pub open spec fn names_live(u: Trail, i: int, id: Seq<char>, root: usize) -> bool {
    &&& text::word_of(id) == Some(root)
    &&& 0 <= i < u.calls.len()
    &&& u.calls[i] == Request::Plain(Plain::IsWindow { window: root })
    &&& u.replies[i].flag_value()
}

/// A pointer gesture that succeeded was posted as a whole to the live window
/// that its identifier names, unless that window would drop input of its kind.
/// Then it was a single left click without modifiers, outside Chromium, and UI
/// Automation invoked the control at the spot; nothing was posted.
pub proof fn law_pointer_posts_its_gesture(
    t: Trail,
    id: Seq<char>,
    gesture: Gesture,
    arrived: bool,
) -> (u: Trail)
    requires
        background::pointer_flow(t, id, gesture).value == Some(Ok::<(), Fault>(())),
    ensures
        ({
            let end = background::pointer_flow(t, id, gesture).trail;
            let root = text::word_of(id)->0;
            let reason = u.replies[u.calls.len() - 1].text_value();
            &&& effects::extends(t, u)
            &&& effects::extends(u, end)
            &&& names_live(u, t.calls.len() as int, id, root)
            &&& picked(u, mouse(arrived)) == picked(t, mouse(arrived))
            &&& picked(u, keyboard(arrived)) == picked(t, keyboard(arrived))
            &&& asks_drop_reason(u, asked_kind(gesture))
            &&& reason is None ==> background::pointer_flow(t, id, gesture)
                == background::posted_gesture_flow(u, id, root, gesture)
            &&& reason is Some ==> {
                let n = end.calls.len() as int;
                &&& gesture matches Gesture::Click { at, button, count, modifiers } && button
                    is Left && count == 1 && modifiers.none() && n == u.calls.len() + 3
                    && end.calls[n - 3] is IsChromium && !end.replies[n - 3].flag_value()
                    && end.calls[n - 2] == Request::Plain(Plain::Locate { at })
                    && end.replies[n - 2].located_value() is Ok && end.calls[n - 1]
                    == Request::Plain(
                    Plain::InvokeAtPoint {
                        root,
                        point: end.replies[n - 2].located_value()->Ok_0,
                    },
                ) && end.replies[n - 1].flag_value()
            }
        }),
{
    broadcast use {
        effects::group_within,
        effects::ensure_integrity_within,
        effects::drop_reason_within,
        effects::background_pointer_within,
    };

    let found = delivery::hwnd_flow(t, id);
    let root = (found.value->0)->Ok_0;
    let allowed = delivery::ensure_integrity_flow(found.trail, id, root);
    let named = window::class_name_flow(allowed.trail, root);
    let class = named.value->0;
    let weighed = delivery::drop_reason_flow(
        named.trail,
        root,
        class,
        background::gesture_kind(gesture),
    );
    let u = weighed.trail;
    let queries = |c: Request| effects::is_query(c);
    assert(effects::permits_queries(queries));
    assert(effects::within(t, u, queries));
    lemma_none_picked(t, u, queries, mouse(arrived));
    lemma_none_picked(t, u, queries, keyboard(arrived));
    assert(effects::within(found.trail, u, queries));
    lemma_drop_reason_is_last(named.trail, root, class, background::gesture_kind(gesture));
    let end = background::pointer_flow(t, id, gesture);
    let background = |c: Request| effects::in_background(c);
    assert(effects::permits_queries(background));
    assert(effects::permits_background(background));
    lemma_gesture_extends(u, id, root, class, gesture);
    assert(effects::extends(t, u) && effects::extends(found.trail, u)) by {
        reveal(effects::within);
    }
    assert(u.calls[t.calls.len() as int] == found.trail.calls[t.calls.len() as int]);
    u
}

proof fn lemma_drop_reason_is_last(t: Trail, root: usize, class: Seq<char>, kind: EventKind)
    requires
        delivery::drop_reason_flow(t, root, class, kind).value is Some,
    ensures
        ({
            let flow = delivery::drop_reason_flow(t, root, class, kind);
            &&& asks_drop_reason(flow.trail, kind)
            &&& flow.value->0 == flow.trail.replies[flow.trail.calls.len() - 1].text_value()
        }),
{
}

proof fn lemma_gesture_extends(
    u: Trail,
    id: Seq<char>,
    root: usize,
    class: Seq<char>,
    gesture: Gesture,
)
    ensures
        effects::extends(u, background::posted_gesture_flow(u, id, root, gesture).trail),
        forall|reason: Seq<char>|
            effects::extends(
                u,
                (#[trigger] background::dropped_flow(u, id, root, class, gesture, reason)).trail,
            ),
{
    broadcast use {effects::group_within, effects::posted_gesture_within};

    let permitted = |c: Request| effects::in_background(c);
    assert(effects::permits_queries(permitted));
    assert(effects::permits_background(permitted));
    assert(effects::within(
        u,
        background::posted_gesture_flow(u, id, root, gesture).trail,
        permitted,
    ));
    reveal(effects::within);
}

/// Whether keyboard input for `root` goes to `target`: the focused descendant
/// that was found from `f` on, or `root` itself where none was found.
pub open spec fn takes_keys(f: Trail, root: usize, target: usize) -> bool {
    match window::focused_descendant_flow(f, root).value {
        Some(Some(focused)) => target == focused,
        Some(None) => target == root,
        None => false,
    }
}

proof fn lemma_focused(f: Trail, root: usize, arrived: bool)
    requires
        emitter::KeyEmitter::focused_flow(f, root).value is Some,
    ensures
        ({
            let flow = emitter::KeyEmitter::focused_flow(f, root);
            &&& effects::extends(f, flow.trail)
            &&& picked(flow.trail, mouse(arrived)) == picked(f, mouse(arrived))
            &&& picked(flow.trail, keyboard(arrived)) == picked(f, keyboard(arrived))
            &&& takes_keys(f, root, flow.value->0)
            &&& flow.trail == window::focused_descendant_flow(f, root).trail
        }),
{
    broadcast use {effects::group_within, effects::search_focus_within};

    let flow = emitter::KeyEmitter::focused_flow(f, root);
    let queries = |c: Request| effects::is_query(c);
    assert(effects::permits_queries(queries));
    assert(effects::within(f, flow.trail, queries));
    lemma_none_picked(f, flow.trail, queries, mouse(arrived));
    lemma_none_picked(f, flow.trail, queries, keyboard(arrived));
    reveal(effects::within);
}

proof fn lemma_deliverable(t: Trail, id: Seq<char>, root: usize, kind: EventKind, arrived: bool)
    requires
        delivery::ensure_delivery_flow(t, id, root, kind).value == Some(Ok::<(), Fault>(())),
    ensures
        ({
            let f = delivery::ensure_delivery_flow(t, id, root, kind).trail;
            &&& effects::extends(t, f)
            &&& picked(f, mouse(arrived)) == picked(t, mouse(arrived))
            &&& picked(f, keyboard(arrived)) == picked(t, keyboard(arrived))
            &&& asks_drop_reason(f, kind)
            &&& f.replies[f.calls.len() - 1].text_value() is None
        }),
{
    broadcast use {effects::group_within, effects::ensure_delivery_within};

    let f = delivery::ensure_delivery_flow(t, id, root, kind).trail;
    let queries = |c: Request| effects::is_query(c);
    assert(effects::permits_queries(queries));
    assert(effects::within(t, f, queries));
    lemma_none_picked(t, f, queries, mouse(arrived));
    lemma_none_picked(t, f, queries, keyboard(arrived));
    let allowed = delivery::ensure_integrity_flow(t, id, root);
    let named = window::class_name_flow(allowed.trail, root);
    lemma_drop_reason_is_last(named.trail, root, named.value->0, kind);
    reveal(effects::within);
}

/// Whether a run from `t` to `end` posted these keys going down in order and up
/// in reverse, each with the modifiers that its layout answer asks for, to one
/// window.
pub open spec fn posts_chord(
    t: Trail,
    end: Trail,
    keys: Seq<KeyName>,
    target: usize,
    arrived: bool,
    downs: Seq<Request>,
    pressed: Seq<Seq<u16>>,
    ups: Seq<Request>,
    released: Seq<Seq<u16>>,
) -> bool {
    &&& picked(end, mouse(arrived)) == picked(t, mouse(arrived))
    &&& picked(end, keyboard(arrived)) == picked(t, keyboard(arrived)) + downs + ups
    &&& pressed.len() == keys.len()
    &&& forall|j: int| 0 <= j < keys.len() ==> strikes(end, keys[j], #[trigger] pressed[j])
    &&& posts_keys(downs, target, joined(pressed), true)
    &&& released.len() == keys.len()
    &&& forall|j: int|
        0 <= j < keys.len() ==> strikes(
            end,
            keys[keys.len() - 1 - j],
            (#[trigger] released[j]).reverse(),
        )
    &&& posts_keys(ups, target, joined(released), false)
}

/// What a posted chord did, and where.
pub struct Chord {
    /// The run up to the search for the focused window.
    pub before: Trail,
    pub target: usize,
    pub downs: Seq<Request>,
    pub pressed: Seq<Seq<u16>>,
    pub ups: Seq<Request>,
    pub released: Seq<Seq<u16>>,
}

proof fn lemma_posted_chord(t: Trail, window: usize, keys: Seq<KeyName>, arrived: bool) -> (chord:
    Chord)
    requires
        background::posted_chord_flow(t, window, keys).value == Some(Ok::<(), Fault>(())),
    ensures
        ({
            let end = background::posted_chord_flow(t, window, keys).trail;
            &&& effects::extends(t, end)
            &&& posts_chord(
                t,
                end,
                keys,
                window,
                arrived,
                chord.downs,
                chord.pressed,
                chord.ups,
                chord.released,
            )
        }),
{
    broadcast use picked_ask;

    let pressed = emitter::press_held_flow(t, window, 0, keys, 0);
    let alt = (pressed.value->0).alt;
    let (downs, down_codes) = lemma_pressed(t, window, 0, keys, 0, arrived);
    let slept = pressed.trail.plain(Plain::Sleep { millis: background::KEY_GAP });
    let (ups, up_codes) = lemma_released(
        slept.trail,
        window,
        alt,
        keys,
        keys.len(),
        Ok(()),
        arrived,
    );
    let end = background::posted_chord_flow(t, window, keys).trail;
    lemma_extends(pressed.trail, slept.trail, end);
    lemma_extends(t, pressed.trail, end);
    assert forall|j: int| 0 <= j < keys.len() implies strikes(
        end,
        keys[j],
        #[trigger] down_codes[j],
    ) by {
        assert(strikes(pressed.trail, keys[0 + j], down_codes[j]));
        lemma_strikes_kept(pressed.trail, end, keys[j], down_codes[j]);
    }
    Chord {
        before: t,
        target: window,
        downs,
        pressed: down_codes,
        ups,
        released: up_codes,
    }
}

proof fn lemma_chord_kind(keys: Seq<KeyName>)
    ensures
        background::chord_kind(keys) == if keys.len() > 1 || (keys.len() == 1 && (keys[0] is Ctrl
            || keys[0] is Alt || keys[0] is Shift || keys[0] is Meta)) {
            EventKind::KeyCombo
        } else {
            EventKind::Keystroke
        },
{
    if keys.len() == 1 && keys[0].modifies() {
        assert(keys[0].modifies());
    }
}

/// A posted chord that succeeded went to the focused descendant of the live
/// window that its identifier names, or to that window itself where it has none
/// that is focused. Its keys went down in order and up in reverse there.
#[verifier::spinoff_prover]
#[verifier::rlimit(40)]
pub proof fn law_posted_chord(t: Trail, id: Seq<char>, keys: Seq<KeyName>, arrived: bool) -> (chord:
    Chord)
    requires
        background::key_chord_flow(t, id, keys).value == Some(Ok::<(), Fault>(())),
    ensures
        ({
            let end = background::key_chord_flow(t, id, keys).trail;
            let root = text::word_of(id)->0;
            let kind = if keys.len() > 1 || (keys.len() == 1 && (keys[0] is Ctrl || keys[0] is Alt
                || keys[0] is Shift || keys[0] is Meta)) {
                EventKind::KeyCombo
            } else {
                EventKind::Keystroke
            };
            &&& effects::extends(t, chord.before)
            &&& effects::extends(chord.before, end)
            &&& names_live(chord.before, t.calls.len() as int, id, root)
            &&& asks_drop_reason(chord.before, kind)
            &&& takes_keys(chord.before, root, chord.target)
            &&& posts_chord(
                t,
                end,
                keys,
                chord.target,
                arrived,
                chord.downs,
                chord.pressed,
                chord.ups,
                chord.released,
            )
        }),
{
    broadcast use picked_ask;

    let found = delivery::hwnd_flow(t, id);
    let root = (found.value->0)->Ok_0;
    lemma_chord_kind(keys);
    let kind = background::chord_kind(keys);
    let ready = delivery::ensure_delivery_flow(found.trail, id, root, kind);
    lemma_success(ready.value->0);
    lemma_deliverable(found.trail, id, root, kind, arrived);
    let f = ready.trail;
    let focused = emitter::KeyEmitter::focused_flow(f, root);
    lemma_focused(f, root, arrived);
    let target = focused.value->0;
    let chord = lemma_posted_chord(focused.trail, target, keys, arrived);
    let end = background::key_chord_flow(t, id, keys).trail;
    assert(end == background::posted_chord_flow(focused.trail, target, keys).trail);
    lemma_extends(f, focused.trail, end);
    lemma_extends(t, found.trail, f);
    assert(f.calls[t.calls.len() as int] == found.trail.calls[t.calls.len() as int]);
    Chord { before: f, target, ..chord }
}

/// Messages that type units of text, and their first parameters: `WM_CHAR` for
/// each UTF-16 code unit of a character, and Return going down and up for a line
/// break.
pub open spec fn typed_numbers(units: Seq<TextUnit>, n: nat) -> Seq<(u32, int)>
    decreases n,
{
    if n == 0 {
        Seq::empty()
    } else {
        typed_numbers(units, (n - 1) as nat) + match units[n - 1] {
            TextUnit::Enter => seq![
                (WM_KEYDOWN, VK_RETURN as int),
                (WM_KEYUP, VK_RETURN as int),
            ],
            TextUnit::Char(c) => text::utf16(c).map_values(|unit: u16| (WM_CHAR, unit as int)),
        }
    }
}

/// Whether these calls post these messages to a window, in order.
pub open spec fn posts_numbers(calls: Seq<Request>, target: usize, numbers: Seq<(u32, int)>) -> bool {
    &&& calls.len() == numbers.len()
    &&& forall|j: int|
        0 <= j < calls.len() ==> (#[trigger] calls[j] matches Request::Plain(
            Plain::Post { window, message, wparam, lparam },
        ) && window == target && message == numbers[j].0 && wparam == numbers[j].1 && (message
            == WM_CHAR ==> lparam == 1))
}

proof fn lemma_typed_units(
    t: Trail,
    window: usize,
    units: Seq<u16>,
    i: nat,
    arrived: bool,
) -> (calls: Seq<Request>)
    requires
        i <= units.len(),
        background::typed_units_flow(t, window, units, i).value == Some(Ok::<(), Fault>(())),
    ensures
        ({
            let end = background::typed_units_flow(t, window, units, i).trail;
            &&& effects::extends(t, end)
            &&& picked(end, mouse(arrived)) == picked(t, mouse(arrived))
            &&& picked(end, keyboard(arrived)) == picked(t, keyboard(arrived)) + calls
            &&& posts_numbers(
                calls,
                window,
                units.skip(i as int).map_values(|unit: u16| (WM_CHAR, unit as int)),
            )
        }),
    decreases units.len() - i,
{
    broadcast use picked_ask;

    let kind = keyboard(arrived);
    if i >= units.len() {
        assert(picked(t, kind) + Seq::<Request>::empty() =~= picked(t, kind));
        Seq::empty()
    } else {
        let unit = units[i as int];
        let u = emitter::post_flow(t, window, WM_CHAR, unit as usize, 1).trail;
        let call = posted(window, WM_CHAR, unit as usize, 1);
        let rest = lemma_typed_units(u, window, units, i + 1, arrived);
        let calls = seq![call] + rest;
        assert(picked(u, kind) == picked(t, kind).push(call));
        assert(picked(t, kind).push(call) + rest =~= picked(t, kind) + calls);
        lemma_extends(t, u, background::typed_units_flow(t, window, units, i).trail);
        let numbers = units.skip(i as int).map_values(|unit: u16| (WM_CHAR, unit as int));
        let more = units.skip(i as int + 1).map_values(|unit: u16| (WM_CHAR, unit as int));
        assert(numbers =~= seq![(WM_CHAR, unit as int)] + more);
        assert forall|j: int| 0 <= j < calls.len() implies (#[trigger] calls[j] matches Request::Plain(
            Plain::Post { window: to, message, wparam, lparam },
        ) && to == window && message == numbers[j].0 && wparam == numbers[j].1 && (message
            == WM_CHAR ==> lparam == 1)) by {
            if j > 0 {
                assert(calls[j] == rest[j - 1]);
            }
        }
        calls
    }
}

proof fn lemma_typed(t: Trail, window: usize, unit: TextUnit, arrived: bool) -> (calls: Seq<Request>)
    requires
        background::typed_flow(t, window, 0, unit).value matches Some(turn) && turn.result is Ok,
    ensures
        ({
            let flow = background::typed_flow(t, window, 0, unit);
            &&& effects::extends(t, flow.trail)
            &&& picked(flow.trail, mouse(arrived)) == picked(t, mouse(arrived))
            &&& picked(flow.trail, keyboard(arrived)) == picked(t, keyboard(arrived)) + calls
            &&& posts_numbers(calls, window, typed_numbers(seq![unit], 1))
            &&& (flow.value->0).alt == 0
        }),
{
    broadcast use picked_ask;

    let kind = keyboard(arrived);
    let numbers = typed_numbers(seq![unit], 1);
    reveal_with_fuel(typed_numbers, 2);
    let end = background::typed_flow(t, window, 0, unit).trail;
    match unit {
        TextUnit::Enter => {
            let down = emitter::transition_flow(t, window, 0, VK_RETURN, true).trail;
            law_key_transition(t, window, 0, VK_RETURN, true);
            let slept = down.plain(Plain::Sleep { millis: background::KEY_GAP }).trail;
            law_key_transition(slept, window, 0, VK_RETURN, false);
            let up = emitter::transition_flow(slept, window, 0, VK_RETURN, false).trail;
            let press = down.calls[t.calls.len() as int + 1];
            let release = up.calls[slept.calls.len() as int + 1];
            let calls = seq![press, release];
            assert(picked(down, kind) == picked(t, kind).push(press));
            assert(picked(up, kind) == picked(slept, kind).push(release));
            assert(picked(end, kind) =~= picked(t, kind) + calls);
            assert(numbers =~= seq![(WM_KEYDOWN, VK_RETURN as int), (WM_KEYUP, VK_RETURN as int)]);
            lemma_extends(t, down, slept);
            lemma_extends(t, slept, up);
            calls
        },
        TextUnit::Char(c) => {
            let units = text::utf16(c);
            let posted = background::typed_units_flow(t, window, units, 0);
            lemma_success(posted.value->0);
            let calls = lemma_typed_units(t, window, units, 0, arrived);
            assert(units.skip(0) =~= units);
            assert(numbers =~= units.map_values(|unit: u16| (WM_CHAR, unit as int)));
            lemma_extends(t, posted.trail, end);
            calls
        },
    }
}

proof fn lemma_typed_text(
    t: Trail,
    window: usize,
    units: Seq<TextUnit>,
    i: nat,
    arrived: bool,
) -> (calls: Seq<Request>)
    requires
        i <= units.len(),
        background::typed_text_flow(t, window, 0, units, i).value == Some(Ok::<(), Fault>(())),
    ensures
        ({
            let end = background::typed_text_flow(t, window, 0, units, i).trail;
            let rest = units.skip(i as int);
            &&& effects::extends(t, end)
            &&& picked(end, mouse(arrived)) == picked(t, mouse(arrived))
            &&& picked(end, keyboard(arrived)) == picked(t, keyboard(arrived)) + calls
            &&& posts_numbers(calls, window, typed_numbers(rest, rest.len()))
        }),
    decreases units.len() - i,
{
    let kind = keyboard(arrived);
    let rest = units.skip(i as int);
    if i >= units.len() {
        assert(picked(t, kind) + Seq::<Request>::empty() =~= picked(t, kind));
        Seq::empty()
    } else {
        let unit = units[i as int];
        let typed = background::typed_flow(t, window, 0, unit);
        let first = lemma_typed(t, window, unit, arrived);
        let more = lemma_typed_text(typed.trail, window, units, i + 1, arrived);
        let after = units.skip(i as int + 1);
        let calls = first + more;
        lemma_extends(t, typed.trail, background::typed_text_flow(t, window, 0, units, i).trail);
        assert(picked(t, kind) + first + more =~= picked(t, kind) + calls);
        assert(rest =~= seq![unit] + after);
        lemma_typed_numbers_join(unit, after, after.len());
        let a = typed_numbers(seq![unit], 1);
        let b = typed_numbers(after, after.len());
        assert forall|j: int| 0 <= j < calls.len() implies (#[trigger] calls[j] matches Request::Plain(
            Plain::Post { window: to, message, wparam, lparam },
        ) && to == window && message == (a + b)[j].0 && wparam == (a + b)[j].1 && (message
            == WM_CHAR ==> lparam == 1)) by {
            if j < first.len() {
                assert(calls[j] == first[j]);
            } else {
                assert(calls[j] == more[j - first.len()]);
            }
        }
        calls
    }
}

proof fn lemma_typed_numbers_join(unit: TextUnit, after: Seq<TextUnit>, n: nat)
    requires
        n <= after.len(),
    ensures
        typed_numbers(seq![unit] + after, n + 1) == typed_numbers(seq![unit], 1) + typed_numbers(
            after,
            n,
        ),
    decreases n,
{
    let all = seq![unit] + after;
    reveal_with_fuel(typed_numbers, 2);
    if n == 0 {
        assert(typed_numbers(all, 1) =~= typed_numbers(seq![unit], 1) + typed_numbers(after, 0));
    } else {
        lemma_typed_numbers_join(unit, after, (n - 1) as nat);
        assert(all[n as int] == after[n - 1]);
        assert(typed_numbers(all, n + 1) =~= typed_numbers(seq![unit], 1) + typed_numbers(
            after,
            n,
        ));
    }
}

/// Posted text that succeeded went to the focused descendant of the live window
/// that its identifier names, or to that window itself where it has none that is
/// focused: the messages that type the units of that text, in order.
pub proof fn law_posted_text(t: Trail, id: Seq<char>, content: Seq<char>, arrived: bool) -> (made: (
    Trail,
    usize,
    Seq<Request>,
))
    requires
        background::type_text_flow(t, id, content).value == Some(Ok::<(), Fault>(())),
    ensures
        ({
            let end = background::type_text_flow(t, id, content).trail;
            let root = text::word_of(id)->0;
            let (before, target, calls) = made;
            let at = window::focused_descendant_flow(before, root).trail.calls.len() as int;
            let units = t.replies[at].text_units_value();
            &&& effects::extends(t, before)
            &&& effects::extends(before, end)
            &&& names_live(before, t.calls.len() as int, id, root)
            &&& asks_drop_reason(before, EventKind::TextInput)
            &&& takes_keys(before, root, target)
            &&& end.calls[at] == (Request::TextUnits { text: content })
            &&& picked(end, mouse(arrived)) == picked(t, mouse(arrived))
            &&& picked(end, keyboard(arrived)) == picked(t, keyboard(arrived)) + calls
            &&& posts_numbers(calls, target, typed_numbers(units, units.len()))
        }),
{
    broadcast use {picked_ask, effects::group_within};

    let found = delivery::hwnd_flow(t, id);
    let root = (found.value->0)->Ok_0;
    let supported = delivery::ensure_text_supported_flow(found.trail, id, root);
    let queries = |c: Request| effects::is_query(c);
    assert(effects::permits_queries(queries));
    assert(effects::within(t, supported.trail, queries));
    assert(effects::within(found.trail, supported.trail, queries));
    lemma_none_picked(t, supported.trail, queries, mouse(arrived));
    lemma_none_picked(t, supported.trail, queries, keyboard(arrived));
    assert(effects::extends(t, supported.trail) && effects::extends(found.trail, supported.trail))
        by {
        reveal(effects::within);
    }
    let ready = delivery::ensure_delivery_flow(supported.trail, id, root, EventKind::TextInput);
    lemma_success(ready.value->0);
    lemma_deliverable(supported.trail, id, root, EventKind::TextInput, arrived);
    let f = ready.trail;
    let focused = emitter::KeyEmitter::focused_flow(f, root);
    lemma_focused(f, root, arrived);
    let target = focused.value->0;
    let asked = focused.trail.ask(Request::TextUnits { text: content });
    let units = (asked.value->0).text_units_value();
    let calls = lemma_typed_text(asked.trail, target, units, 0, arrived);
    assert(units.skip(0) =~= units);
    let end = background::type_text_flow(t, id, content).trail;
    assert(end == background::typed_text_flow(asked.trail, target, 0, units, 0).trail);
    lemma_extends(focused.trail, asked.trail, end);
    lemma_extends(f, focused.trail, end);
    lemma_extends(t, supported.trail, f);
    lemma_extends(found.trail, supported.trail, f);
    let at = focused.trail.calls.len() as int;
    assert(end.calls[at] == asked.trail.calls[at]);
    assert(f.calls[t.calls.len() as int] == found.trail.calls[t.calls.len() as int]);
    (f, target, calls)
}

} // verus!
