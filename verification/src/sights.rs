//! What the questions about windows come to, in terms of the answers that were
//! given.

use vstd::prelude::*;

use crate::deeds::lemma_extends;
use crate::tape::{Plain, Reply, Request, Trail};
use crate::win32::{GA_PARENT, GA_ROOT};
use crate::{effects, text, window};

verus! {

/// The window `j` parent links above `start`, where the answers to the
/// questions for them lie from index `k` of a trail on.
pub open spec fn link(u: Trail, k: int, start: usize, j: int) -> usize {
    if j == 0 {
        start
    } else {
        u.replies[k + j - 1].handle_value()
    }
}

/// Whether one goes up from the window `j` links above `start`: it is not the
/// ancestor, and it was asked for its parent and has one.
pub open spec fn goes_up(u: Trail, k: int, ancestor: usize, start: usize, j: int) -> bool {
    &&& link(u, k, start, j) != ancestor
    &&& u.calls[k + j] == Request::Plain(
        Plain::Ancestor { window: link(u, k, start, j), relation: GA_PARENT },
    )
    &&& u.replies[k + j].handle_value() != 0
}

/// Whether a trail climbs `d` parent links from `start`, from index `k` on, until
/// it is at the ancestor, at a window without a parent, or at the bound.
pub open spec fn climbs(u: Trail, k: int, ancestor: usize, start: usize, d: int) -> bool {
    let last = link(u, k, start, d);
    &&& 0 <= d <= window::MAX_DEPTH
    &&& forall|j: int| 0 <= j < d ==> #[trigger] goes_up(u, k, ancestor, start, j)
    &&& {
        ||| last == ancestor
        ||| d == window::MAX_DEPTH
        ||| {
            &&& u.calls[k + d] == Request::Plain(
                Plain::Ancestor { window: last, relation: GA_PARENT },
            )
            &&& u.replies[k + d].handle_value() == 0
        }
    }
}

/// How many calls a climb of `d` links takes.
pub open spec fn climb_len(u: Trail, k: int, ancestor: usize, start: usize, d: int) -> int {
    if link(u, k, start, d) == ancestor || d == window::MAX_DEPTH {
        d
    } else {
        d + 1
    }
}

proof fn lemma_climb(t: Trail, k: int, ancestor: usize, start: usize, depth: nat)
    requires
        0 <= k,
        depth <= window::MAX_DEPTH,
        t.calls.len() == k + depth,
        forall|j: int| 0 <= j < depth ==> #[trigger] goes_up(t, k, ancestor, start, j),
        window::depth_flow(
            t,
            ancestor,
            link(t, k, start, depth as int),
            depth,
        ).value is Some,
    ensures
        ({
            let flow = window::depth_flow(t, ancestor, link(t, k, start, depth as int), depth);
            let d = (flow.value->0) as int;
            &&& effects::extends(t, flow.trail)
            &&& climbs(flow.trail, k, ancestor, start, d)
            &&& flow.trail.calls.len() == k + climb_len(flow.trail, k, ancestor, start, d)
        }),
    decreases window::MAX_DEPTH - depth,
{
    let current = link(t, k, start, depth as int);
    let end = window::depth_flow(t, ancestor, current, depth).trail;
    if current != ancestor && depth < window::MAX_DEPTH {
        let asked = t.plain(Plain::Ancestor { window: current, relation: GA_PARENT });
        let u = asked.trail;
        let parent = (asked.value->0).handle_value();
        assert forall|j: int| 0 <= j < depth implies #[trigger] goes_up(
            u,
            k,
            ancestor,
            start,
            j,
        ) by {
            assert(goes_up(t, k, ancestor, start, j));
            assert(u.calls[k + j] == t.calls[k + j]);
        }
        if parent != 0 {
            assert(goes_up(u, k, ancestor, start, depth as int));
            lemma_climb(u, k, ancestor, start, depth + 1);
            lemma_extends(t, u, end);
        }
    }
}

/// The depth of a window below an ancestor is the number of parent links that
/// lead from it to the ancestor, or to where the links or the bound end.
pub proof fn law_depth_counts_links(t: Trail, ancestor: usize, start: usize)
    requires
        window::depth_flow(t, ancestor, start, 0).value is Some,
    ensures
        ({
            let flow = window::depth_flow(t, ancestor, start, 0);
            let d = (flow.value->0) as int;
            let k = t.calls.len() as int;
            &&& effects::extends(t, flow.trail)
            &&& climbs(flow.trail, k, ancestor, start, d)
            &&& flow.trail.calls.len() == k + climb_len(flow.trail, k, ancestor, start, d)
        }),
{
    lemma_climb(t, t.calls.len() as int, ancestor, start, 0);
}

proof fn lemma_climb_is_kept(t: Trail, u: Trail, k: int, ancestor: usize, start: usize, d: int)
    requires
        effects::extends(t, u),
        0 <= k,
        climbs(t, k, ancestor, start, d),
        k + climb_len(t, k, ancestor, start, d) <= t.calls.len(),
    ensures
        climbs(u, k, ancestor, start, d),
{
    assert forall|j: int| 0 <= j < d implies #[trigger] goes_up(u, k, ancestor, start, j) by {
        assert(goes_up(t, k, ancestor, start, j));
        assert(u.calls[k + j] == t.calls[k + j]);
    }
    if climb_len(t, k, ancestor, start, d) == d + 1 {
        assert(u.calls[k + d] == t.calls[k + d]);
    }
}

/// Whether a call asks a thread for its focused window.
pub open spec fn asks_focus(call: Request) -> bool {
    match call {
        Request::Plain(Plain::FocusOf { .. }) => true,
        _ => false,
    }
}

/// Whether at index `k` of a trail a thread reports `focused` as its focused
/// window, and that is a descendant of `root`, other than `root`.
pub open spec fn reports(u: Trail, k: int, root: usize, focused: usize) -> bool {
    &&& 0 <= k < u.calls.len()
    &&& asks_focus(u.calls[k])
    &&& u.replies[k].found_value() == Some(focused)
    &&& focused != 0
    &&& focused != root
    &&& k + 1 < u.calls.len()
    &&& u.calls[k + 1] == Request::Plain(Plain::IsChild { parent: root, window: focused })
    &&& u.replies[k + 1].flag_value()
}

/// Whether at index `k` of a trail a thread reports a focused descendant of
/// `root` that lies `d` parent links below it.
pub open spec fn ranks(u: Trail, k: int, root: usize, focused: usize, d: int) -> bool {
    &&& reports(u, k, root, focused)
    &&& climbs(u, k + 2, root, focused, d)
    &&& k + 2 + climb_len(u, k + 2, root, focused, d) <= u.calls.len()
}

/// Whether among the reports from index `from` on, the one at index `k` is the
/// deepest, and the first of those that are equally deep.
pub open spec fn is_deepest(
    u: Trail,
    from: int,
    k: int,
    root: usize,
    focused: usize,
    d: int,
) -> bool {
    &&& from <= k
    &&& ranks(u, k, root, focused, d)
    &&& forall|j: int, other: usize|
        from <= j && #[trigger] reports(u, j, root, other) ==> exists|e: int| #[trigger]
            ranks(u, j, root, other, e) && e <= d && (j < k ==> e < d)
}

/// What the search for the focused window has found in the part of a trail from
/// index `from` on.
pub open spec fn best_of(u: Trail, from: int, root: usize, best: Option<(nat, usize)>) -> bool {
    match best {
        None => forall|j: int, other: usize| from <= j ==> !#[trigger] reports(u, j, root, other),
        Some((depth, focused)) => exists|k: int| #[trigger]
            is_deepest(u, from, k, root, focused, depth as int),
    }
}

proof fn lemma_ranks_kept(t: Trail, u: Trail, k: int, root: usize, focused: usize, d: int)
    requires
        effects::extends(t, u),
        ranks(t, k, root, focused, d),
    ensures
        ranks(u, k, root, focused, d),
{
    assert(u.calls[k] == t.calls[k]);
    assert(u.calls[k + 1] == t.calls[k + 1]);
    lemma_climb_is_kept(t, u, k + 2, root, focused, d);
}

/// Calls that follow and are no reports leave the best as it was.
proof fn lemma_best_is_kept(
    t: Trail,
    u: Trail,
    from: int,
    root: usize,
    best: Option<(nat, usize)>,
)
    requires
        effects::extends(t, u),
        best_of(t, from, root, best),
        0 <= from <= t.calls.len(),
        forall|j: int, other: usize|
            from <= j && #[trigger] reports(u, j, root, other) ==> reports(t, j, root, other),
    ensures
        best_of(u, from, root, best),
{
    if let Some(found) = best {
        let d = found.0 as int;
        let k = choose|k: int| #[trigger] is_deepest(t, from, k, root, found.1, d);
        lemma_ranks_kept(t, u, k, root, found.1, d);
        assert forall|j: int, other: usize|
            from <= j && #[trigger] reports(u, j, root, other) implies exists|e: int| #[trigger]
            ranks(u, j, root, other, e) && e <= d && (j < k ==> e < d) by {
            let e = choose|e: int| #[trigger]
                ranks(t, j, root, other, e) && e <= d && (j < k ==> e < d);
            lemma_ranks_kept(t, u, j, root, other, e);
        }
        assert(is_deepest(u, from, k, root, found.1, d));
    }
}

proof fn lemma_search(
    t: Trail,
    from: int,
    root: usize,
    threads: Seq<u32>,
    i: nat,
    best: Option<(nat, usize)>,
) -> (last: Option<(nat, usize)>)
    requires
        0 <= from <= t.calls.len(),
        i <= threads.len(),
        best_of(t, from, root, best),
        forall|j: int| 0 <= j < i ==> asked_focus(t, from, #[trigger] threads[j]),
        window::search_focus_flow(t, root, threads, i, best).value is Some,
    ensures
        ({
            let flow = window::search_focus_flow(t, root, threads, i, best);
            &&& effects::extends(t, flow.trail)
            &&& best_of(flow.trail, from, root, last)
            &&& forall|j: int|
                0 <= j < threads.len() ==> asked_focus(flow.trail, from, #[trigger] threads[j])
            &&& flow.value->0 == match last {
                Some(found) => Some(found.1),
                None => None,
            }
        }),
    decreases threads.len() - i,
{
    let end = window::search_focus_flow(t, root, threads, i, best).trail;
    if i >= threads.len() {
        best
    } else {
        let info = t.plain(Plain::FocusOf { thread: threads[i as int] });
        let k = t.calls.len() as int;
        let focused = (info.value->0).found_value()->0;
        let inside = info.trail.plain(Plain::IsChild { parent: root, window: focused });
        let depth = window::depth_flow(inside.trail, root, focused, 0);
        if (info.value->0).found_value() is None || focused == 0 || focused == root {
            lemma_asked(t, info.trail, from, threads, i);
            lemma_no_report(t, info.trail, from, root);
            lemma_best_is_kept(t, info.trail, from, root, best);
            let last = lemma_search(info.trail, from, root, threads, i + 1, best);
            lemma_extends(t, info.trail, end);
            last
        } else if !(inside.value->0).flag_value() {
            lemma_extends(t, info.trail, inside.trail);
            lemma_asked(t, inside.trail, from, threads, i);
            lemma_no_report(t, inside.trail, from, root);
            lemma_best_is_kept(t, inside.trail, from, root, best);
            let last = lemma_search(inside.trail, from, root, threads, i + 1, best);
            lemma_extends(t, inside.trail, end);
            last
        } else {
            law_depth_counts_links(inside.trail, root, focused);
            let d = depth.value->0;
            let u = depth.trail;
            lemma_extends(t, info.trail, inside.trail);
            lemma_extends(t, inside.trail, u);
            assert(u.calls[k] == inside.trail.calls[k]);
            assert(u.calls[k + 1] == inside.trail.calls[k + 1]);
            assert(ranks(u, k, root, focused, d as int));
            let deeper = window::deeper_of(best, d, focused);
            lemma_newcomer(t, u, from, root, best, focused, d);
            lemma_asked(t, u, from, threads, i);
            let last = lemma_search(u, from, root, threads, i + 1, deeper);
            lemma_extends(t, u, end);
            last
        }
    }
}

/// Whether a thread was asked for its focused window, from index `from` of a
/// trail on.
pub open spec fn asked_focus(u: Trail, from: int, thread: u32) -> bool {
    exists|k: int|
        from <= k < u.calls.len() && #[trigger] u.calls[k] == Request::Plain(
            Plain::FocusOf { thread },
        )
}

proof fn lemma_asked(t: Trail, u: Trail, from: int, threads: Seq<u32>, i: nat)
    requires
        0 <= from <= t.calls.len(),
        i < threads.len(),
        effects::extends(t, u),
        t.calls.len() < u.calls.len(),
        u.calls[t.calls.len() as int] == Request::Plain(
            Plain::FocusOf { thread: threads[i as int] },
        ),
        forall|j: int| 0 <= j < i ==> asked_focus(t, from, #[trigger] threads[j]),
    ensures
        forall|j: int| 0 <= j < i + 1 ==> asked_focus(u, from, #[trigger] threads[j]),
{
    assert forall|j: int| 0 <= j < i + 1 implies asked_focus(u, from, #[trigger] threads[j]) by {
        if j < i {
            assert(asked_focus(t, from, threads[j]));
            let k = choose|k: int|
                from <= k < t.calls.len() && #[trigger] t.calls[k] == Request::Plain(
                    Plain::FocusOf { thread: threads[j] },
                );
            assert(u.calls[k] == t.calls[k]);
        }
    }
}

proof fn lemma_no_report(t: Trail, u: Trail, from: int, root: usize)
    requires
        effects::extends(t, u),
        0 <= from <= t.calls.len() < u.calls.len() <= t.calls.len() + 2,
        forall|focused: usize| !reports(u, t.calls.len() as int, root, focused),
        u.calls.len() == t.calls.len() + 2 ==> !asks_focus(u.calls[t.calls.len() as int + 1]),
        asks_focus(u.calls[t.calls.len() as int]),
    ensures
        forall|j: int, other: usize|
            from <= j && #[trigger] reports(u, j, root, other) ==> reports(t, j, root, other),
{
    assert forall|j: int, other: usize| from <= j && #[trigger] reports(
        u,
        j,
        root,
        other,
    ) implies reports(t, j, root, other) by {
        assert(j < t.calls.len());
        assert(u.calls[j] == t.calls[j]);
        if j + 1 == t.calls.len() {
            assert(asks_focus(u.calls[j + 1]));
        } else {
            assert(u.calls[j + 1] == t.calls[j + 1]);
        }
    }
}

proof fn lemma_is_best(u: Trail, from: int, k: int, root: usize, focused: usize, d: nat)
    requires
        is_deepest(u, from, k, root, focused, d as int),
    ensures
        best_of(u, from, root, Some((d, focused))),
{
    let best = Some((d, focused));
    assert((best->0).0 == d && (best->0).1 == focused);
    assert(is_deepest(u, from, k, root, (best->0).1, (best->0).0 as int));
    assert(best_of(u, from, root, best));
}

proof fn lemma_newcomer(
    t: Trail,
    u: Trail,
    from: int,
    root: usize,
    best: Option<(nat, usize)>,
    focused: usize,
    d: nat,
)
    requires
        effects::extends(t, u),
        0 <= from <= t.calls.len(),
        best_of(t, from, root, best),
        ranks(u, t.calls.len() as int, root, focused, d as int),
        u.calls.len() == t.calls.len() + 2 + climb_len(
            u,
            t.calls.len() as int + 2,
            root,
            focused,
            d as int,
        ),
    ensures
        best_of(u, from, root, window::deeper_of(best, d, focused)),
{
    let k = t.calls.len() as int;
    let deeper = window::deeper_of(best, d, focused);
    assert forall|j: int, other: usize| from <= j && #[trigger] reports(
        u,
        j,
        root,
        other,
    ) && j != k implies reports(t, j, root, other) by {
        if j > k {
            if j == k + 1 {
                assert(!asks_focus(u.calls[k + 1]));
            } else {
                let step = j - k - 2;
                if step < d {
                    assert(goes_up(u, k + 2, root, focused, step));
                }
                assert(!asks_focus(u.calls[j]));
            }
        } else {
            assert(u.calls[j] == t.calls[j]);
            if j + 1 == k {
                assert(asks_focus(u.calls[k]));
            } else {
                assert(u.calls[j + 1] == t.calls[j + 1]);
            }
        }
    }
    match best {
        None => {
            assert forall|j: int, other: usize|
                from <= j && #[trigger] reports(u, j, root, other) implies exists|e: int| #[trigger]
                ranks(u, j, root, other, e) && e <= d && (j < k ==> e < d) by {
                if j != k {
                    assert(reports(t, j, root, other));
                }
                assert(ranks(u, j, root, other, d as int));
            }
            assert(is_deepest(u, from, k, root, focused, d as int));
            lemma_is_best(u, from, k, root, focused, d);
        },
        Some(found) => {
            let old = found.0 as int;
            let b = choose|b: int| #[trigger] is_deepest(t, from, b, root, found.1, old);
            lemma_ranks_kept(t, u, b, root, found.1, old);
            if d > found.0 {
                assert forall|j: int, other: usize|
                    from <= j && #[trigger] reports(u, j, root, other) implies exists|e: int|
                    #[trigger] ranks(u, j, root, other, e) && e <= d && (j < k ==> e < d) by {
                    if j == k {
                        assert(ranks(u, j, root, other, d as int));
                    } else {
                        assert(reports(t, j, root, other));
                        let e = choose|e: int| #[trigger]
                            ranks(t, j, root, other, e) && e <= old && (j < b ==> e < old);
                        lemma_ranks_kept(t, u, j, root, other, e);
                    }
                }
                assert(is_deepest(u, from, k, root, focused, d as int));
                lemma_is_best(u, from, k, root, focused, d);
            } else {
                assert(b < k);
                assert forall|j: int, other: usize|
                    from <= j && #[trigger] reports(u, j, root, other) implies exists|e: int|
                    #[trigger] ranks(u, j, root, other, e) && e <= old && (j < b ==> e < old) by {
                    if j == k {
                        assert(ranks(u, j, root, other, d as int));
                    } else {
                        assert(reports(t, j, root, other));
                        let e = choose|e: int| #[trigger]
                            ranks(t, j, root, other, e) && e <= old && (j < b ==> e < old);
                        lemma_ranks_kept(t, u, j, root, other, e);
                    }
                }
                assert(is_deepest(u, from, b, root, found.1, old));
            }
        },
    }
}

/// The focused descendant of a window is the deepest of those that the threads
/// of its tree report, and the first of those that are equally deep. Each such
/// thread is asked: the window's own, and that of every descendant. There is
/// none where the window has no thread or no thread reports one.
pub proof fn law_focused_descendant_is_the_deepest(t: Trail, root: usize) -> (found: (int, int))
    requires
        window::focused_descendant_flow(t, root).value is Some,
    ensures
        ({
            let flow = window::focused_descendant_flow(t, root);
            let u = flow.trail;
            let c = t.calls.len() as int;
            let first = t.upcoming(0).word_value();
            let more = t.upcoming(1).words_value();
            &&& effects::extends(t, u)
            &&& u.calls[c] == Request::Plain(Plain::ThreadOf { window: root })
            &&& first == 0 ==> flow.value == Some(None::<usize>)
            &&& first != 0 ==> {
                &&& u.calls[c + 1] == Request::Plain(Plain::DescendantThreads { window: root })
                &&& asked_focus(u, c + 2, first)
                &&& forall|j: int|
                    0 <= j < more.len() && #[trigger] more[j] != 0 ==> asked_focus(u, c + 2, more[j])
                &&& flow.value->0 is None ==> forall|k: int, focused: usize|
                    c + 2 <= k ==> !#[trigger] reports(u, k, root, focused)
                &&& flow.value->0 matches Some(focused) ==> is_deepest(
                    u,
                    c + 2,
                    found.0,
                    root,
                    focused,
                    found.1,
                )
            }
        }),
{
    let c = t.calls.len() as int;
    let first = t.upcoming(0).word_value();
    let more = t.upcoming(1).words_value();
    let flow = window::focused_descendant_flow(t, root);
    if first == 0 {
        (0, 0)
    } else {
        let asked = t.plain(Plain::ThreadOf { window: root });
        let listed = asked.trail.plain(Plain::DescendantThreads { window: root });
        let v = listed.trail;
        let threads = window::merged(seq![first], more);
        window::law_threads_are_distinct(first, more);
        assert(best_of(v, c + 2, root, None));
        let last = lemma_search(v, c + 2, root, threads, 0, None);
        lemma_extends(asked.trail, v, flow.trail);
        lemma_extends(t, asked.trail, flow.trail);
        let u = flow.trail;
        assert(u.calls[c] == v.calls[c]);
        assert(u.calls[c + 1] == v.calls[c + 1]);
        assert forall|thread: u32| threads.contains(thread) implies #[trigger] asked_focus(
            u,
            c + 2,
            thread,
        ) by {
            let j = threads.index_of(thread);
            assert(asked_focus(u, c + 2, threads[j]));
        }
        assert(threads.contains(first));
        assert forall|j: int| 0 <= j < more.len() && #[trigger] more[j] != 0 implies asked_focus(
            u,
            c + 2,
            more[j],
        ) by {
            assert(more.contains(more[j]));
            assert(threads.contains(more[j]));
        }
        match last {
            None => (0, 0),
            Some(found) => {
                let k = choose|k: int| #[trigger]
                    is_deepest(u, c + 2, k, root, found.1, found.0 as int);
                (k, found.0 as int)
            },
        }
    }
}

/// The top-level window of a window is what the question for it answers, or the
/// window itself where that is null.
pub proof fn law_root_is_the_top_level_window(t: Trail, window: usize)
    requires
        window::root_flow(t, window).value is Some,
    ensures
        window::root_flow(t, window).trail == t.after(
            Request::Plain(Plain::Ancestor { window, relation: GA_ROOT }),
        ),
        window::root_flow(t, window).value == Some(top_level(window, t.upcoming(0))),
{
}

/// The top-level window of a window, given the answer to the question for it.
pub open spec fn top_level(window: usize, answer: Reply) -> usize {
    if answer.handle_value() == 0 {
        window
    } else {
        answer.handle_value()
    }
}

/// A window owns the foreground where its top-level window is that of the window
/// in front. Nothing owns it where no window is in front.
pub proof fn law_foreground_owner_shares_the_root(t: Trail, window: usize)
    requires
        window::owns_foreground_flow(t, window).value is Some,
    ensures
        ({
            let flow = window::owns_foreground_flow(t, window);
            let c = t.calls.len() as int;
            let front = t.upcoming(0).handle_value();
            &&& flow.trail.calls[c] == Request::Plain(Plain::ForegroundWindow)
            &&& front == 0 ==> flow.value == Some(false)
            &&& front != 0 ==> {
                &&& flow.trail.calls[c + 1] == Request::Plain(
                    Plain::Ancestor { window: front, relation: GA_ROOT },
                )
                &&& flow.trail.calls[c + 2] == Request::Plain(
                    Plain::Ancestor { window, relation: GA_ROOT },
                )
                &&& flow.value == Some(
                    top_level(front, t.upcoming(1)) == top_level(window, t.upcoming(2)),
                )
            }
        }),
{
}

/// The class of a window is what it answers, decoded from UTF-16, and empty
/// where it answers nothing. A name to show is never empty.
pub proof fn law_class_is_what_the_window_answers(t: Trail, window: usize)
    ensures
        window::class_text_flow(t, window).value matches Some(class) ==> {
            &&& window::class_text_flow(t, window).trail == t.after(
                Request::Plain(Plain::ClassName { window }),
            )
            &&& t.upcoming(0).units_value() is None ==> class.len() == 0
            &&& t.upcoming(0).units_value() matches Some(units) ==> class == text::decoded(units)
        },
        window::class_name_flow(t, window).value matches Some(shown) ==> {
            let class = window::class_text_flow(t, window).value->0;
            &&& window::class_name_flow(t, window).trail == window::class_text_flow(t, window).trail
            &&& class.len() > 0 ==> shown == class
            &&& class.len() == 0 ==> shown == "<unknown>"@
        },
{
}

proof fn lemma_any_chromium(t: Trail, first: Trail, windows: Seq<usize>, i: nat)
    requires
        i <= windows.len(),
        effects::extends(first, t),
        t.calls.len() == first.calls.len() + 2 * i,
        forall|j: int| 0 <= j < i ==> #[trigger] asked_chromium(t, first, windows, j, false),
        window::any_chromium_flow(t, windows, i).value is Some,
    ensures
        ({
            let flow = window::any_chromium_flow(t, windows, i);
            let n = (flow.trail.calls.len() - first.calls.len()) / 2;
            &&& effects::extends(t, flow.trail)
            &&& flow.value == Some(false) ==> forall|j: int|
                0 <= j < windows.len() ==> #[trigger] asked_chromium(
                    flow.trail,
                    first,
                    windows,
                    j,
                    false,
                )
            &&& flow.value == Some(true) ==> 1 <= n <= windows.len() && asked_chromium(
                flow.trail,
                first,
                windows,
                n - 1,
                true,
            )
        }),
    decreases windows.len() - i,
{
    if i < windows.len() {
        let end = window::any_chromium_flow(t, windows, i).trail;
        let class = window::class_text_flow(t, windows[i as int]);
        let asked = window::is_chromium_flow(class.trail, class.value->0);
        let u = asked.trail;
        assert forall|j: int| 0 <= j < i implies #[trigger] asked_chromium(
            u,
            first,
            windows,
            j,
            false,
        ) by {
            assert(asked_chromium(t, first, windows, j, false));
            let c = first.calls.len() + 2 * j;
            assert(u.calls[c] == t.calls[c]);
            assert(u.calls[c + 1] == t.calls[c + 1]);
        }
        assert(asked_chromium(u, first, windows, i as int, (asked.value->0)));
        if !(asked.value->0) {
            lemma_any_chromium(u, first, windows, i + 1);
            lemma_extends(t, u, end);
        }
    }
}

/// Whether the descendant at index `j` of those listed was asked for its class
/// and that class judged, with this verdict.
pub open spec fn asked_chromium(
    u: Trail,
    first: Trail,
    windows: Seq<usize>,
    j: int,
    verdict: bool,
) -> bool {
    let c = first.calls.len() + 2 * j;
    &&& u.calls[c] == Request::Plain(Plain::ClassName { window: windows[j] })
    &&& u.calls[c + 1] == (Request::IsChromium {
        class: match u.replies[c].units_value() {
            Some(units) => text::decoded(units),
            None => Seq::empty(),
        },
    })
    &&& u.replies[c + 1].flag_value() == verdict
}

/// A window has a Chromium descendant where one of its descendants has a
/// Chromium class: the first such ends the search, and without one all of them
/// were asked.
pub proof fn law_chromium_is_searched_below(t: Trail, window: usize)
    requires
        window::has_chromium_descendant_flow(t, window).value is Some,
    ensures
        ({
            let flow = window::has_chromium_descendant_flow(t, window);
            let listed = t.after(Request::Plain(Plain::Descendants { window }));
            let windows = t.upcoming(0).handles_value();
            let n = (flow.trail.calls.len() - listed.calls.len()) / 2;
            &&& effects::extends(listed, flow.trail)
            &&& flow.value == Some(false) ==> forall|j: int|
                0 <= j < windows.len() ==> #[trigger] asked_chromium(
                    flow.trail,
                    listed,
                    windows,
                    j,
                    false,
                )
            &&& flow.value == Some(true) ==> 1 <= n <= windows.len() && asked_chromium(
                flow.trail,
                listed,
                windows,
                n - 1,
                true,
            )
        }),
{
    let listed = t.plain(Plain::Descendants { window });
    lemma_any_chromium(listed.trail, listed.trail, t.upcoming(0).handles_value(), 0);
}

/// The integrity level of a process is the last subauthority of the label in its
/// token. There is none where the token, its label or that subauthority cannot
/// be read.
pub proof fn law_integrity_is_the_last_subauthority(t: Trail, process: usize)
    requires
        window::integrity_level_flow(t, process).value is Some,
    ensures
        ({
            let flow = window::integrity_level_flow(t, process);
            let c = t.calls.len() as int;
            let token = t.upcoming(0).found_value();
            let count = t.upcoming(3).maybe_value();
            let readable = token is Some && t.upcoming(1).flag_value() && count is Some && count->0
                > 0;
            &&& flow.trail.calls[c] == Request::Plain(Plain::OpenToken { process })
            &&& !readable ==> flow.value == Some(None::<u32>)
            &&& readable ==> {
                &&& flow.trail.calls[c + 1] == Request::Plain(Plain::ReadLabel { token: token->0 })
                &&& flow.trail.calls[c + 2] == Request::Plain(Plain::Close { handle: token->0 })
                &&& flow.trail.calls[c + 3] == Request::Plain(Plain::SubAuthorityCount)
                &&& flow.trail.calls[c + 4] == Request::Plain(
                    Plain::SubAuthority { last: (count->0 - 1) as u32 },
                )
                &&& flow.trail.calls.len() == c + 5
                &&& flow.value == Some(t.upcoming(4).maybe_value())
            }
        }),
{
}

/// Input is held back from a window exactly where the levels of this process and
/// of the window's process are both known and the window's is the higher one.
pub proof fn law_higher_integrity_blocks(t: Trail, window: usize)
    requires
        window::uipi_block_flow(t, window).value is Some,
    ensures
        ({
            let flow = window::uipi_block_flow(t, window);
            let c = t.calls.len() as int;
            let pid = t.upcoming(0).word_value();
            let asked = t.after(Request::Plain(Plain::ProcessOf { window })).after(
                Request::Plain(Plain::OwnProcess),
            );
            let own = window::integrity_level_flow(asked, t.upcoming(1).handle_value());
            let opened = own.trail.after(Request::Plain(Plain::OpenProcess { pid }));
            let process = own.trail.upcoming(0).handle_value();
            let target = window::integrity_level_flow(opened, process);
            &&& flow.trail.calls[c] == Request::Plain(Plain::ProcessOf { window })
            &&& flow.value->0 is Some <==> {
                &&& pid != 0
                &&& own.value matches Some(Some(_))
                &&& process != 0
                &&& target.value matches Some(Some(_))
                &&& (target.value->0)->0 > (own.value->0)->0
            }
        }),
{
}

/// Names of the integrity levels, from the lowest up: each begins at a multiple
/// of 0x1000.
pub proof fn law_integrity_levels_are_named(rid: u32)
    ensures
        rid / 0x1000 == 0 ==> window::integrity_label(rid) == "untrusted"@,
        rid / 0x1000 == 1 ==> window::integrity_label(rid) == "low"@,
        rid / 0x1000 == 2 ==> window::integrity_label(rid) == "medium"@,
        rid / 0x1000 == 3 ==> window::integrity_label(rid) == "high"@,
        rid / 0x1000 > 3 ==> window::integrity_label(rid) == "system"@,
{
}

/// The file name of a path is its end after the last separator, or all of it
/// where it has none.
pub proof fn law_file_name_follows_the_last_separator(path: Seq<u16>) -> (start: nat)
    ensures
        start <= path.len(),
        window::file_name(path) == path.skip(start as int),
        start > 0 ==> path[start - 1] == 0x5c || path[start - 1] == 0x2f,
        forall|i: int| start <= i < path.len() ==> #[trigger] path[i] != 0x5c && path[i] != 0x2f,
    decreases path.len(),
{
    if path.len() == 0 || window::is_separator(path.last()) {
        assert(window::file_name(path) =~= path.skip(path.len() as int));
        path.len()
    } else {
        let head = path.drop_last();
        let start = law_file_name_follows_the_last_separator(head);
        assert(window::file_name(path) =~= path.skip(start as int));
        assert forall|i: int| start <= i < path.len() implies #[trigger] path[i] != 0x5c && path[i]
            != 0x2f by {
            if i < path.len() - 1 {
                assert(path[i] == head[i]);
            }
        }
        if start > 0 {
            assert(path[start - 1] == head[start - 1]);
        }
        start
    }
}

/// Two characters are the same but for their case exactly where they are equal
/// or the two cases of one ASCII letter.
pub proof fn law_case_is_ascii(a: int, b: int)
    ensures
        window::lower(a) == window::lower(b) <==> a == b || (0x41 <= a <= 0x5a && b == a + 0x20)
            || (0x41 <= b <= 0x5a && a == b + 0x20),
{
}

/// A file has a name where both are equally long and each character is the same
/// but for its case.
pub proof fn law_names_are_compared_whole(file: Seq<u16>, name: Seq<char>)
    ensures
        window::same_name(file, name) <==> file.len() == name.len() && forall|i: int|
            0 <= i < name.len() ==> {
                let a = file[i] as int;
                let b = #[trigger] name[i] as int;
                a == b || (0x41 <= a <= 0x5a && b == a + 0x20) || (0x41 <= b <= 0x5a && a == b
                    + 0x20)
            },
{
    if window::same_name(file, name) {
        assert forall|i: int| 0 <= i < name.len() implies {
            let a = file[i] as int;
            let b = #[trigger] name[i] as int;
            a == b || (0x41 <= a <= 0x5a && b == a + 0x20) || (0x41 <= b <= 0x5a && a == b + 0x20)
        } by {
            assert(window::lower(file[i] as int) == window::lower(name[i] as int));
        }
    }
    if file.len() == name.len() && forall|i: int|
        0 <= i < name.len() ==> {
            let a = file[i] as int;
            let b = #[trigger] name[i] as int;
            a == b || (0x41 <= a <= 0x5a && b == a + 0x20) || (0x41 <= b <= 0x5a && a == b + 0x20)
        } {
        assert forall|i: int| 0 <= i < file.len() implies window::lower(#[trigger] file[i] as int)
            == window::lower(name[i] as int) by {
            assert(name[i] == name[i]);
        }
    }
}

/// A window is run by one of the named executables where the path of its process
/// can be read and ends in a file with one of the names.
pub proof fn law_executable_is_asked_for(t: Trail, window: usize, names: Seq<&str>)
    requires
        window::executable_is_any_flow(t, window, names).value is Some,
    ensures
        ({
            let flow = window::executable_is_any_flow(t, window, names);
            let c = t.calls.len() as int;
            let pid = t.upcoming(0).word_value();
            let process = t.upcoming(1).handle_value();
            let path = t.upcoming(2).units_value();
            &&& flow.trail.calls[c] == Request::Plain(Plain::ProcessOf { window })
            &&& pid != 0 ==> flow.trail.calls[c + 1] == Request::Plain(Plain::OpenProcess { pid })
            &&& pid != 0 && process != 0 ==> flow.trail.calls[c + 2] == Request::Plain(
                Plain::ImageName { process },
            ) && flow.trail.calls[c + 3] == Request::Plain(Plain::Close { handle: process })
            &&& flow.value->0 <==> pid != 0 && process != 0 && path is Some && exists|i: int|
                0 <= i < names.len() && window::same_name(
                    window::file_name(path->0),
                    #[trigger] names[i]@,
                )
        }),
{
}

/// A window hosts XAML where its class is one of the XAML classes, or else its
/// executable is one of the XAML executables.
pub proof fn law_xaml_host_by_class_or_executable(t: Trail, root: usize)
    requires
        window::is_xaml_host_flow(t, root).value is Some,
    ensures
        ({
            let flow = window::is_xaml_host_flow(t, root);
            let named = t.after(Request::Plain(Plain::ClassName { window: root }));
            let class = match t.upcoming(0).units_value() {
                Some(units) => text::decoded(units),
                None => Seq::empty(),
            };
            let known = class == "ApplicationFrameWindow"@ || class
                == "WinUIDesktopWin32WindowClass"@ || class == "Windows.UI.Core.CoreWindow"@
                || class == "Microsoft.UI.Content.DesktopChildSiteBridge"@;
            let names = seq![
                "notepad.exe",
                "calculatorapp.exe",
                "calc.exe",
                "applicationframehost.exe",
                "photos.exe",
                "systemsettings.exe",
            ];
            &&& known ==> flow == named.give(true)
            &&& !known ==> flow == window::executable_is_any_flow(named, root, names)
        }),
{
}

/// The threads of a window tree come in the order in which they first occur:
/// one that comes before another occurs before any occurrence of that other.
pub proof fn law_threads_keep_their_order(first: u32, more: Seq<u32>, i: int, j: int) -> (at: int)
    requires
        1 <= i < j < window::merged(seq![first], more).len(),
    ensures
        0 <= at < more.len(),
        more[at] == window::merged(seq![first], more)[i],
        forall|k: int|
            0 <= k <= at ==> #[trigger] more[k] != window::merged(seq![first], more)[j],
    decreases more.len(),
{
    let all = window::merged(seq![first], more);
    let rest = more.drop_last();
    let before = window::merged(seq![first], rest);
    window::law_threads_are_distinct(first, more);
    window::law_threads_are_distinct(first, rest);
    if more.len() == 0 {
        0
    } else if j < before.len() {
        let at = law_threads_keep_their_order(first, rest, i, j);
        assert(all[i] == before[i] && all[j] == before[j]);
        assert forall|k: int| 0 <= k <= at implies #[trigger] more[k] != all[j] by {
            assert(rest[k] == more[k]);
        }
        assert(more[at] == rest[at]);
        at
    } else {
        assert(all[i] == before[i]);
        assert(before.contains(before[i]));
        assert(before[i] != first) by {
            assert(before[0] == first);
        }
        assert(rest.contains(before[i]));
        let at = rest.index_of(before[i]);
        assert(more[at] == rest[at]);
        assert forall|k: int| 0 <= k <= at implies #[trigger] more[k] != all[j] by {
            if more[k] == all[j] {
                assert(rest[k] == more[k]);
                assert(rest.contains(all[j]));
                assert(all[j] != 0);
                assert(before.contains(all[j]));
            }
        }
        at
    }
}

} // verus!
