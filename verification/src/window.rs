//! Facts about window handles, shared by posted input, injected input and UI
//! Automation.

use vstd::prelude::*;
use vstd::string::*;

use crate::request::Point;
use crate::tape::{Call, Flow, Plain, Reply, Request, Tape, Trail};
use crate::text::{decimal, decode_utf16_lossy};
use crate::win32::{
    CWP_SKIPDISABLED, CWP_SKIPINVISIBLE, CWP_SKIPTRANSPARENT, GA_PARENT, GA_ROOT,
};
use crate::{tape, text};

verus! {

/// Levels of nesting that are searched for the window under a point.
pub const MAX_NESTING: usize = 32;

/// Parent links that are counted between a window and its ancestor.
pub const MAX_DEPTH: usize = 64;

/// Top-level window that owns `window`, or `window` itself when it has none.
pub open spec fn root_flow(t: Trail, window: usize) -> Flow<usize> {
    t.plain(Plain::Ancestor { window, relation: GA_ROOT }).bind(
        |root: Reply, t: Trail|
            t.give(
                if root.handle_value() == 0 {
                    window
                } else {
                    root.handle_value()
                },
            ),
    )
}

/// Top-level window that owns `window`, or `window` itself when it has none.
pub fn root(tape: &mut Tape, window: usize) -> (root: Option<usize>)
    ensures
        Flow::of(final(tape)@, root) == root_flow(old(tape)@, window),
{
    let root = tape.plain(Plain::Ancestor { window, relation: GA_ROOT })?.handle();
    if root == 0 {
        Some(window)
    } else {
        Some(root)
    }
}

/// Class name of `window`, empty when Win32 cannot report one.
pub open spec fn class_text_flow(t: Trail, window: usize) -> Flow<Seq<char>> {
    t.plain(Plain::ClassName { window }).bind(
        |name: Reply, t: Trail|
            t.give(
                match name.units_value() {
                    Some(units) => text::decoded(units),
                    None => Seq::empty(),
                },
            ),
    )
}

/// Class name of `window`, empty when Win32 cannot report one.
pub fn with_class_name(tape: &mut Tape, window: usize) -> (class: Option<String>)
    ensures
        Flow::of(final(tape)@, tape::read(class)) == class_text_flow(old(tape)@, window),
{
    match tape.plain(Plain::ClassName { window })?.units() {
        Some(units) => Some(decode_utf16_lossy(units)),
        None => Some(String::new()),
    }
}

/// Class name of `window`, or `<unknown>` when Win32 cannot report one.
pub open spec fn class_name_flow(t: Trail, window: usize) -> Flow<Seq<char>> {
    class_text_flow(t, window).bind(
        |class: Seq<char>, t: Trail|
            t.give(
                if class.len() == 0 {
                    "<unknown>"@
                } else {
                    class
                },
            ),
    )
}

/// Class name of `window`, or `<unknown>` when Win32 cannot report one.
pub fn class_name(tape: &mut Tape, window: usize) -> (class: Option<String>)
    ensures
        Flow::of(final(tape)@, tape::read(class)) == class_name_flow(old(tape)@, window),
{
    let class = with_class_name(tape, window)?;
    if class.as_str().is_empty() {
        Some("<unknown>".to_owned())
    } else {
        Some(class)
    }
}

/// Whether `window`'s top-level window currently owns the foreground.
pub open spec fn owns_foreground_flow(t: Trail, window: usize) -> Flow<bool> {
    t.plain(Plain::ForegroundWindow).bind(
        |foreground: Reply, t: Trail|
            if foreground.handle_value() == 0 {
                t.give(false)
            } else {
                root_flow(t, foreground.handle_value()).bind(
                    |owner: usize, t: Trail|
                        root_flow(t, window).bind(|root: usize, t: Trail| t.give(owner == root)),
                )
            },
    )
}

/// Whether `window`'s top-level window currently owns the foreground.
pub fn owns_foreground(tape: &mut Tape, window: usize) -> (owns: Option<bool>)
    ensures
        Flow::of(final(tape)@, owns) == owns_foreground_flow(old(tape)@, window),
{
    let foreground = tape.plain(Plain::ForegroundWindow)?.handle();
    if foreground == 0 {
        return Some(false);
    }
    let owner = root(tape, foreground)?;
    let own = root(tape, window)?;
    Some(owner == own)
}

/// Whether a class is a Chromium or CEF one.
pub open spec fn is_chromium_flow(t: Trail, class: Seq<char>) -> Flow<bool> {
    t.ask(Request::IsChromium { class }).bind(
        |answer: Reply, t: Trail| t.give(answer.flag_value()),
    )
}

/// Whether a class is a Chromium or CEF one.
pub fn is_chromium(tape: &mut Tape, class: String) -> (chromium: Option<bool>)
    ensures
        Flow::of(final(tape)@, chromium) == is_chromium_flow(old(tape)@, class@),
{
    let answer = tape.ask(Call::IsChromium { class })?.flag();
    Some(answer)
}

/// Whether one of the windows from index `i` on has a Chromium or CEF class.
/// The first that has one ends the search.
pub open spec fn any_chromium_flow(t: Trail, windows: Seq<usize>, i: nat) -> Flow<bool>
    decreases windows.len() - i,
{
    if i >= windows.len() {
        t.give(false)
    } else {
        class_text_flow(t, windows[i as int]).bind(
            |class: Seq<char>, t: Trail|
                is_chromium_flow(t, class).bind(
                    |found: bool, t: Trail|
                        if found {
                            t.give(true)
                        } else {
                            any_chromium_flow(t, windows, i + 1)
                        },
                ),
        )
    }
}

/// Whether a Chromium or CEF renderer lives in a descendant of `window`.
pub open spec fn has_chromium_descendant_flow(t: Trail, window: usize) -> Flow<bool> {
    t.plain(Plain::Descendants { window }).bind(
        |descendants: Reply, t: Trail| any_chromium_flow(t, descendants.handles_value(), 0),
    )
}

/// Whether a Chromium or CEF renderer lives in a descendant of `window`.
pub fn has_chromium_descendant(tape: &mut Tape, window: usize) -> (found: Option<bool>)
    ensures
        Flow::of(final(tape)@, found) == has_chromium_descendant_flow(old(tape)@, window),
{
    let descendants = tape.plain(Plain::Descendants { window })?.handles();
    let mut i: usize = 0;
    while i < descendants.len()
        invariant
            i <= descendants.len(),
            any_chromium_flow(tape@, descendants@, i as nat) == has_chromium_descendant_flow(
                old(tape)@,
                window,
            ),
        decreases descendants.len() - i,
    {
        let class = with_class_name(tape, descendants[i])?;
        if is_chromium(tape, class)? {
            return Some(true);
        }
        i = i + 1;
    }
    Some(false)
}

/// Goes down from `current`, where the point is `client`, to the deepest
/// visible, enabled descendant of `root` under `screen`, over at most `left`
/// levels.
pub open spec fn descend_flow(
    t: Trail,
    root: usize,
    screen: Point,
    current: usize,
    client: Point,
    left: nat,
) -> Flow<(usize, Point)>
    decreases left,
{
    if left == 0 {
        t.give((current, client))
    } else {
        t.plain(
            Plain::ChildFromPoint {
                window: current,
                point: client,
                flags: CWP_SKIPINVISIBLE | CWP_SKIPDISABLED | CWP_SKIPTRANSPARENT,
            },
        ).bind(
            |child: Reply, t: Trail|
                if child.handle_value() == 0 || child.handle_value() == current {
                    t.give((current, client))
                } else {
                    t.plain(Plain::IsChild { parent: root, window: child.handle_value() }).bind(
                        |inside: Reply, t: Trail|
                            if !inside.flag_value() {
                                t.give((current, client))
                            } else {
                                t.plain(
                                    Plain::ScreenToClient {
                                        window: child.handle_value(),
                                        point: screen,
                                    },
                                ).bind(
                                    |mapped: Reply, t: Trail|
                                        match mapped.point_value() {
                                            Some(point) => descend_flow(
                                                t,
                                                root,
                                                screen,
                                                child.handle_value(),
                                                point,
                                                (left - 1) as nat,
                                            ),
                                            None => t.give((current, client)),
                                        },
                                )
                            },
                    )
                },
        )
    }
}

/// Deepest visible, enabled descendant of `root` under a physical screen
/// point, with the point in that descendant's client coordinates.
pub open spec fn deepest_child_flow(t: Trail, root: usize, screen: Point) -> Flow<
    Option<(usize, Point)>,
> {
    t.plain(Plain::ScreenToClient { window: root, point: screen }).bind(
        |mapped: Reply, t: Trail|
            match mapped.point_value() {
                Some(client) => descend_flow(
                    t,
                    root,
                    screen,
                    root,
                    client,
                    MAX_NESTING as nat,
                ).bind(|found: (usize, Point), t: Trail| t.give(Some(found))),
                None => t.give(None),
            },
    )
}

/// Deepest visible, enabled descendant of `root` under a physical screen
/// point, with the point in that descendant's client coordinates. `None` when
/// `root` cannot map screen coordinates.
///
/// The search goes at most [`MAX_NESTING`] levels, 32, below `root`, and stops
/// before a child that has left `root` or cannot map the point.
///
/// Posting to the control that owns the point keeps button presses out of the
/// top-level frame, which may activate itself in response, and lets
/// child-window controls see input for the region they own.
pub fn deepest_child(tape: &mut Tape, root: usize, screen: Point) -> (child: Option<
    Option<(usize, Point)>,
>)
    ensures
        Flow::of(final(tape)@, child) == deepest_child_flow(old(tape)@, root, screen),
{
    let place = tape.plain(Plain::ScreenToClient { window: root, point: screen })?.point();
    let mut client = match place {
        Some(client) => client,
        None => {
            return Some(None);
        },
    };
    let mut current = root;
    let mut left: usize = MAX_NESTING;
    while left > 0
        invariant
            descend_flow(tape@, root, screen, current, client, left as nat).bind(
                |found: (usize, Point), t: Trail| t.give(Some(found)),
            ) == deepest_child_flow(old(tape)@, root, screen),
        decreases left,
    {
        let child = tape.plain(
            Plain::ChildFromPoint {
                window: current,
                point: client,
                flags: CWP_SKIPINVISIBLE | CWP_SKIPDISABLED | CWP_SKIPTRANSPARENT,
            },
        )?.handle();
        if child == 0 || child == current {
            return Some(Some((current, client)));
        }
        if !tape.plain(Plain::IsChild { parent: root, window: child })?.flag() {
            return Some(Some((current, client)));
        }
        match tape.plain(Plain::ScreenToClient { window: child, point: screen })?.point() {
            Some(point) => {
                current = child;
                client = point;
            },
            None => {
                return Some(Some((current, client)));
            },
        }
        left = left - 1;
    }
    Some(Some((current, client)))
}

/// Number of parent links between `current`, which is `depth` links above the
/// window the count began at, and `ancestor`, added to `depth`.
pub open spec fn depth_flow(t: Trail, ancestor: usize, current: usize, depth: nat) -> Flow<nat>
    decreases MAX_DEPTH - depth,
{
    if current == ancestor || depth >= MAX_DEPTH {
        t.give(depth)
    } else {
        t.plain(Plain::Ancestor { window: current, relation: GA_PARENT }).bind(
            |parent: Reply, t: Trail|
                if parent.handle_value() == 0 {
                    t.give(depth)
                } else {
                    depth_flow(t, ancestor, parent.handle_value(), depth + 1)
                },
        )
    }
}

/// A machine word as a natural number.
pub open spec fn counted(value: Option<usize>) -> Option<nat> {
    match value {
        Some(count) => Some(count as nat),
        None => None,
    }
}

/// Number of parent links between `descendant` and `ancestor`. At most
/// [`MAX_DEPTH`] links, 64, are counted.
pub fn depth_below(tape: &mut Tape, ancestor: usize, descendant: usize) -> (depth: Option<usize>)
    ensures
        Flow::of(final(tape)@, counted(depth)) == depth_flow(
            old(tape)@,
            ancestor,
            descendant,
            0,
        ),
{
    let mut depth: usize = 0;
    let mut current = descendant;
    while current != ancestor && depth < MAX_DEPTH
        invariant
            depth <= MAX_DEPTH,
            depth_flow(tape@, ancestor, current, depth as nat) == depth_flow(
                old(tape)@,
                ancestor,
                descendant,
                0,
            ),
        decreases MAX_DEPTH - depth,
    {
        current = tape.plain(Plain::Ancestor { window: current, relation: GA_PARENT })?.handle();
        if current == 0 {
            return Some(depth);
        }
        depth = depth + 1;
    }
    Some(depth)
}

/// `threads` and then each thread of `more` that is new and not zero, in order.
pub open spec fn merged(threads: Seq<u32>, more: Seq<u32>) -> Seq<u32>
    decreases more.len(),
{
    if more.len() == 0 {
        threads
    } else {
        let before = merged(threads, more.drop_last());
        if more.last() != 0 && !before.contains(more.last()) {
            before.push(more.last())
        } else {
            before
        }
    }
}

/// Whether `values` holds `value`.
fn holds(values: &Vec<u32>, value: u32) -> (held: bool)
    ensures
        held == values@.contains(value),
{
    let mut i: usize = 0;
    while i < values.len()
        invariant
            i <= values.len(),
            forall|j: int| 0 <= j < i ==> values@[j] != value,
        decreases values.len() - i,
    {
        if values[i] == value {
            return true;
        }
        i = i + 1;
    }
    false
}

/// Threads that own part of a window tree: the root's first, then each other
/// thread once, in the order of the enumeration.
pub fn distinct_threads(first: u32, more: &[u32]) -> (threads: Vec<u32>)
    ensures
        threads@ == merged(seq![first], more@),
{
    let mut threads: Vec<u32> = Vec::new();
    threads.push(first);
    assert(threads@ =~= seq![first]);
    let mut i: usize = 0;
    assert(more@.take(0) =~= Seq::empty());
    while i < more.len()
        invariant
            i <= more.len(),
            threads@ == merged(seq![first], more@.take(i as int)),
        decreases more.len() - i,
    {
        assert(more@.take(i + 1).drop_last() =~= more@.take(i as int));
        let thread = more[i];
        if thread != 0 && !holds(&threads, thread) {
            threads.push(thread);
        }
        i = i + 1;
    }
    assert(more@.take(more@.len() as int) =~= more@);
    threads
}

/// `best`, or the newcomer where it lies deeper.
pub open spec fn deeper_of(best: Option<(nat, usize)>, depth: nat, focused: usize) -> Option<
    (nat, usize),
> {
    match best {
        Some(found) => if depth > found.0 {
            Some((depth, focused))
        } else {
            best
        },
        None => Some((depth, focused)),
    }
}

/// Deepest focused descendant of `root` among `best`, a depth and a window,
/// and the threads from index `i` on. Of two that are equally deep the earlier
/// stays.
pub open spec fn search_focus_flow(
    t: Trail,
    root: usize,
    threads: Seq<u32>,
    i: nat,
    best: Option<(nat, usize)>,
) -> Flow<Option<usize>>
    decreases threads.len() - i,
{
    if i >= threads.len() {
        t.give(
            match best {
                Some(found) => Some(found.1),
                None => None,
            },
        )
    } else {
        t.plain(Plain::FocusOf { thread: threads[i as int] }).bind(
            |info: Reply, t: Trail|
                match info.found_value() {
                    None => search_focus_flow(t, root, threads, i + 1, best),
                    Some(focused) => if focused == 0 || focused == root {
                        search_focus_flow(t, root, threads, i + 1, best)
                    } else {
                        t.plain(Plain::IsChild { parent: root, window: focused }).bind(
                            |inside: Reply, t: Trail|
                                if !inside.flag_value() {
                                    search_focus_flow(t, root, threads, i + 1, best)
                                } else {
                                    depth_flow(t, root, focused, 0).bind(
                                        |depth: nat, t: Trail|
                                            search_focus_flow(
                                                t,
                                                root,
                                                threads,
                                                i + 1,
                                                deeper_of(best, depth, focused),
                                            ),
                                    )
                                },
                        )
                    },
                },
        )
    }
}

/// Focused descendant of `root` across every UI thread that owns part of its
/// window tree.
pub open spec fn focused_descendant_flow(t: Trail, root: usize) -> Flow<Option<usize>> {
    t.plain(Plain::ThreadOf { window: root }).bind(
        |first: Reply, t: Trail|
            if first.word_value() == 0 {
                t.give(None)
            } else {
                t.plain(Plain::DescendantThreads { window: root }).bind(
                    |more: Reply, t: Trail|
                        search_focus_flow(
                            t,
                            root,
                            merged(seq![first.word_value()], more.words_value()),
                            0,
                            None,
                        ),
                )
            },
    )
}

/// A depth and a window as contracts see them.
pub open spec fn ranked(best: Option<(usize, usize)>) -> Option<(nat, usize)> {
    match best {
        Some(found) => Some((found.0 as nat, found.1)),
        None => None,
    }
}

/// Focused descendant of `root` across every UI thread that owns part of its
/// window tree.
///
/// Top-level window procedures do not forward keyboard messages to embedded
/// editors (Scintilla, `RichEdit`, `WebView2`), and embedded renderers often
/// keep their focused child on another thread than the frame, so each
/// descendant thread is consulted and the deepest focused descendant wins.
pub fn focused_descendant(tape: &mut Tape, root: usize) -> (focused: Option<Option<usize>>)
    ensures
        Flow::of(final(tape)@, focused) == focused_descendant_flow(old(tape)@, root),
{
    let first = tape.plain(Plain::ThreadOf { window: root })?.word();
    if first == 0 {
        return Some(None);
    }
    let more = tape.plain(Plain::DescendantThreads { window: root })?.words();
    let threads = distinct_threads(first, more.as_slice());
    let mut best: Option<(usize, usize)> = None;
    let mut i: usize = 0;
    while i < threads.len()
        invariant
            i <= threads.len(),
            search_focus_flow(tape@, root, threads@, i as nat, ranked(best))
                == focused_descendant_flow(old(tape)@, root),
        decreases threads.len() - i,
    {
        if let Some(focused) = tape.plain(Plain::FocusOf { thread: threads[i] })?.found() {
            if focused != 0 && focused != root {
                if tape.plain(Plain::IsChild { parent: root, window: focused })?.flag() {
                    let depth = depth_below(tape, root, focused)?;
                    let deeper = match best {
                        Some(found) => depth > found.0,
                        None => true,
                    };
                    if deeper {
                        best = Some((depth, focused));
                    }
                }
            }
        }
        i = i + 1;
    }
    match best {
        Some(found) => Some(Some(found.1)),
        None => Some(None),
    }
}

/// Name of the integrity level with this identifier.
pub open spec fn integrity_label(rid: u32) -> Seq<char> {
    if rid < 0x1000 {
        "untrusted"@
    } else if rid < 0x2000 {
        "low"@
    } else if rid < 0x3000 {
        "medium"@
    } else if rid < 0x4000 {
        "high"@
    } else {
        "system"@
    }
}

/// Name of the integrity level with this identifier.
pub fn integrity_name(rid: u32) -> (name: &'static str)
    ensures
        name@ == integrity_label(rid),
{
    if rid < 0x1000 {
        "untrusted"
    } else if rid < 0x2000 {
        "low"
    } else if rid < 0x3000 {
        "medium"
    } else if rid < 0x4000 {
        "high"
    } else {
        "system"
    }
}

/// Mandatory integrity level of `process`: the last subauthority of the label
/// in its token.
pub open spec fn integrity_level_flow(t: Trail, process: usize) -> Flow<Option<u32>> {
    t.plain(Plain::OpenToken { process }).bind(
        |opened: Reply, t: Trail|
            match opened.found_value() {
                None => t.give(None),
                Some(token) => t.plain(Plain::ReadLabel { token }).bind(
                    |read: Reply, t: Trail|
                        t.plain(Plain::Close { handle: token }).bind(
                            |_closed: Reply, t: Trail|
                                if !read.flag_value() {
                                    t.give(None)
                                } else {
                                    t.plain(Plain::SubAuthorityCount).bind(
                                        |count: Reply, t: Trail|
                                            match count.maybe_value() {
                                                None => t.give(None),
                                                Some(count) => if count == 0 {
                                                    t.give(None)
                                                } else {
                                                    t.plain(
                                                        Plain::SubAuthority {
                                                            last: (count - 1) as u32,
                                                        },
                                                    ).bind(
                                                        |rid: Reply, t: Trail|
                                                            t.give(rid.maybe_value()),
                                                    )
                                                },
                                            },
                                    )
                                },
                        ),
                ),
            },
    )
}

/// Mandatory integrity level of `process`, or `None` when its token is
/// unreadable.
pub fn integrity_level(tape: &mut Tape, process: usize) -> (rid: Option<Option<u32>>)
    ensures
        Flow::of(final(tape)@, rid) == integrity_level_flow(old(tape)@, process),
{
    let token = match tape.plain(Plain::OpenToken { process })?.found() {
        Some(token) => token,
        None => {
            return Some(None);
        },
    };
    let read = tape.plain(Plain::ReadLabel { token })?.flag();
    tape.plain(Plain::Close { handle: token })?;
    if !read {
        return Some(None);
    }
    let count = match tape.plain(Plain::SubAuthorityCount)?.maybe() {
        Some(count) => count,
        None => {
            return Some(None);
        },
    };
    if count == 0 {
        return Some(None);
    }
    let rid = tape.plain(Plain::SubAuthority { last: count - 1 })?.maybe();
    Some(rid)
}

/// Why input of a process at level `own` does not reach one at level `target`.
pub open spec fn uipi_reason(pid: u32, own: u32, target: u32) -> Seq<char> {
    "process "@ + text::digits(pid as nat) + " runs at "@ + integrity_label(target)
        + " integrity, above this process's "@ + integrity_label(own)
        + " integrity, so Windows UIPI discards input sent to it; run omp at the same integrity level to drive it"@
}

/// Why User Interface Privilege Isolation discards this process's input to
/// `window`: its process runs at a higher integrity level.
pub open spec fn uipi_block_flow(t: Trail, window: usize) -> Flow<Option<Seq<char>>> {
    t.plain(Plain::ProcessOf { window }).bind(
        |pid: Reply, t: Trail|
            if pid.word_value() == 0 {
                t.give(None)
            } else {
                t.plain(Plain::OwnProcess).bind(
                    |own: Reply, t: Trail|
                        integrity_level_flow(t, own.handle_value()).bind(
                            |own: Option<u32>, t: Trail|
                                match own {
                                    None => t.give(None),
                                    Some(own) => target_block_flow(t, pid.word_value(), own),
                                },
                        ),
                )
            },
    )
}

/// The part of [`uipi_block_flow`] that looks at the target's process.
pub open spec fn target_block_flow(t: Trail, pid: u32, own: u32) -> Flow<Option<Seq<char>>> {
    t.plain(Plain::OpenProcess { pid }).bind(
        |process: Reply, t: Trail|
            if process.handle_value() == 0 {
                t.give(None)
            } else {
                integrity_level_flow(t, process.handle_value()).bind(
                    |target: Option<u32>, t: Trail|
                        t.plain(Plain::Close { handle: process.handle_value() }).bind(
                            |_closed: Reply, t: Trail|
                                t.give(
                                    match target {
                                        Some(target) => if target > own {
                                            Some(uipi_reason(pid, own, target))
                                        } else {
                                            None
                                        },
                                        None => None,
                                    },
                                ),
                        ),
                )
            },
    )
}

/// An optional text with its characters as contracts see them.
pub open spec fn read_reason(value: Option<Option<String>>) -> Option<Option<Seq<char>>> {
    match value {
        Some(reason) => Some(tape::read(reason)),
        None => None,
    }
}

/// Explains why User Interface Privilege Isolation discards this process's
/// input to `window`, or `None` when the target does not run at a higher
/// integrity level. Posted and injected input to a higher-integrity window
/// reports success but never arrives.
pub fn uipi_block(tape: &mut Tape, window: usize) -> (reason: Option<Option<String>>)
    ensures
        Flow::of(final(tape)@, read_reason(reason)) == uipi_block_flow(old(tape)@, window),
{
    let pid = tape.plain(Plain::ProcessOf { window })?.word();
    if pid == 0 {
        return Some(None);
    }
    let this = tape.plain(Plain::OwnProcess)?.handle();
    let own = match integrity_level(tape, this)? {
        Some(own) => own,
        None => {
            return Some(None);
        },
    };
    let process = tape.plain(Plain::OpenProcess { pid })?.handle();
    if process == 0 {
        return Some(None);
    }
    let target = integrity_level(tape, process)?;
    tape.plain(Plain::Close { handle: process })?;
    match target {
        Some(target) => {
            if target > own {
                let mut reason = "process ".to_owned();
                reason.append(decimal(pid as u64).as_str());
                reason.append(" runs at ");
                reason.append(integrity_name(target));
                reason.append(" integrity, above this process's ");
                reason.append(integrity_name(own));
                reason.append(
                    " integrity, so Windows UIPI discards input sent to it; run omp at the same integrity level to drive it",
                );
                Some(Some(reason))
            } else {
                Some(None)
            }
        },
        None => Some(None),
    }
}

/// Whether a code unit separates the parts of a path.
pub open spec fn is_separator(unit: u16) -> bool {
    unit == 0x5c || unit == 0x2f
}

/// What follows the last separator of a path.
pub open spec fn file_name(path: Seq<u16>) -> Seq<u16>
    decreases path.len(),
{
    if path.len() == 0 || is_separator(path.last()) {
        Seq::empty()
    } else {
        file_name(path.drop_last()).push(path.last())
    }
}

/// An ASCII letter in lower case, and any other character as it is.
pub open spec fn lower(c: int) -> int {
    if 0x41 <= c <= 0x5a {
        c + 0x20
    } else {
        c
    }
}

/// Whether `name` is made of ASCII characters.
pub open spec fn is_ascii_name(name: Seq<char>) -> bool {
    forall|i: int| 0 <= i < name.len() ==> (#[trigger] name[i] as int) < 0x80
}

/// Whether a file name is `name`, without regard to the case of ASCII letters.
pub open spec fn same_name(file: Seq<u16>, name: Seq<char>) -> bool {
    file.len() == name.len() && forall|i: int|
        0 <= i < file.len() ==> lower(#[trigger] file[i] as int) == lower(name[i] as int)
}

/// Whether the path ends in a file that has one of the names.
pub open spec fn runs_any(path: Seq<u16>, names: Seq<&str>) -> bool {
    exists|i: int| 0 <= i < names.len() && same_name(file_name(path), #[trigger] names[i]@)
}

/// Index of the first code unit of the file name of a path.
fn file_name_start(path: &[u16]) -> (start: usize)
    ensures
        start <= path@.len(),
        path@.skip(start as int) == file_name(path@),
{
    let mut start: usize = path.len();
    assert(path@.take(start as int) =~= path@);
    assert(file_name(path@.take(start as int)) + path@.skip(start as int) =~= file_name(path@));
    while start > 0 && path[start - 1] != 0x5c && path[start - 1] != 0x2f
        invariant
            start <= path.len(),
            file_name(path@.take(start as int)) + path@.skip(start as int) == file_name(path@),
        decreases start,
    {
        proof {
            let head = path@.take(start as int);
            assert(head.drop_last() =~= path@.take(start - 1));
            assert(file_name(head.drop_last()).push(head.last()) + path@.skip(start as int)
                =~= file_name(head.drop_last()) + path@.skip(start - 1));
        }
        start = start - 1;
    }
    assert(file_name(path@.take(start as int)) =~= Seq::empty());
    assert(Seq::<u16>::empty() + path@.skip(start as int) =~= path@.skip(start as int));
    start
}

/// An ASCII letter in lower case, and any other character as it is.
fn lower_unit(unit: u16) -> (l: u32)
    ensures
        l == lower(unit as int),
{
    if 0x41 <= unit && unit <= 0x5a {
        unit as u32 + 0x20
    } else {
        unit as u32
    }
}

/// An ASCII letter in lower case, and any other character as it is.
fn lower_char(c: char) -> (l: u32)
    ensures
        l == lower(c as int),
{
    if 'A' <= c && c <= 'Z' {
        c as u32 + 0x20
    } else {
        c as u32
    }
}

/// Whether the file name that begins at `start` is `name`.
fn is_named(path: &[u16], start: usize, name: &str) -> (same: bool)
    requires
        start <= path@.len(),
    ensures
        same == same_name(path@.skip(start as int), name@),
{
    let chars = crate::text::characters(name);
    let ghost file = path@.skip(start as int);
    if path.len() - start != chars.len() {
        return false;
    }
    let mut i: usize = 0;
    while i < chars.len()
        invariant
            i <= chars.len(),
            chars@ == name@,
            start <= path@.len(),
            file == path@.skip(start as int),
            path.len() - start == chars.len(),
            forall|j: int| 0 <= j < i ==> lower(#[trigger] file[j] as int) == lower(name@[j] as int),
        decreases chars.len() - i,
    {
        assert(file[i as int] == path@[start + i]);
        if lower_unit(path[start + i]) != lower_char(chars[i]) {
            return false;
        }
        i = i + 1;
    }
    true
}

/// Whether the path of an executable ends in one of the ASCII `names`,
/// compared case-insensitively.
pub fn path_is_any(path: &[u16], names: &[&str]) -> (any: bool)
    requires
        forall|i: int| 0 <= i < names@.len() ==> is_ascii_name(#[trigger] names@[i]@),
    ensures
        any == runs_any(path@, names@),
{
    let start = file_name_start(path);
    let mut i: usize = 0;
    while i < names.len()
        invariant
            i <= names.len(),
            start <= path@.len(),
            path@.skip(start as int) == file_name(path@),
            forall|j: int|
                0 <= j < i ==> !same_name(file_name(path@), #[trigger] names@[j]@),
        decreases names.len() - i,
    {
        if is_named(path, start, names[i]) {
            assert(same_name(file_name(path@), names@[i as int]@));
            return true;
        }
        i = i + 1;
    }
    false
}

/// Whether the executable owning `window` has one of the `names`.
pub open spec fn executable_is_any_flow(t: Trail, window: usize, names: Seq<&str>) -> Flow<bool> {
    t.plain(Plain::ProcessOf { window }).bind(
        |pid: Reply, t: Trail|
            if pid.word_value() == 0 {
                t.give(false)
            } else {
                t.plain(Plain::OpenProcess { pid: pid.word_value() }).bind(
                    |process: Reply, t: Trail|
                        if process.handle_value() == 0 {
                            t.give(false)
                        } else {
                            t.plain(Plain::ImageName { process: process.handle_value() }).bind(
                                |path: Reply, t: Trail|
                                    t.plain(Plain::Close { handle: process.handle_value() }).bind(
                                        |_closed: Reply, t: Trail|
                                            t.give(
                                                match path.units_value() {
                                                    Some(path) => runs_any(path, names),
                                                    None => false,
                                                },
                                            ),
                                    ),
                            )
                        },
                )
            },
    )
}

/// Whether the executable owning `window` has one of the ASCII `names`,
/// compared case-insensitively against the image path's file name.
pub fn executable_is_any(tape: &mut Tape, window: usize, names: &[&str]) -> (any: Option<bool>)
    requires
        forall|i: int| 0 <= i < names@.len() ==> is_ascii_name(#[trigger] names@[i]@),
    ensures
        Flow::of(final(tape)@, any) == executable_is_any_flow(old(tape)@, window, names@),
{
    let pid = tape.plain(Plain::ProcessOf { window })?.word();
    if pid == 0 {
        return Some(false);
    }
    let process = tape.plain(Plain::OpenProcess { pid })?.handle();
    if process == 0 {
        return Some(false);
    }
    let path = tape.plain(Plain::ImageName { process })?.units();
    tape.plain(Plain::Close { handle: process })?;
    match path {
        Some(path) => Some(path_is_any(path, names)),
        None => Some(false),
    }
}

/// Top-level classes that host XAML/UWP/WinUI content.
pub open spec fn is_xaml_class(class: Seq<char>) -> bool {
    ||| class == "ApplicationFrameWindow"@
    ||| class == "WinUIDesktopWin32WindowClass"@
    ||| class == "Windows.UI.Core.CoreWindow"@
    ||| class == "Microsoft.UI.Content.DesktopChildSiteBridge"@
}

/// Top-level classes that host XAML/UWP/WinUI content.
pub fn is_xaml_host_class(class: &String) -> (hosts: bool)
    ensures
        hosts == is_xaml_class(class@),
{
    *class == "ApplicationFrameWindow".to_owned() || *class
        == "WinUIDesktopWin32WindowClass".to_owned() || *class
        == "Windows.UI.Core.CoreWindow".to_owned() || *class
        == "Microsoft.UI.Content.DesktopChildSiteBridge".to_owned()
}

/// Executables that render XAML behind a legacy top-level class (Windows 11
/// Notepad keeps the `Notepad` class) or a generic frame host.
pub open spec fn xaml_executables() -> Seq<&'static str> {
    seq![
        "notepad.exe",
        "calculatorapp.exe",
        "calc.exe",
        "applicationframehost.exe",
        "photos.exe",
        "systemsettings.exe",
    ]
}

/// Whether `root` hosts XAML/UWP/WinUI content, by its class or else by its
/// executable.
pub open spec fn is_xaml_host_flow(t: Trail, root: usize) -> Flow<bool> {
    class_text_flow(t, root).bind(
        |class: Seq<char>, t: Trail|
            if is_xaml_class(class) {
                t.give(true)
            } else {
                executable_is_any_flow(t, root, xaml_executables())
            },
    )
}

proof fn lemma_xaml_executables_are_ascii()
    ensures
        forall|i: int|
            0 <= i < xaml_executables().len() ==> is_ascii_name(#[trigger] xaml_executables()[i]@),
{
    reveal_strlit("notepad.exe");
    reveal_strlit("calculatorapp.exe");
    reveal_strlit("calc.exe");
    reveal_strlit("applicationframehost.exe");
    reveal_strlit("photos.exe");
    reveal_strlit("systemsettings.exe");
    let names = xaml_executables();
    assert(is_ascii_name(names[0]@));
    assert(is_ascii_name(names[1]@));
    assert(is_ascii_name(names[2]@));
    assert(is_ascii_name(names[3]@));
    assert(is_ascii_name(names[4]@));
    assert(is_ascii_name(names[5]@));
}

/// Whether `root` hosts XAML/UWP/WinUI content, whose pattern handlers call
/// `SetForegroundWindow` on themselves and whose keyboard input comes only
/// from the system input queue.
pub fn is_xaml_host(tape: &mut Tape, root: usize) -> (hosts: Option<bool>)
    ensures
        Flow::of(final(tape)@, hosts) == is_xaml_host_flow(old(tape)@, root),
{
    let class = with_class_name(tape, root)?;
    if is_xaml_host_class(&class) {
        return Some(true);
    }
    let names: [&str; 6] = [
        "notepad.exe",
        "calculatorapp.exe",
        "calc.exe",
        "applicationframehost.exe",
        "photos.exe",
        "systemsettings.exe",
    ];
    proof {
        lemma_xaml_executables_are_ascii();
        assert(names@ =~= xaml_executables());
    }
    executable_is_any(tape, root, &names)
}

/// A class always has a name to show.
pub proof fn law_class_name_is_never_empty(t: Trail, window: usize)
    ensures
        class_name_flow(t, window).value matches Some(class) ==> class.len() > 0,
{
    reveal_strlit("<unknown>");
}

/// A window found under a point is the root, or one that answered to be a
/// child of the root. The point that comes with it is where that window itself
/// maps the screen point.
pub proof fn law_deepest_child_is_inside(t: Trail, root: usize, screen: Point)
    ensures
        deepest_child_flow(t, root, screen).value matches Some(Some(found)) ==> {
            let calls = deepest_child_flow(t, root, screen).trail.calls;
            &&& found.0 == root || confirmed(t.replies, calls, root, found.0)
            &&& mapped(t.replies, calls, found.0, screen, found.1)
        },
        deepest_child_flow(t, root, screen).value matches Some(None) ==> t.upcoming(
            0,
        ).point_value() is None,
{
    let first = t.plain(Plain::ScreenToClient { window: root, point: screen });
    if first.value is Some {
        if let Some(client) = (first.value->0).point_value() {
            let calls = first.trail.calls;
            assert(calls[t.calls.len() as int] == Request::Plain(
                Plain::ScreenToClient { window: root, point: screen },
            ));
            assert(mapped(t.replies, calls, root, screen, client));
            lemma_descent_stays_inside(
                first.trail,
                root,
                screen,
                root,
                client,
                MAX_NESTING as nat,
            );
        }
    }
}

/// Whether `window` answered to be a child of `root`.
pub open spec fn confirmed(
    replies: Seq<Reply>,
    calls: Seq<Request>,
    root: usize,
    window: usize,
) -> bool {
    exists|i: int|
        0 <= i < calls.len() && #[trigger] calls[i] == Request::Plain(
            Plain::IsChild { parent: root, window },
        ) && replies[i].flag_value()
}

/// Whether `window` mapped the screen point to `client`.
pub open spec fn mapped(
    replies: Seq<Reply>,
    calls: Seq<Request>,
    window: usize,
    screen: Point,
    client: Point,
) -> bool {
    exists|i: int|
        0 <= i < calls.len() && #[trigger] calls[i] == Request::Plain(
            Plain::ScreenToClient { window, point: screen },
        ) && replies[i].point_value() == Some(client)
}

proof fn lemma_descent_stays_inside(
    t: Trail,
    root: usize,
    screen: Point,
    current: usize,
    client: Point,
    left: nat,
)
    requires
        current == root || confirmed(t.replies, t.calls, root, current),
        mapped(t.replies, t.calls, current, screen, client),
    ensures
        descend_flow(t, root, screen, current, client, left).value matches Some(found) ==> {
            let calls = descend_flow(t, root, screen, current, client, left).trail.calls;
            &&& found.0 == root || confirmed(t.replies, calls, root, found.0)
            &&& mapped(t.replies, calls, found.0, screen, found.1)
        },
    decreases left,
{
    if left > 0 {
        let asked = t.plain(
            Plain::ChildFromPoint {
                window: current,
                point: client,
                flags: CWP_SKIPINVISIBLE | CWP_SKIPDISABLED | CWP_SKIPTRANSPARENT,
            },
        );
        lemma_kept(t, asked.trail, root, screen, current, client);
        if asked.value is Some {
            let window = (asked.value->0).handle_value();
            let inside = asked.trail.plain(Plain::IsChild { parent: root, window });
            lemma_kept(t, inside.trail, root, screen, current, client);
            if inside.value is Some {
                let place = inside.trail.plain(Plain::ScreenToClient { window, point: screen });
                lemma_kept(t, place.trail, root, screen, current, client);
                if place.value is Some && (inside.value->0).flag_value() {
                    if let Some(point) = (place.value->0).point_value() {
                        let calls = place.trail.calls;
                        assert(calls[t.calls.len() as int + 1] == Request::Plain(
                            Plain::IsChild { parent: root, window },
                        ));
                        assert(confirmed(t.replies, calls, root, window));
                        assert(calls[t.calls.len() as int + 2] == Request::Plain(
                            Plain::ScreenToClient { window, point: screen },
                        ));
                        assert(mapped(t.replies, calls, window, screen, point));
                        lemma_descent_stays_inside(
                            place.trail,
                            root,
                            screen,
                            window,
                            point,
                            (left - 1) as nat,
                        );
                    }
                }
            }
        }
    }
}

proof fn lemma_kept(
    t: Trail,
    later: Trail,
    root: usize,
    screen: Point,
    window: usize,
    client: Point,
)
    requires
        t.calls.len() <= later.calls.len(),
        forall|i: int| 0 <= i < t.calls.len() ==> later.calls[i] == #[trigger] t.calls[i],
    ensures
        confirmed(t.replies, t.calls, root, window) ==> confirmed(
            t.replies,
            later.calls,
            root,
            window,
        ),
        mapped(t.replies, t.calls, window, screen, client) ==> mapped(
            t.replies,
            later.calls,
            window,
            screen,
            client,
        ),
{
    if confirmed(t.replies, t.calls, root, window) {
        let i = choose|i: int|
            0 <= i < t.calls.len() && #[trigger] t.calls[i] == Request::Plain(
                Plain::IsChild { parent: root, window },
            ) && t.replies[i].flag_value();
        assert(later.calls[i] == t.calls[i]);
    }
    if mapped(t.replies, t.calls, window, screen, client) {
        let i = choose|i: int|
            0 <= i < t.calls.len() && #[trigger] t.calls[i] == Request::Plain(
                Plain::ScreenToClient { window, point: screen },
            ) && t.replies[i].point_value() == Some(client);
        assert(later.calls[i] == t.calls[i]);
    }
}

/// The count of parent links ends at the bound, however the tree is linked.
pub proof fn law_depth_is_bounded(t: Trail, ancestor: usize, current: usize, depth: nat)
    requires
        depth <= MAX_DEPTH,
    ensures
        depth_flow(t, ancestor, current, depth).value matches Some(counted) ==> depth <= counted
            <= MAX_DEPTH,
    decreases MAX_DEPTH - depth,
{
    if current != ancestor && depth < MAX_DEPTH {
        let parent = t.plain(Plain::Ancestor { window: current, relation: GA_PARENT });
        law_depth_is_bounded(
            parent.trail,
            ancestor,
            (parent.value->0).handle_value(),
            depth + 1,
        );
    }
}

/// The threads of a window tree are the root's and every other that is not
/// zero, each once, with the root's first.
pub proof fn law_threads_are_distinct(first: u32, more: Seq<u32>)
    ensures
        merged(seq![first], more).no_duplicates(),
        merged(seq![first], more)[0] == first,
        forall|thread: u32|
            #![trigger merged(seq![first], more).contains(thread)]
            merged(seq![first], more).contains(thread) <==> thread == first || (thread != 0
                && more.contains(thread)),
    decreases more.len(),
{
    if more.len() == 0 {
        assert(seq![first][0] == first);
    } else {
        let rest = more.drop_last();
        law_threads_are_distinct(first, rest);
        let before = merged(seq![first], rest);
        assert(before.contains(first));
        assert forall|thread: u32|
            #![trigger merged(seq![first], more).contains(thread)]
            merged(seq![first], more).contains(thread) <==> thread == first || (thread != 0
                && more.contains(thread)) by {
            assert(more =~= rest.push(more.last()));
            if rest.contains(thread) {
                let i = rest.index_of(thread);
                assert(more[i] == thread);
            }
            if thread == more.last() {
                assert(more[more.len() - 1] == thread);
            }
            if before.contains(thread) {
                let i = before.index_of(thread);
                assert(merged(seq![first], more)[i] == thread);
            }
            if more.last() != 0 && !before.contains(more.last()) {
                assert(merged(seq![first], more)[before.len() as int] == more.last());
            }
        }
    }
}

/// Depth and window of each focused descendant of `root` that the threads from
/// index `i` on report, after `so_far`.
pub open spec fn focus_candidates_flow(
    t: Trail,
    root: usize,
    threads: Seq<u32>,
    i: nat,
    so_far: Seq<(nat, usize)>,
) -> Flow<Seq<(nat, usize)>>
    decreases threads.len() - i,
{
    if i >= threads.len() {
        t.give(so_far)
    } else {
        t.plain(Plain::FocusOf { thread: threads[i as int] }).bind(
            |info: Reply, t: Trail|
                match info.found_value() {
                    None => focus_candidates_flow(t, root, threads, i + 1, so_far),
                    Some(focused) => if focused == 0 || focused == root {
                        focus_candidates_flow(t, root, threads, i + 1, so_far)
                    } else {
                        t.plain(Plain::IsChild { parent: root, window: focused }).bind(
                            |inside: Reply, t: Trail|
                                if !inside.flag_value() {
                                    focus_candidates_flow(t, root, threads, i + 1, so_far)
                                } else {
                                    depth_flow(t, root, focused, 0).bind(
                                        |depth: nat, t: Trail|
                                            focus_candidates_flow(
                                                t,
                                                root,
                                                threads,
                                                i + 1,
                                                so_far.push((depth, focused)),
                                            ),
                                    )
                                },
                        )
                    },
                },
        )
    }
}

/// Whether `best` is the deepest of the candidates, and the first of those that
/// are equally deep.
pub open spec fn is_deepest(candidates: Seq<(nat, usize)>, best: Option<(nat, usize)>) -> bool {
    match best {
        None => candidates.len() == 0,
        Some(found) => exists|i: int|
            {
                &&& 0 <= i < candidates.len()
                &&& #[trigger] candidates[i] == found
                &&& forall|j: int| 0 <= j < i ==> (#[trigger] candidates[j]).0 < found.0
                &&& forall|j: int|
                    0 <= j < candidates.len() ==> (#[trigger] candidates[j]).0 <= found.0
            },
    }
}

/// Of the focused descendants that the threads report, the deepest wins, and
/// the first of those that are equally deep.
pub proof fn law_deepest_focus_wins(t: Trail, root: usize, threads: Seq<u32>) -> (best: Option<
    (nat, usize),
>)
    ensures
        search_focus_flow(t, root, threads, 0, None).trail == focus_candidates_flow(
            t,
            root,
            threads,
            0,
            Seq::empty(),
        ).trail,
        search_focus_flow(t, root, threads, 0, None).value matches Some(focused) ==> {
            let candidates = focus_candidates_flow(t, root, threads, 0, Seq::empty()).value;
            &&& candidates is Some
            &&& is_deepest(candidates->0, best)
            &&& focused == match best {
                Some(found) => Some(found.1),
                None => None,
            }
        },
{
    lemma_search_keeps_deepest(t, root, threads, 0, None, Seq::empty())
}

proof fn lemma_search_keeps_deepest(
    t: Trail,
    root: usize,
    threads: Seq<u32>,
    i: nat,
    best: Option<(nat, usize)>,
    so_far: Seq<(nat, usize)>,
) -> (last: Option<(nat, usize)>)
    requires
        is_deepest(so_far, best),
    ensures
        search_focus_flow(t, root, threads, i, best).trail == focus_candidates_flow(
            t,
            root,
            threads,
            i,
            so_far,
        ).trail,
        search_focus_flow(t, root, threads, i, best).value matches Some(focused) ==> {
            let candidates = focus_candidates_flow(t, root, threads, i, so_far).value;
            &&& candidates is Some
            &&& is_deepest(candidates->0, last)
            &&& focused == match last {
                Some(found) => Some(found.1),
                None => None,
            }
        },
    decreases threads.len() - i,
{
    if i >= threads.len() {
        best
    } else {
        let info = t.plain(Plain::FocusOf { thread: threads[i as int] });
        let focused = (info.value->0).found_value()->0;
        let inside = info.trail.plain(Plain::IsChild { parent: root, window: focused });
        let depth = depth_flow(inside.trail, root, focused, 0);
        if info.value is None || (info.value->0).found_value() is None || focused == 0 || focused
            == root {
            lemma_search_keeps_deepest(info.trail, root, threads, i + 1, best, so_far)
        } else if inside.value is None || !(inside.value->0).flag_value() {
            lemma_search_keeps_deepest(inside.trail, root, threads, i + 1, best, so_far)
        } else {
            let newcomer = (depth.value->0, focused);
            let candidates = so_far.push(newcomer);
            let deeper = deeper_of(best, depth.value->0, focused);
            assert(candidates[so_far.len() as int] == newcomer);
            if let Some(found) = best {
                let k = choose|k: int|
                    {
                        &&& 0 <= k < so_far.len()
                        &&& #[trigger] so_far[k] == found
                        &&& forall|j: int| 0 <= j < k ==> (#[trigger] so_far[j]).0 < found.0
                        &&& forall|j: int|
                            0 <= j < so_far.len() ==> (#[trigger] so_far[j]).0 <= found.0
                    };
                assert(candidates[k] == found);
            }
            assert(is_deepest(candidates, deeper));
            lemma_search_keeps_deepest(depth.trail, root, threads, i + 1, deeper, candidates)
        }
    }
}

/// A token that was opened is closed once, whatever it tells.
pub proof fn law_token_is_closed_once(t: Trail, process: usize, token: usize)
    requires
        integrity_level_flow(t, process).value is Some,
        t.upcoming(0).found_value() == Some(token),
    ensures
        integrity_level_flow(t, process).trail.calls[t.calls.len() as int + 2] == Request::Plain(
            Plain::Close { handle: token },
        ),
        forall|i: int|
            t.calls.len() <= i < integrity_level_flow(t, process).trail.calls.len() && i
                != t.calls.len() + 2 ==> !is_close(
                #[trigger] integrity_level_flow(t, process).trail.calls[i],
            ),
{
}

/// Whether a call closes a handle.
pub open spec fn is_close(call: Request) -> bool {
    match call {
        Request::Plain(Plain::Close { .. }) => true,
        _ => false,
    }
}

/// A process that was opened is closed as the last step, whatever it tells.
pub proof fn law_process_is_closed_last(t: Trail, pid: u32, own: u32)
    requires
        target_block_flow(t, pid, own).value is Some,
        t.upcoming(0).handle_value() != 0,
    ensures
        target_block_flow(t, pid, own).trail.calls.last() == Request::Plain(
            Plain::Close { handle: t.upcoming(0).handle_value() },
        ),
{
}

/// A process that was opened for its executable is closed as the last step.
pub proof fn law_executable_is_closed_last(t: Trail, window: usize, names: Seq<&str>)
    requires
        executable_is_any_flow(t, window, names).value is Some,
        t.upcoming(0).word_value() != 0,
        t.upcoming(1).handle_value() != 0,
    ensures
        executable_is_any_flow(t, window, names).trail.calls.last() == Request::Plain(
            Plain::Close { handle: t.upcoming(1).handle_value() },
        ),
{
}

/// Input is only held back from a process that runs at a higher integrity
/// level than this one.
pub proof fn law_equal_integrity_is_not_blocked(t: Trail, pid: u32, own: u32)
    requires
        target_block_flow(t, pid, own).value matches Some(Some(_)),
    ensures
        exists|target: u32|
            target > own && target_block_flow(t, pid, own).value == Some(
                Some(#[trigger] uipi_reason(pid, own, target)),
            ),
{
}

/// The case of ASCII letters in a path does not matter.
pub proof fn law_case_does_not_matter(path: Seq<u16>, other: Seq<u16>, names: Seq<&str>)
    requires
        path.len() == other.len(),
        forall|i: int|
            0 <= i < path.len() ==> lower(#[trigger] path[i] as int) == lower(other[i] as int),
    ensures
        runs_any(path, names) == runs_any(other, names),
{
    lemma_same_file_name(path, other);
    let file = file_name(path);
    let file2 = file_name(other);
    assert forall|i: int| 0 <= i < names.len() implies same_name(file, #[trigger] names[i]@)
        == same_name(file2, names[i]@) by {
        if same_name(file, names[i]@) {
            assert forall|j: int| 0 <= j < file2.len() implies lower(#[trigger] file2[j] as int)
                == lower(names[i]@[j] as int) by {
                assert(lower(file[j] as int) == lower(names[i]@[j] as int));
            }
        }
    }
}

proof fn lemma_same_file_name(path: Seq<u16>, other: Seq<u16>)
    requires
        path.len() == other.len(),
        forall|i: int|
            0 <= i < path.len() ==> lower(#[trigger] path[i] as int) == lower(other[i] as int),
    ensures
        file_name(path).len() == file_name(other).len(),
        forall|i: int|
            0 <= i < file_name(path).len() ==> lower(#[trigger] file_name(path)[i] as int)
                == lower(file_name(other)[i] as int),
    decreases path.len(),
{
    if path.len() > 0 {
        let last = path.len() - 1;
        assert(lower(path[last] as int) == lower(other[last] as int));
        assert(is_separator(path.last()) == is_separator(other.last()));
        assert forall|i: int| 0 <= i < path.drop_last().len() implies lower(
            #[trigger] path.drop_last()[i] as int,
        ) == lower(other.drop_last()[i] as int) by {
            assert(path.drop_last()[i] == path[i]);
        }
        lemma_same_file_name(path.drop_last(), other.drop_last());
    }
}

} // verus!
