//! Taking the foreground, and keeping others from taking it.

use vstd::prelude::*;

use crate::message::noname_key;
use crate::request::InputEvent;
use crate::tape::{Call, Flow, Plain, Reply, Request, Tape, Trail};
use crate::win32::{GA_ROOTOWNER, KEYEVENTF_KEYUP, WS_EX_NOACTIVATE};
use crate::window::{is_chromium, is_xaml_host, with_class_name};
use crate::{message, window};

verus! {

/// How long a target keeps its activation shield after posted input or a UI
/// Automation pattern, covering handlers that run asynchronously.
pub const ACTIVATION_SETTLE: u64 = 50;

/// Attempts to activate a window once this process is the source of the most
/// recent input.
pub const ACTIVATION_RETRIES: usize = 3;

/// Nanoseconds in a millisecond.
pub const MILLISECOND: u64 = 1_000_000;

/// Joins the input state of the foreground thread where there is one to join,
/// and tells whether it was joined.
pub open spec fn attach_flow(t: Trail, own: u32, other: u32) -> Flow<bool> {
    if other != 0 && other != own {
        t.plain(Plain::AttachInput { own, other, attach: true }).bind(
            |attached: Reply, t: Trail| t.give(attached.flag_value()),
        )
    } else {
        t.give(false)
    }
}

/// Leaves the joined input state.
pub open spec fn detach_flow(t: Trail, own: u32, other: u32, attached: bool) -> Flow<()> {
    if attached {
        t.plain(Plain::AttachInput { own, other, attach: false }).bind(
            |_detached: Reply, t: Trail| t.give(()),
        )
    } else {
        t.give(())
    }
}

/// Activates `target` while attached to the current foreground thread's input
/// state, and tells whether it is now the foreground window.
pub open spec fn attach_and_activate_flow(t: Trail, target: usize) -> Flow<bool> {
    t.plain(Plain::ForegroundWindow).bind(
        |current: Reply, t: Trail|
            if current.handle_value() == target {
                t.give(true)
            } else {
                t.plain(Plain::OwnThread).bind(
                    |own: Reply, t: Trail|
                        t.plain(Plain::ThreadOf { window: current.handle_value() }).bind(
                            |other: Reply, t: Trail|
                                attached_activate_flow(
                                    t,
                                    target,
                                    own.word_value(),
                                    other.word_value(),
                                ),
                        ),
                )
            },
    )
}

/// The part of [`attach_and_activate_flow`] from the attachment on.
pub open spec fn attached_activate_flow(t: Trail, target: usize, own: u32, other: u32) -> Flow<
    bool,
> {
    attach_flow(t, own, other).bind(
        |attached: bool, t: Trail|
            t.plain(Plain::SetForeground { window: target }).bind(
                |_set: Reply, t: Trail|
                    detach_flow(t, own, other, attached).bind(
                        |_detached: (), t: Trail|
                            t.plain(Plain::ForegroundWindow).bind(
                                |now: Reply, t: Trail| t.give(now.handle_value() == target),
                            ),
                    ),
            ),
    )
}

/// Activates `target` while attached to the current foreground thread's input
/// state, which lets `SetForegroundWindow` pass the foreground lock without
/// `UIAccess`. Returns whether `target` is now the foreground window.
pub fn attach_and_activate(tape: &mut Tape, target: usize) -> (active: Option<bool>)
    ensures
        Flow::of(final(tape)@, active) == attach_and_activate_flow(old(tape)@, target),
{
    let current = tape.plain(Plain::ForegroundWindow)?.handle();
    if current == target {
        return Some(true);
    }
    let own = tape.plain(Plain::OwnThread)?.word();
    let other = tape.plain(Plain::ThreadOf { window: current })?.word();
    let attached = if other != 0 && other != own {
        tape.plain(Plain::AttachInput { own, other, attach: true })?.flag()
    } else {
        false
    };
    tape.plain(Plain::SetForeground { window: target })?;
    if attached {
        tape.plain(Plain::AttachInput { own, other, attach: false })?;
    }
    let now = tape.plain(Plain::ForegroundWindow)?.handle();
    Some(now == target)
}

/// Press and release of the reserved key.
pub open spec fn input_token() -> Seq<InputEvent> {
    seq![message::noname_input(0), message::noname_input(KEYEVENTF_KEYUP)]
}

/// Up to `left` more attempts to activate `target`.
pub open spec fn retry_flow(t: Trail, target: usize, left: nat) -> Flow<bool>
    decreases left,
{
    if left == 0 {
        t.give(false)
    } else {
        attach_and_activate_flow(t, target).bind(
            |active: bool, t: Trail|
                if active {
                    t.give(true)
                } else {
                    t.plain(Plain::Sleep { millis: 25 }).bind(
                        |_slept: Reply, t: Trail| retry_flow(t, target, (left - 1) as nat),
                    )
                },
        )
    }
}

/// Activates `target`, retrying after a reserved no-op key makes this process
/// the source of the most recent input.
pub open spec fn activate_flow(t: Trail, target: usize) -> Flow<bool> {
    attach_and_activate_flow(t, target).bind(
        |active: bool, t: Trail|
            if active {
                t.give(true)
            } else {
                t.ask(Request::SendInput { events: input_token() }).bind(
                    |_sent: Reply, t: Trail| retry_flow(t, target, ACTIVATION_RETRIES as nat),
                )
            },
    )
}

/// Activates `target`, retrying after a reserved no-op key (`VK_NONAME`) makes
/// this process the source of the most recent input, which the foreground
/// lock requires. Returns whether `target` became the foreground window.
pub fn activate(tape: &mut Tape, target: usize) -> (active: Option<bool>)
    ensures
        Flow::of(final(tape)@, active) == activate_flow(old(tape)@, target),
{
    if attach_and_activate(tape, target)? {
        return Some(true);
    }
    let mut events: Vec<InputEvent> = Vec::new();
    events.push(noname_key(0));
    events.push(noname_key(KEYEVENTF_KEYUP));
    assert(events@ =~= input_token());
    tape.ask(Call::SendInput { events })?;
    let mut left: usize = ACTIVATION_RETRIES;
    while left > 0
        invariant
            retry_flow(tape@, target, left as nat) == activate_flow(old(tape)@, target),
        decreases left,
    {
        if attach_and_activate(tape, target)? {
            return Some(true);
        }
        tape.plain(Plain::Sleep { millis: 25 })?;
        left = left - 1;
    }
    Some(false)
}

/// Polls until `target`, or a window it owns, is the foreground window or the
/// clock has reached `deadline`.
pub open spec fn poll_flow(t: Trail, target: usize, deadline: int) -> Flow<bool>
    decreases t.replies.len() - t.calls.len(),
{
    let foreground = t.plain(Plain::ForegroundWindow);
    match foreground.value {
        None => Flow { trail: foreground.trail, value: None },
        Some(window) => if window.handle_value() == target {
            foreground.trail.give(true)
        } else {
            let owner = foreground.trail.plain(
                Plain::Ancestor { window: window.handle_value(), relation: GA_ROOTOWNER },
            );
            match owner.value {
                None => Flow { trail: owner.trail, value: None },
                Some(window) => if window.handle_value() == target {
                    owner.trail.give(true)
                } else {
                    let now = owner.trail.plain(Plain::Now);
                    match now.value {
                        None => Flow { trail: now.trail, value: None },
                        Some(time) => if time.time_value() >= deadline {
                            now.trail.give(false)
                        } else {
                            let slept = now.trail.plain(Plain::Sleep { millis: 10 });
                            match slept.value {
                                None => Flow { trail: slept.trail, value: None },
                                Some(_) => poll_flow(slept.trail, target, deadline),
                            }
                        },
                    }
                },
            }
        },
    }
}

/// Waits up to `millis` for `target`, or a window it owns, to be the
/// foreground window.
pub open spec fn wait_for_foreground_flow(t: Trail, target: usize, millis: u64) -> Flow<bool> {
    t.plain(Plain::Now).bind(
        |start: Reply, t: Trail|
            poll_flow(t, target, start.time_value() + millis * MILLISECOND),
    )
}

/// Waits up to `millis` for `target`, or a window it owns such as a modal
/// dialog that activation surfaced instead, to be the foreground window.
pub fn wait_for_foreground(tape: &mut Tape, target: usize, millis: u64) -> (reached: Option<bool>)
    ensures
        Flow::of(final(tape)@, reached) == wait_for_foreground_flow(old(tape)@, target, millis),
{
    let start = tape.plain(Plain::Now)?.time();
    assert(0 <= millis * MILLISECOND <= u64::MAX * MILLISECOND) by (nonlinear_arith)
        requires
            millis <= u64::MAX,
            MILLISECOND >= 0,
    ;
    let deadline: u128 = start as u128 + millis as u128 * MILLISECOND as u128;
    loop
        invariant
            poll_flow(tape@, target, deadline as int) == wait_for_foreground_flow(
                old(tape)@,
                target,
                millis,
            ),
        decreases tape@.replies.len() - tape@.calls.len(),
    {
        let foreground = tape.plain(Plain::ForegroundWindow)?.handle();
        if foreground == target {
            return Some(true);
        }
        let owner = tape.plain(
            Plain::Ancestor { window: foreground, relation: GA_ROOTOWNER },
        )?.handle();
        if owner == target {
            return Some(true);
        }
        let now = tape.plain(Plain::Now)?.time();
        if now as u128 >= deadline {
            return Some(false);
        }
        tape.plain(Plain::Sleep { millis: 10 })?;
    }
}

/// Sets `WS_EX_NOACTIVATE` on a window that answers and does not have it, and
/// tells whether the window took it.
pub open spec fn arm_no_activate_flow(t: Trail, root: usize) -> Flow<bool> {
    t.plain(Plain::IsHung { window: root }).bind(
        |hung: Reply, t: Trail|
            if hung.flag_value() {
                t.give(false)
            } else {
                t.plain(Plain::ExStyle { window: root }).bind(
                    |style: Reply, t: Trail|
                        if style.word_value() & WS_EX_NOACTIVATE != 0 {
                            t.give(false)
                        } else {
                            t.plain(
                                Plain::SetExStyle {
                                    window: root,
                                    style: style.word_value() | WS_EX_NOACTIVATE,
                                },
                            ).bind(
                                |_set: Reply, t: Trail|
                                    t.plain(Plain::ExStyle { window: root }).bind(
                                        |now: Reply, t: Trail|
                                            t.give(now.word_value() & WS_EX_NOACTIVATE != 0),
                                    ),
                            )
                        },
                )
            },
    )
}

/// Sets `WS_EX_NOACTIVATE` on a top-level window, so that click-activation and
/// its own `SetForegroundWindow` calls are refused while it still receives
/// posted input and UI Automation patterns. Returns whether it has to be
/// cleared again.
///
/// Hung windows are skipped because the style change sends synchronous
/// messages to the owning thread. UIPI can refuse the change on
/// higher-integrity windows, so the style is read back.
pub fn arm_no_activate(tape: &mut Tape, root: usize) -> (applied: Option<bool>)
    ensures
        Flow::of(final(tape)@, applied) == arm_no_activate_flow(old(tape)@, root),
{
    if tape.plain(Plain::IsHung { window: root })?.flag() {
        return Some(false);
    }
    let style = tape.plain(Plain::ExStyle { window: root })?.word();
    if style & WS_EX_NOACTIVATE != 0 {
        return Some(false);
    }
    tape.plain(Plain::SetExStyle { window: root, style: style | WS_EX_NOACTIVATE })?;
    let now = tape.plain(Plain::ExStyle { window: root })?.word();
    Some(now & WS_EX_NOACTIVATE != 0)
}

/// Clears the bit that [`arm_no_activate_flow`] set, and no other.
pub open spec fn disarm_no_activate_flow(t: Trail, root: usize, applied: bool) -> Flow<()> {
    if applied {
        t.plain(Plain::ExStyle { window: root }).bind(
            |style: Reply, t: Trail|
                t.plain(
                    Plain::SetExStyle {
                        window: root,
                        style: style.word_value() & !WS_EX_NOACTIVATE,
                    },
                ).bind(|_set: Reply, t: Trail| t.give(())),
        )
    } else {
        t.give(())
    }
}

/// Clears `WS_EX_NOACTIVATE` where it was applied. Clearing only that bit keeps
/// style changes the application made meanwhile.
pub fn disarm_no_activate(tape: &mut Tape, root: usize, applied: bool) -> (done: Option<()>)
    ensures
        Flow::of(final(tape)@, done) == disarm_no_activate_flow(old(tape)@, root, applied),
{
    if applied {
        let style = tape.plain(Plain::ExStyle { window: root })?.word();
        tape.plain(Plain::SetExStyle { window: root, style: style & !WS_EX_NOACTIVATE })?;
    }
    Some(())
}

/// Whether `root` hosts XAML, or else whether its class is a Chromium one.
pub open spec fn shields_host_flow(t: Trail, root: usize) -> Flow<bool> {
    window::is_xaml_host_flow(t, root).bind(
        |xaml: bool, t: Trail|
            if xaml {
                t.give(true)
            } else {
                window::class_text_flow(t, root).bind(
                    |class: Seq<char>, t: Trail| window::is_chromium_flow(t, class),
                )
            },
    )
}

/// Disables a XAML or Chromium host that answers, and tells whether it has to
/// be enabled again.
pub open spec fn arm_disabled_host_flow(t: Trail, root: usize) -> Flow<bool> {
    t.plain(Plain::IsHung { window: root }).bind(
        |hung: Reply, t: Trail|
            if hung.flag_value() {
                t.give(false)
            } else {
                shields_host_flow(t, root).bind(
                    |shields: bool, t: Trail|
                        if !shields {
                            t.give(false)
                        } else {
                            t.plain(Plain::Enable { window: root, enable: false }).bind(
                                |was_disabled: Reply, t: Trail|
                                    t.give(!was_disabled.flag_value()),
                            )
                        },
                )
            },
    )
}

/// Disables a XAML or Chromium host and leaves other hosts untouched. A window
/// that was already disabled is left alone. Returns whether the window has to
/// be enabled again.
pub fn arm_disabled_host(tape: &mut Tape, root: usize) -> (disabled: Option<bool>)
    ensures
        Flow::of(final(tape)@, disabled) == arm_disabled_host_flow(old(tape)@, root),
{
    if tape.plain(Plain::IsHung { window: root })?.flag() {
        return Some(false);
    }
    if !is_xaml_host(tape, root)? {
        let class = with_class_name(tape, root)?;
        if !is_chromium(tape, class)? {
            return Some(false);
        }
    }
    let was_disabled = tape.plain(Plain::Enable { window: root, enable: false })?.flag();
    Some(!was_disabled)
}

/// Enables the window that was disabled.
pub open spec fn disarm_disabled_host_flow(t: Trail, root: usize, disabled: bool) -> Flow<()> {
    if disabled {
        t.plain(Plain::Enable { window: root, enable: true }).bind(
            |_enabled: Reply, t: Trail| t.give(()),
        )
    } else {
        t.give(())
    }
}

/// Enables the window that was disabled.
pub fn disarm_disabled_host(tape: &mut Tape, root: usize, disabled: bool) -> (done: Option<()>)
    ensures
        Flow::of(final(tape)@, done) == disarm_disabled_host_flow(old(tape)@, root, disabled),
{
    if disabled {
        tape.plain(Plain::Enable { window: root, enable: true })?;
    }
    Some(())
}

/// What has to be undone after an operation on a contained window.
#[derive(Clone, Copy, Debug, PartialEq, Eq, Structural)]
pub struct Containment {
    /// The contained top-level window.
    pub root: usize,
    /// The user's foreground window before the operation.
    pub previous: usize,
    /// Whether the window was made non-activatable.
    pub no_activate: bool,
    /// Whether the window was disabled.
    pub disabled: bool,
}

/// Arms the guards for an operation on `root`, unless `root` owns the
/// foreground or nothing does.
pub open spec fn contain_flow(t: Trail, root: usize, shield_host: bool) -> Flow<
    Option<Containment>,
> {
    t.plain(Plain::ForegroundWindow).bind(
        |previous: Reply, t: Trail|
            if previous.handle_value() == 0 {
                t.give(None)
            } else {
                window::root_flow(t, previous.handle_value()).bind(
                    |owner: usize, t: Trail|
                        if owner == root {
                            t.give(None)
                        } else {
                            arm_no_activate_flow(t, root).bind(
                                |no_activate: bool, t: Trail|
                                    arm_shield_flow(t, root, shield_host).bind(
                                        |disabled: bool, t: Trail|
                                            t.give(
                                                Some(
                                                    Containment {
                                                        root,
                                                        previous: previous.handle_value(),
                                                        no_activate,
                                                        disabled,
                                                    },
                                                ),
                                            ),
                                    ),
                            )
                        },
                )
            },
    )
}

/// Disables the host where a shield is wanted.
pub open spec fn arm_shield_flow(t: Trail, root: usize, shield_host: bool) -> Flow<bool> {
    if shield_host {
        arm_disabled_host_flow(t, root)
    } else {
        t.give(false)
    }
}

/// Arms the guards for an operation on `root`: until [`release`] the window
/// cannot take the foreground. A target that already owns the foreground has
/// nothing to take, and disabling it would drop the user's keyboard focus
/// inside it, so it gets no guard.
pub fn contain(tape: &mut Tape, root: usize, shield_host: bool) -> (guard: Option<
    Option<Containment>,
>)
    ensures
        Flow::of(final(tape)@, guard) == contain_flow(old(tape)@, root, shield_host),
{
    let previous = tape.plain(Plain::ForegroundWindow)?.handle();
    if previous == 0 {
        return Some(None);
    }
    if crate::window::root(tape, previous)? == root {
        return Some(None);
    }
    let no_activate = arm_no_activate(tape, root)?;
    let disabled = if shield_host {
        arm_disabled_host(tape, root)?
    } else {
        false
    };
    Some(Some(Containment { root, previous, no_activate, disabled }))
}

/// [`contain`] for posted input: the window is non-activatable while the
/// operation and its asynchronous handlers run.
pub fn contain_activation(tape: &mut Tape, root: usize) -> (guard: Option<Option<Containment>>)
    ensures
        Flow::of(final(tape)@, guard) == contain_flow(old(tape)@, root, false),
{
    contain(tape, root, false)
}

/// [`contain`] for a UI Automation pattern call, which also disables XAML and
/// Chromium hosts for the synchronous call: they call `SetForegroundWindow` on
/// themselves from pattern handlers, a disabled top-level window cannot become
/// foreground, and the pattern still arrives over the accessibility channel.
pub fn contain_pattern_activation(tape: &mut Tape, root: usize) -> (guard: Option<
    Option<Containment>,
>)
    ensures
        Flow::of(final(tape)@, guard) == contain_flow(old(tape)@, root, true),
{
    contain(tape, root, true)
}

/// Hands the foreground back to `previous` where `root` took it after all.
pub open spec fn hand_back_flow(t: Trail, root: usize, previous: usize) -> Flow<()> {
    t.plain(Plain::ForegroundWindow).bind(
        |current: Reply, t: Trail|
            if current.handle_value() == 0 {
                t.give(())
            } else {
                window::root_flow(t, current.handle_value()).bind(
                    |owner: usize, t: Trail|
                        if owner != root {
                            t.give(())
                        } else {
                            attach_and_activate_flow(t, previous).bind(
                                |_active: bool, t: Trail|
                                    t.plain(Plain::Sleep { millis: 12 }).bind(
                                        |_slept: Reply, t: Trail|
                                            attach_and_activate_flow(t, previous).bind(
                                                |_active: bool, t: Trail| t.give(()),
                                            ),
                                    ),
                            )
                        },
                )
            },
    )
}

/// Undoes what [`contain_flow`] did, once the target has settled.
pub open spec fn release_flow(t: Trail, guard: Option<Containment>) -> Flow<()> {
    match guard {
        None => t.give(()),
        Some(armed) => disarm_disabled_host_flow(t, armed.root, armed.disabled).bind(
            |_enabled: (), t: Trail|
                t.plain(Plain::Sleep { millis: ACTIVATION_SETTLE }).bind(
                    |_slept: Reply, t: Trail|
                        hand_back_flow(t, armed.root, armed.previous).bind(
                            |_back: (), t: Trail|
                                disarm_no_activate_flow(t, armed.root, armed.no_activate),
                        ),
                ),
        ),
    }
}

/// Hands the foreground back to `previous` where `root` took it after all.
/// Target handlers can re-activate asynchronously; the second attempt wins
/// that race.
fn hand_back(tape: &mut Tape, root: usize, previous: usize) -> (done: Option<()>)
    ensures
        Flow::of(final(tape)@, done) == hand_back_flow(old(tape)@, root, previous),
{
    let current = tape.plain(Plain::ForegroundWindow)?.handle();
    if current == 0 {
        return Some(());
    }
    if crate::window::root(tape, current)? == root {
        attach_and_activate(tape, previous)?;
        tape.plain(Plain::Sleep { millis: 12 })?;
        attach_and_activate(tape, previous)?;
    }
    Some(())
}

/// Undoes what [`contain`] did: enables the host at once, lets the target
/// settle, hands the user's previous foreground window back if the target
/// activated anyway, and makes the target activatable again.
pub fn release(tape: &mut Tape, guard: Option<Containment>) -> (done: Option<()>)
    ensures
        Flow::of(final(tape)@, done) == release_flow(old(tape)@, guard),
{
    match guard {
        None => Some(()),
        Some(armed) => {
            disarm_disabled_host(tape, armed.root, armed.disabled)?;
            tape.plain(Plain::Sleep { millis: ACTIVATION_SETTLE })?;
            hand_back(tape, armed.root, armed.previous)?;
            disarm_no_activate(tape, armed.root, armed.no_activate)
        },
    }
}

/// An input state that was joined is left again before the foreground window
/// is read back, whether or not the activation worked.
pub proof fn law_attachment_is_undone(t: Trail, target: usize, own: u32, other: u32)
    requires
        attached_activate_flow(t, target, own, other).value is Some,
    ensures
        attached_activate_flow(t, target, own, other).trail.calls == t.calls + (if other == 0
            || other == own {
            seq![
                Request::Plain(Plain::SetForeground { window: target }),
                Request::Plain(Plain::ForegroundWindow),
            ]
        } else if t.upcoming(0).flag_value() {
            seq![
                Request::Plain(Plain::AttachInput { own, other, attach: true }),
                Request::Plain(Plain::SetForeground { window: target }),
                Request::Plain(Plain::AttachInput { own, other, attach: false }),
                Request::Plain(Plain::ForegroundWindow),
            ]
        } else {
            seq![
                Request::Plain(Plain::AttachInput { own, other, attach: true }),
                Request::Plain(Plain::SetForeground { window: target }),
                Request::Plain(Plain::ForegroundWindow),
            ]
        }),
{
}

/// The answer to the last call of a trail.
pub open spec fn last_reply(t: Trail) -> Reply {
    t.replies[t.calls.len() - 1]
}

/// A window that was activated was the foreground window when last looked at.
pub proof fn law_activation_is_observed(t: Trail, target: usize)
    ensures
        attach_and_activate_flow(t, target).value matches Some(active) ==> active == (last_reply(
            attach_and_activate_flow(t, target).trail,
        ).handle_value() == target),
        activate_flow(t, target).value == Some(true) ==> last_reply(
            activate_flow(t, target).trail,
        ).handle_value() == target,
{
    let first = attach_and_activate_flow(t, target);
    let sent = first.trail.ask(Request::SendInput { events: input_token() });
    lemma_retry_is_observed(sent.trail, target, ACTIVATION_RETRIES as nat);
}

proof fn lemma_retry_is_observed(t: Trail, target: usize, left: nat)
    ensures
        retry_flow(t, target, left).value == Some(true) ==> last_reply(
            retry_flow(t, target, left).trail,
        ).handle_value() == target,
    decreases left,
{
    if left > 0 {
        let active = attach_and_activate_flow(t, target);
        let slept = active.trail.plain(Plain::Sleep { millis: 25 });
        lemma_retry_is_observed(slept.trail, target, (left - 1) as nat);
    }
}

/// A wait ends well only once the target, or a window it owns, was seen in
/// front, and badly only once the time is up.
pub proof fn law_wait_is_observed(t: Trail, target: usize, millis: u64)
    ensures
        wait_for_foreground_flow(t, target, millis).value == Some(true) ==> last_reply(
            wait_for_foreground_flow(t, target, millis).trail,
        ).handle_value() == target,
        wait_for_foreground_flow(t, target, millis).value == Some(false) ==> last_reply(
            wait_for_foreground_flow(t, target, millis).trail,
        ).time_value() >= t.upcoming(0).time_value() + millis * MILLISECOND,
{
    let start = t.plain(Plain::Now);
    if start.value is Some {
        lemma_poll_is_observed(
            start.trail,
            target,
            (start.value->0).time_value() + millis * MILLISECOND,
        );
    }
}

proof fn lemma_poll_is_observed(t: Trail, target: usize, deadline: int)
    ensures
        poll_flow(t, target, deadline).value == Some(true) ==> last_reply(
            poll_flow(t, target, deadline).trail,
        ).handle_value() == target,
        poll_flow(t, target, deadline).value == Some(false) ==> last_reply(
            poll_flow(t, target, deadline).trail,
        ).time_value() >= deadline,
    decreases t.replies.len() - t.calls.len(),
{
    let foreground = t.plain(Plain::ForegroundWindow);
    let window = (foreground.value->0).handle_value();
    let owner = foreground.trail.plain(Plain::Ancestor { window, relation: GA_ROOTOWNER });
    let now = owner.trail.plain(Plain::Now);
    let slept = now.trail.plain(Plain::Sleep { millis: 10 });
    if slept.value is Some {
        lemma_poll_is_observed(slept.trail, target, deadline);
    }
}

/// Clearing the shield bit undoes setting it, and keeps every other bit of a
/// style that changed meanwhile.
pub proof fn law_shield_bit_is_restored(style: u32, meanwhile: u32)
    ensures
        style & WS_EX_NOACTIVATE == 0 ==> (style | WS_EX_NOACTIVATE) & !WS_EX_NOACTIVATE == style,
        (style | WS_EX_NOACTIVATE) & WS_EX_NOACTIVATE != 0,
        (meanwhile & !WS_EX_NOACTIVATE) & WS_EX_NOACTIVATE == 0,
        (meanwhile & !WS_EX_NOACTIVATE) | (meanwhile & WS_EX_NOACTIVATE) == meanwhile,
{
    let bit = WS_EX_NOACTIVATE;
    assert(style & bit == 0 ==> (style | bit) & !bit == style) by (bit_vector);
    assert((style | bit) & bit != 0) by (bit_vector)
        requires
            bit != 0,
    ;
    assert((meanwhile & !bit) & bit == 0) by (bit_vector);
    assert((meanwhile & !bit) | (meanwhile & bit) == meanwhile) by (bit_vector);
}

/// A release undoes what was armed: a disabled host is enabled before anything
/// else, and the shield bit is cleared from the style as it is by then, as the
/// last step.
pub proof fn law_release_undoes_containment(t: Trail, armed: Containment)
    requires
        release_flow(t, Some(armed)).value is Some,
    ensures
        armed.disabled ==> release_flow(t, Some(armed)).trail.calls[t.calls.len() as int]
            == Request::Plain(Plain::Enable { window: armed.root, enable: true }),
        armed.no_activate ==> {
            let u = release_flow(t, Some(armed)).trail;
            u.calls.last() == Request::Plain(
                Plain::SetExStyle {
                    window: armed.root,
                    style: t.replies[u.calls.len() - 2].word_value() & !WS_EX_NOACTIVATE,
                },
            )
        },
{
    broadcast use lemma_hand_back_extends;

}

broadcast proof fn lemma_attach_extends(t: Trail, target: usize)
    ensures
        (#[trigger] attach_and_activate_flow(t, target)).trail.replies == t.replies,
        attach_and_activate_flow(t, target).trail.calls.len() >= t.calls.len(),
        forall|i: int|
            0 <= i < t.calls.len() ==> attach_and_activate_flow(t, target).trail.calls[i]
                == #[trigger] t.calls[i],
{
}

broadcast proof fn lemma_hand_back_extends(t: Trail, root: usize, previous: usize)
    ensures
        (#[trigger] hand_back_flow(t, root, previous)).trail.replies == t.replies,
        hand_back_flow(t, root, previous).trail.calls.len() >= t.calls.len(),
        forall|i: int|
            0 <= i < t.calls.len() ==> hand_back_flow(t, root, previous).trail.calls[i]
                == #[trigger] t.calls[i],
{
    broadcast use lemma_attach_extends;

}

/// A foreground that the contained window took after all is handed back: the
/// user's window is set as the foreground window, unless it is seen in front by
/// then.
pub proof fn law_taken_foreground_is_handed_back(t: Trail, root: usize, previous: usize)
    requires
        hand_back_flow(t, root, previous).value is Some,
        t.upcoming(0).handle_value() != 0,
        t.upcoming(1).handle_value() == root,
        root != 0,
    ensures
        t.upcoming(2).handle_value() == previous || exists|i: int|
            0 <= i < hand_back_flow(t, root, previous).trail.calls.len()
                && #[trigger] hand_back_flow(t, root, previous).trail.calls[i] == Request::Plain(
                Plain::SetForeground { window: previous },
            ),
{
    broadcast use lemma_attach_extends;

    let asked = t.plain(Plain::ForegroundWindow);
    let owner = window::root_flow(asked.trail, t.upcoming(0).handle_value());
    let u = owner.trail;
    let first = attach_and_activate_flow(u, previous);
    let slept = first.trail.plain(Plain::Sleep { millis: 12 });
    let end = hand_back_flow(t, root, previous).trail;
    assert(end == attach_and_activate_flow(slept.trail, previous).trail);
    if t.upcoming(2).handle_value() != previous {
        let own = t.upcoming(3).word_value();
        let other = t.upcoming(4).word_value();
        let i = u.calls.len() as int + (if other != 0 && other != own {
            4int
        } else {
            3
        });
        assert(first.trail.calls[i] == Request::Plain(Plain::SetForeground { window: previous }));
        assert(slept.trail.calls[i] == first.trail.calls[i]);
        assert(end.calls[i] == slept.trail.calls[i]);
    }
}

} // verus!
