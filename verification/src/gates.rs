//! What decides whether a request reaches its window: its identifier, the
//! integrity level, what the window would drop, and its place in front.

use vstd::prelude::*;

use crate::deeds::lemma_extends;
use crate::error::{ErrorKind, Fault};
use crate::foreground::ForegroundGuard;
use crate::keys::KeyName;
use crate::request::{DeliveryMode, EventKind, Gesture, Target};
use crate::tape::{Plain, Request, Trail};
use crate::win32::GA_ROOTOWNER;
use crate::{
    activation, background, delivery, effects, foreground, global, input, keys, text, window,
};

verus! {

/// An identifier names a window where it is a number and a window with that
/// handle is alive: without a number nothing is asked, and the two ways to fail
/// are told apart.
pub proof fn law_id_names_a_live_window(t: Trail, id: Seq<char>)
    requires
        delivery::hwnd_flow(t, id).value is Some,
    ensures
        ({
            let flow = delivery::hwnd_flow(t, id);
            let found = flow.value->0;
            match text::word_of(id) {
                None => {
                    &&& flow.trail == t
                    &&& found matches Err(fault)
                    &&& fault.kind == ErrorKind::InvalidTarget
                },
                Some(window) => {
                    &&& flow.trail == t.after(Request::Plain(Plain::IsWindow { window }))
                    &&& t.upcoming(0).flag_value() ==> found == Ok::<usize, Fault>(window)
                    &&& !t.upcoming(0).flag_value() ==> {
                        &&& found matches Err(fault)
                        &&& fault.kind == ErrorKind::WindowNotFound
                    }
                },
            }
        }),
{
}

/// Input is denied to a window exactly where its process runs at a higher
/// integrity level than this one.
pub proof fn law_higher_integrity_is_denied(t: Trail, id: Seq<char>, root: usize)
    requires
        delivery::ensure_integrity_flow(t, id, root).value is Some,
    ensures
        ({
            let flow = delivery::ensure_integrity_flow(t, id, root);
            let block = window::uipi_block_flow(t, root);
            &&& flow.trail == block.trail
            &&& flow.value->0 is Ok <==> block.value == Some(None::<Seq<char>>)
            &&& flow.value->0 matches Err(fault) ==> {
                &&& fault.kind == ErrorKind::PermissionDenied
                &&& fault.message == "window "@ + id + " cannot receive synthetic input: "@
                    + (block.value->0)->0
            }
        }),
{
}

/// Whether posted input would be dropped is asked of the window's class, of
/// whether it has a Chromium descendant, owns the foreground and hosts XAML,
/// each as found for this window, and of the kind of input. The answer is the
/// reason.
pub proof fn law_drop_is_judged_by_the_window(
    t: Trail,
    root: usize,
    class: Seq<char>,
    kind: EventKind,
)
    requires
        delivery::drop_reason_flow(t, root, class, kind).value is Some,
    ensures
        ({
            let flow = delivery::drop_reason_flow(t, root, class, kind);
            let chromium = window::has_chromium_descendant_flow(t, root);
            let front = window::owns_foreground_flow(chromium.trail, root);
            let xaml = window::is_xaml_host_flow(front.trail, root);
            &&& flow.trail.calls.last() == (Request::DropReason {
                class,
                chromium_descendant: chromium.value == Some(true),
                foreground: front.value == Some(true),
                xaml_host: xaml.value == Some(true),
                kind,
            })
            &&& flow.trail.calls.len() == xaml.trail.calls.len() + 1
            &&& flow.value == Some(activation::last_reply(flow.trail).text_value())
        }),
{
}

/// Text is refused to a window exactly where its class is answered to take none.
pub proof fn law_text_support_is_judged_by_class(t: Trail, id: Seq<char>, root: usize)
    requires
        delivery::ensure_text_supported_flow(t, id, root).value is Some,
    ensures
        ({
            let flow = delivery::ensure_text_supported_flow(t, id, root);
            let class = window::class_name_flow(t, root);
            let asked = Request::TextUnsupported { class: class.value->0 };
            let reason = class.trail.upcoming(0).text_value();
            &&& flow.trail == class.trail.after(asked)
            &&& flow.value->0 is Ok <==> reason is None
            &&& flow.value->0 matches Err(fault) ==> {
                &&& fault.kind == ErrorKind::InputFailed
                &&& fault.message == "window "@ + id + " ("@ + class.value->0
                    + ") cannot take typed text: "@ + reason->0
            }
        }),
{
}

/// Posted input is let through exactly where the integrity level allows it and
/// the window would not drop this kind. The integrity level is looked at first.
pub proof fn law_delivery_is_allowed(t: Trail, id: Seq<char>, root: usize, kind: EventKind)
    requires
        delivery::ensure_delivery_flow(t, id, root, kind).value is Some,
    ensures
        ({
            let flow = delivery::ensure_delivery_flow(t, id, root, kind);
            let integrity = delivery::ensure_integrity_flow(t, id, root);
            let class = window::class_name_flow(integrity.trail, root);
            let reason = delivery::drop_reason_flow(class.trail, root, class.value->0, kind);
            &&& integrity.value->0 is Err ==> flow == integrity
            &&& integrity.value->0 is Ok ==> {
                &&& flow.value->0 is Ok <==> reason.value == Some(None::<Seq<char>>)
                &&& flow.value->0 is Ok ==> flow.trail == reason.trail
                &&& flow.value->0 matches Err(fault) ==> {
                    &&& fault.kind == ErrorKind::BackgroundUnavailable
                    &&& flow.trail == reason.trail.after(Request::Plain(Plain::KindName { kind }))
                    &&& reason.trail.upcoming(0).text_value() matches Some(name)
                        ==> fault.message == "window "@ + id + " ("@ + class.value->0
                        + ") drops background "@ + name + " events: "@ + (reason.value->0)->0
                        + "; retry with takeover:true or use ax actions"@
                }
            }
        }),
{
}

/// A request for the desktop goes through the user's own devices. One for a
/// window is posted to it in the background and injected into it in the
/// foreground.
pub proof fn law_requests_take_their_route(
    t: Trail,
    target: Target,
    mode: DeliveryMode,
    gesture: Gesture,
    typed: Seq<char>,
    chord: Seq<KeyName>,
)
    requires
        chord.len() > 0,
    ensures
        ({
            let way = input::route(target, mode);
            let pointed = input::pointer_flow(t, way, gesture);
            let text = input::type_text_flow(t, way, typed);
            let pressed = input::key_chord_flow(t, way, chord);
            match (target, mode) {
                (Target::Desktop, _) => {
                    &&& pointed == global::global_pointer_flow(t, gesture)
                    &&& text == global::global_text_flow(t, typed)
                    &&& pressed == global::global_key_chord_flow(t, chord)
                },
                (Target::Window(id), DeliveryMode::Background) => {
                    &&& pointed == background::pointer_flow(t, id@, gesture)
                    &&& text == background::type_text_flow(t, id@, typed)
                    &&& pressed == background::key_chord_flow(t, id@, chord)
                },
                (Target::Window(id), DeliveryMode::Foreground) => {
                    &&& pointed == foreground::pointer_flow(t, id@, gesture)
                    &&& text == foreground::type_text_flow(t, id@, typed)
                    &&& pressed == foreground::key_chord_flow(t, id@, chord)
                },
            }
        }),
{
}

/// Raising a live window restores it where it answers that it is minimized, and
/// only there, then activates it and waits for it to be in front for at most
/// half a second. It succeeds exactly where that was seen.
pub proof fn law_raised_window_is_restored(t: Trail, id: Seq<char>)
    requires
        input::raise_window_flow(t, id).value is Some,
        t.upcoming(0).flag_value(),
        text::word_of(id) is Some,
    ensures
        ({
            let flow = input::raise_window_flow(t, id);
            let window = text::word_of(id)->0;
            let asked = t.after(Request::Plain(Plain::IsWindow { window })).after(
                Request::Plain(Plain::IsIconic { window }),
            );
            let shown = if t.upcoming(1).flag_value() {
                asked.after(Request::Plain(Plain::Restore { window }))
            } else {
                asked
            };
            let active = activation::activate_flow(shown, window);
            let reached = activation::wait_for_foreground_flow(active.trail, window, 500);
            &&& flow.trail == reached.trail
            &&& flow.value->0 is Ok <==> reached.value == Some(true)
        }),
{
}

/// Numbers of the keys that are the same on every keyboard layout.
pub proof fn law_named_keys_have_their_numbers()
    ensures
        keys::fixed_key(KeyName::Backspace) == Some(0x08u16),
        keys::fixed_key(KeyName::Tab) == Some(0x09u16),
        keys::fixed_key(KeyName::Enter) == Some(0x0du16),
        keys::fixed_key(KeyName::Shift) == Some(0x10u16),
        keys::fixed_key(KeyName::Ctrl) == Some(0x11u16),
        keys::fixed_key(KeyName::Alt) == Some(0x12u16),
        keys::fixed_key(KeyName::CapsLock) == Some(0x14u16),
        keys::fixed_key(KeyName::Escape) == Some(0x1bu16),
        keys::fixed_key(KeyName::Space) == Some(0x20u16),
        keys::fixed_key(KeyName::PageUp) == Some(0x21u16),
        keys::fixed_key(KeyName::PageDown) == Some(0x22u16),
        keys::fixed_key(KeyName::End) == Some(0x23u16),
        keys::fixed_key(KeyName::Home) == Some(0x24u16),
        keys::fixed_key(KeyName::Left) == Some(0x25u16),
        keys::fixed_key(KeyName::Up) == Some(0x26u16),
        keys::fixed_key(KeyName::Right) == Some(0x27u16),
        keys::fixed_key(KeyName::Down) == Some(0x28u16),
        keys::fixed_key(KeyName::PrintScreen) == Some(0x2cu16),
        keys::fixed_key(KeyName::Insert) == Some(0x2du16),
        keys::fixed_key(KeyName::Delete) == Some(0x2eu16),
        keys::fixed_key(KeyName::Meta) == Some(0x5bu16),
        keys::fixed_key(KeyName::NumLock) == Some(0x90u16),
{
}

/// The function keys, in order.
pub open spec fn function_keys() -> Seq<KeyName> {
    seq![
        KeyName::F1,
        KeyName::F2,
        KeyName::F3,
        KeyName::F4,
        KeyName::F5,
        KeyName::F6,
        KeyName::F7,
        KeyName::F8,
        KeyName::F9,
        KeyName::F10,
        KeyName::F11,
        KeyName::F12,
        KeyName::F13,
        KeyName::F14,
        KeyName::F15,
        KeyName::F16,
        KeyName::F17,
        KeyName::F18,
        KeyName::F19,
        KeyName::F20,
        KeyName::F21,
        KeyName::F22,
        KeyName::F23,
        KeyName::F24,
    ]
}

/// The function keys are numbered one after the other from 0x70 on.
pub proof fn law_function_keys_are_consecutive(i: int)
    requires
        0 <= i < 24,
    ensures
        keys::fixed_key(function_keys()[i]) == Some((0x70 + i) as u16),
{
}

/// The extended prefix belongs to the arrows and the keys above them, to the
/// Windows key, Num Lock and Print Screen, and to no other key.
pub proof fn law_extended_keys_are_off_the_main_block(vk: u16)
    ensures
        keys::extended(vk) <==> 0x21 <= vk <= 0x28 || 0x2c <= vk <= 0x2e || vk == 0x5b || vk
            == 0x90,
{
}

/// A host is disabled while input is posted to it only where it answers and
/// either hosts XAML or has a Chromium class of its own. It has to be enabled
/// again where it was not disabled before.
pub proof fn law_only_such_hosts_are_disabled(t: Trail, root: usize)
    requires
        activation::arm_disabled_host_flow(t, root).value is Some,
    ensures
        ({
            let flow = activation::arm_disabled_host_flow(t, root);
            let asked = t.after(Request::Plain(Plain::IsHung { window: root }));
            let xaml = window::is_xaml_host_flow(asked, root);
            let class = window::class_text_flow(xaml.trail, root);
            let judged = class.trail.after(Request::IsChromium { class: class.value->0 });
            let answers = !t.upcoming(0).flag_value();
            let chromium = class.trail.upcoming(0).flag_value();
            let disable = Request::Plain(Plain::Enable { window: root, enable: false });
            &&& !answers ==> flow == asked.give(false)
            &&& answers && xaml.value == Some(true) ==> flow == xaml.trail.after(disable).give(
                !xaml.trail.upcoming(0).flag_value(),
            )
            &&& answers && xaml.value == Some(false) && !chromium ==> flow == judged.give(false)
            &&& answers && xaml.value == Some(false) && chromium ==> flow == judged.after(
                disable,
            ).give(!judged.upcoming(0).flag_value())
        }),
{
}

/// Whether a look in front from index `at` on saw neither the target nor a
/// window that it owns.
pub open spec fn looked(u: Trail, at: int, target: usize) -> bool {
    &&& u.calls[at] == Request::Plain(Plain::ForegroundWindow)
    &&& u.replies[at].handle_value() != target
    &&& u.calls[at + 1] == Request::Plain(
        Plain::Ancestor { window: u.replies[at].handle_value(), relation: GA_ROOTOWNER },
    )
    &&& u.replies[at + 1].handle_value() != target
    &&& u.calls[at + 2] == Request::Plain(Plain::Now)
}

/// Whether such a look was followed by a short sleep, the time not being up.
pub open spec fn waited(u: Trail, at: int, target: usize, deadline: int) -> bool {
    &&& looked(u, at, target)
    &&& u.replies[at + 2].time_value() < deadline
    &&& u.calls[at + 3] == Request::Plain(Plain::Sleep { millis: 10 })
}

/// Whether the last look, from index `at` on, ended a wait: with the target in
/// front, with a window that it owns in front, or with the time up.
pub open spec fn settled(u: Trail, at: int, target: usize, deadline: int, reached: bool) -> bool {
    if reached {
        let n = u.calls.len() - at;
        &&& u.calls[at] == Request::Plain(Plain::ForegroundWindow)
        &&& n == 1 || n == 2
        &&& n == 1 ==> u.replies[at].handle_value() == target
        &&& n == 2 ==> u.calls[at + 1] == Request::Plain(
            Plain::Ancestor { window: u.replies[at].handle_value(), relation: GA_ROOTOWNER },
        ) && u.replies[at + 1].handle_value() == target
    } else {
        &&& looked(u, at, target)
        &&& u.replies[at + 2].time_value() >= deadline
        &&& u.calls.len() == at + 3
    }
}

proof fn lemma_polled(t: Trail, target: usize, deadline: int) -> (n: nat)
    requires
        activation::poll_flow(t, target, deadline).value is Some,
    ensures
        ({
            let flow = activation::poll_flow(t, target, deadline);
            let c = t.calls.len() as int;
            &&& effects::extends(t, flow.trail)
            &&& forall|j: int|
                0 <= j < n ==> #[trigger] waited(flow.trail, c + 4 * j, target, deadline)
            &&& settled(flow.trail, c + 4 * n, target, deadline, flow.value->0)
        }),
    decreases t.replies.len() - t.calls.len(),
{
    let flow = activation::poll_flow(t, target, deadline);
    let foreground = t.plain(Plain::ForegroundWindow);
    let window = (foreground.value->0).handle_value();
    let owner = foreground.trail.plain(Plain::Ancestor { window, relation: GA_ROOTOWNER });
    let now = owner.trail.plain(Plain::Now);
    let slept = now.trail.plain(Plain::Sleep { millis: 10 });
    if window != target && (owner.value->0).handle_value() != target && (
    now.value->0).time_value() < deadline {
        let n = lemma_polled(slept.trail, target, deadline);
        let u = flow.trail;
        let c = t.calls.len() as int;
        lemma_extends(t, slept.trail, u);
        assert(forall|j: int| c <= j < c + 4 ==> u.calls[j] == #[trigger] slept.trail.calls[j]);
        assert(slept.trail.calls[c] == Request::Plain(Plain::ForegroundWindow));
        assert(slept.trail.calls[c + 1] == Request::Plain(
            Plain::Ancestor { window, relation: GA_ROOTOWNER },
        ));
        assert(slept.trail.calls[c + 2] == Request::Plain(Plain::Now));
        assert(slept.trail.calls[c + 3] == Request::Plain(Plain::Sleep { millis: 10 }));
        assert forall|j: int| 0 <= j < n + 1 implies #[trigger] waited(
            u,
            c + 4 * j,
            target,
            deadline,
        ) by {
            if j > 0 {
                assert(waited(u, c + 4 + 4 * (j - 1), target, deadline));
            }
        }
        n + 1
    } else {
        0
    }
}

/// A wait looks in front, sleeps and looks again until the target or a window
/// that it owns is there, or until the time is up: never longer, and never
/// without a look after the last sleep.
pub proof fn law_wait_looks_until_the_deadline(t: Trail, target: usize, millis: u64) -> (n: nat)
    requires
        activation::wait_for_foreground_flow(t, target, millis).value is Some,
    ensures
        ({
            let flow = activation::wait_for_foreground_flow(t, target, millis);
            let c = t.calls.len() as int;
            let deadline = t.upcoming(0).time_value() + millis * 1_000_000;
            &&& flow.trail.calls[c] == Request::Plain(Plain::Now)
            &&& forall|j: int|
                0 <= j < n ==> #[trigger] waited(flow.trail, c + 1 + 4 * j, target, deadline)
            &&& settled(flow.trail, c + 1 + 4 * n, target, deadline, flow.value->0)
        }),
{
    let start = t.plain(Plain::Now);
    let n = lemma_polled(
        start.trail,
        target,
        (start.value->0).time_value() + millis * 1_000_000,
    );
    let u = activation::wait_for_foreground_flow(t, target, millis).trail;
    let c = t.calls.len() as int;
    assert(u.calls[c] == start.trail.calls[c]);
    n
}

/// The user's window: the one in front once the identifier and the integrity
/// level have been looked at.
pub open spec fn users_window(t: Trail, id: Seq<char>) -> usize {
    let found = delivery::hwnd_flow(t, id);
    let allowed = delivery::ensure_integrity_flow(found.trail, id, text::word_of(id)->0);
    allowed.trail.upcoming(0).handle_value()
}

/// A taken foreground remembers whom it was taken from and for which window.
/// Where Windows does not give it, the user's window is activated again.
pub proof fn law_foreground_remembers_the_user(t: Trail, id: Seq<char>, settle: u64)
    requires
        ForegroundGuard::activate_flow(t, id, settle).value is Some,
    ensures
        ({
            let flow = ForegroundGuard::activate_flow(t, id, settle);
            let found = delivery::hwnd_flow(t, id);
            let target = text::word_of(id)->0;
            let allowed = delivery::ensure_integrity_flow(found.trail, id, target);
            let front = allowed.trail.after(Request::Plain(Plain::ForegroundWindow));
            let user = users_window(t, id);
            let active = activation::activate_flow(front, target);
            let waited = activation::wait_for_foreground_flow(active.trail, target, 500);
            &&& flow.value->0 matches Ok(guard) ==> {
                &&& text::word_of(id) is Some
                &&& guard.target == target
                &&& guard.previous == user
                &&& guard.settle == settle
                &&& user == target ==> flow.trail == front
                &&& user != target ==> waited.value == Some(true) && flow.trail
                    == waited.trail.after(Request::Plain(Plain::Sleep { millis: 20 }))
            }
            &&& found.value->0 is Ok && allowed.value->0 is Ok && flow.value->0 is Err ==> {
                &&& user != target
                &&& waited.value == Some(false)
                &&& user == 0 ==> flow.trail == waited.trail
                &&& user != 0 ==> flow.trail == activation::activate_flow(waited.trail, user).trail
            }
        }),
{
}

/// Whether `end` is `v` after the foreground went back to `user`: the target is
/// left to settle, and the user's window is activated where it still exists and
/// is not the target itself.
pub open spec fn gone_back(
    v: Trail,
    end: Trail,
    user: usize,
    target: usize,
    settle: u64,
) -> bool {
    let asked = v.after(Request::Plain(Plain::Sleep { millis: settle })).after(
        Request::Plain(Plain::IsWindow { window: user }),
    );
    if v.upcoming(1).flag_value() && user != target {
        end == activation::activate_flow(asked, user).trail
    } else {
        end == asked
    }
}

/// A gesture that was injected is followed by the way back: after 120
/// milliseconds the user's window comes to the front again, and then the cursor
/// goes back to where it was, if that is known. The outcome is that of the
/// gesture.
pub proof fn law_pointer_goes_back(t: Trail, id: Seq<char>, gesture: Gesture) -> (v: Trail)
    requires
        foreground::pointer_flow(t, id, gesture).value is Some,
        ForegroundGuard::activate_flow(
            t.after(Request::Plain(Plain::CursorPos)),
            id,
            foreground::POINTER_SETTLE,
        ).value matches Some(Ok(_)),
    ensures
        ({
            let flow = foreground::pointer_flow(t, id, gesture);
            let asked = t.after(Request::Plain(Plain::CursorPos));
            let front = ForegroundGuard::activate_flow(asked, id, 120);
            let done = foreground::gesture_flow(front.trail, gesture);
            let user = users_window(asked, id);
            &&& done.trail == v
            &&& flow.value == done.value
            &&& t.upcoming(0).point_value() is None ==> gone_back(
                v,
                flow.trail,
                user,
                text::word_of(id)->0,
                120,
            )
            &&& t.upcoming(0).point_value() matches Some(point) ==> {
                let before = Trail { calls: flow.trail.calls.drop_last(), ..flow.trail };
                &&& flow.trail.calls.last() == Request::Plain(Plain::SetCursorPos { point })
                &&& gone_back(v, before, user, text::word_of(id)->0, 120)
            }
        }),
{
    let asked = t.after(Request::Plain(Plain::CursorPos));
    let front = ForegroundGuard::activate_flow(asked, id, 120);
    law_foreground_remembers_the_user(asked, id, 120);
    let guard = (front.value->0)->Ok_0;
    let done = foreground::gesture_flow(front.trail, gesture);
    let back = guard.hand_back_flow(done.trail);
    let flow = foreground::pointer_flow(t, id, gesture);
    if let Some(point) = t.upcoming(0).point_value() {
        let set = Request::Plain(Plain::SetCursorPos { point });
        assert(back.trail.calls.push(set).drop_last() =~= back.trail.calls);
    }
    done.trail
}

/// Keys that were injected are followed by the way back: after 40 milliseconds
/// the user's window comes to the front again. The outcome is that of the keys.
pub proof fn law_chord_goes_back(t: Trail, id: Seq<char>, keys: Seq<KeyName>) -> (v: Trail)
    requires
        foreground::key_chord_flow(t, id, keys).value is Some,
        foreground::virtual_keys_flow(t, keys, 0, Seq::empty()).value matches Some(Ok(_)),
        ({
            let found = foreground::virtual_keys_flow(t, keys, 0, Seq::empty());
            let struck = foreground::strokes_flow(found.trail, (found.value->0)->Ok_0);
            ForegroundGuard::activate_flow(
                struck.trail,
                id,
                foreground::KEY_SETTLE,
            ).value matches Some(Ok(_))
        }),
    ensures
        ({
            let flow = foreground::key_chord_flow(t, id, keys);
            let found = foreground::virtual_keys_flow(t, keys, 0, Seq::empty());
            let struck = foreground::strokes_flow(found.trail, (found.value->0)->Ok_0);
            gone_back(v, flow.trail, users_window(struck.trail, id), text::word_of(id)->0, 40)
        }),
{
    let found = foreground::virtual_keys_flow(t, keys, 0, Seq::empty());
    let struck = foreground::strokes_flow(found.trail, (found.value->0)->Ok_0);
    let events = struck.value->0;
    let front = ForegroundGuard::activate_flow(struck.trail, id, 40);
    law_foreground_remembers_the_user(struck.trail, id, 40);
    foreground::holding_flow(
        front.trail,
        events.0,
        events.1,
        foreground::Injection::Nothing,
    ).trail
}

/// Text that was injected is followed by the way back: after 40 milliseconds the
/// user's window comes to the front again.
pub proof fn law_text_goes_back(t: Trail, id: Seq<char>, content: Seq<char>) -> (v: Trail)
    requires
        foreground::type_text_flow(t, id, content).value is Some,
        ({
            let built = foreground::typed_events_flow(t, content);
            let found = delivery::hwnd_flow(built.trail, id);
            let root = text::word_of(id)->0;
            let supported = delivery::ensure_text_supported_flow(found.trail, id, root);
            &&& (built.value->0).len() > 0
            &&& found.value matches Some(Ok(_))
            &&& supported.value matches Some(Ok(_))
            &&& ForegroundGuard::activate_flow(
                supported.trail,
                id,
                foreground::KEY_SETTLE,
            ).value matches Some(Ok(_))
        }),
    ensures
        ({
            let flow = foreground::type_text_flow(t, id, content);
            let built = foreground::typed_events_flow(t, content);
            let found = delivery::hwnd_flow(built.trail, id);
            let root = text::word_of(id)->0;
            let supported = delivery::ensure_text_supported_flow(found.trail, id, root);
            gone_back(v, flow.trail, users_window(supported.trail, id), root, 40)
        }),
{
    let built = foreground::typed_events_flow(t, content);
    let found = delivery::hwnd_flow(built.trail, id);
    let root = text::word_of(id)->0;
    let supported = delivery::ensure_text_supported_flow(found.trail, id, root);
    let front = ForegroundGuard::activate_flow(supported.trail, id, 40);
    law_foreground_remembers_the_user(supported.trail, id, 40);
    foreground::send_flow(front.trail, built.value->0).trail
}

} // verus!
