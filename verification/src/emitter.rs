//! Key messages posted to one window.

use vstd::prelude::*;
use vstd::string::*;

use crate::error::{CoreResult, DesktopError, Fault, Outcome};
use crate::keys::{fixed_virtual_key, KeyName};
use crate::message::key_transition;
use crate::tape::{Flow, Plain, Reply, Request, Tape, Trail};
use crate::text::{debug_char, decimal, encode_utf16};
use crate::win32::{
    VK_CONTROL, VK_MENU, VK_SHIFT, WM_KEYDOWN, WM_KEYUP, WM_SYSKEYDOWN, WM_SYSKEYUP,
};
use crate::window::focused_descendant;
use crate::{error, global, keys, message, tape, text, window};

verus! {

/// Posts one message.
pub open spec fn post_flow(
    t: Trail,
    window: usize,
    message: u32,
    wparam: usize,
    lparam: isize,
) -> Flow<Outcome> {
    t.plain(Plain::Post { window, message, wparam, lparam }).bind(
        |posted: Reply, t: Trail|
            t.give(
                match posted.posted_value() {
                    Ok(_) => Ok(()),
                    Err(code) => Err(
                        error::input_fault(
                            "PostMessageW failed with Win32 error "@ + text::digits(code as nat),
                        ),
                    ),
                },
            ),
    )
}

/// Posts one message.
pub fn post(tape: &mut Tape, window: usize, message: u32, wparam: usize, lparam: isize) -> (outcome:
    Option<CoreResult<()>>)
    ensures
        Flow::of(final(tape)@, tape::seen(outcome)) == post_flow(
            old(tape)@,
            window,
            message,
            wparam,
            lparam,
        ),
{
    match tape.plain(Plain::Post { window, message, wparam, lparam })?.posted() {
        Ok(_) => Some(Ok(())),
        Err(code) => {
            let mut report = "PostMessageW failed with Win32 error ".to_owned();
            report.append(decimal(code as u64).as_str());
            Some(Err(DesktopError::input_failed(report)))
        },
    }
}

/// Virtual key and implicit modifier bits of a layout lookup: its low and its
/// high byte.
pub open spec fn scanned(mapped: i16) -> (u16, u8) {
    let bits = message::word16(mapped as int);
    ((bits % 0x100) as u16, (bits / 0x100) as u8)
}

/// The virtual key of `key`, with the implicit modifiers the layout asks for.
pub open spec fn virtual_key_flow(t: Trail, key: KeyName) -> Flow<Result<(u16, u8), Fault>> {
    match key {
        KeyName::Char(c) => if text::utf16(c).len() != 1 {
            t.give(
                Err(error::input_fault(text::char_debug(c) + " has no Win32 virtual key"@)),
            )
        } else {
            t.plain(Plain::VkKeyScan { unit: text::utf16(c)[0] }).bind(
                |mapped: Reply, t: Trail|
                    if mapped.scan_value() == -1 {
                        t.give(
                            Err(
                                error::input_fault(
                                    text::char_debug(c)
                                        + " is absent from the active keyboard layout"@,
                                ),
                            ),
                        )
                    } else {
                        t.give(Ok(scanned(mapped.scan_value())))
                    },
            )
        },
        _ => t.give(Ok((keys::fixed_key(key)->0, 0))),
    }
}

/// The virtual key of `key`, with the implicit modifiers the layout asks for:
/// bit 0 for Shift, bit 1 for Ctrl and bit 2 for Alt.
pub fn virtual_key(tape: &mut Tape, key: KeyName) -> (vk: Option<CoreResult<(u16, u8)>>)
    ensures
        Flow::of(final(tape)@, tape::seen(vk)) == virtual_key_flow(old(tape)@, key),
{
    let c = match key {
        KeyName::Char(c) => c,
        _ => {
            return Some(Ok((fixed_virtual_key(key).unwrap(), 0)));
        },
    };
    let units = encode_utf16(c);
    if units.len() != 1 {
        let mut report = debug_char(c);
        report.append(" has no Win32 virtual key");
        return Some(Err(DesktopError::input_failed(report)));
    }
    let mapped = tape.plain(Plain::VkKeyScan { unit: units[0] })?.scan();
    if mapped == -1 {
        let mut report = debug_char(c);
        report.append(" is absent from the active keyboard layout");
        return Some(Err(DesktopError::input_failed(report)));
    }
    let bits: u32 = if mapped < 0 {
        (mapped as i32 + 0x10000) as u32
    } else {
        mapped as u32
    };
    Some(Ok(((bits % 0x100) as u16, (bits / 0x100) as u8)))
}

/// What a key action ended in, and how often Alt is down after it.
pub struct Turn {
    pub result: Outcome,
    pub alt: u8,
}

/// A key action's result with the emitter's Alt depth, as contracts see them.
pub open spec fn turned(result: Option<CoreResult<()>>, alt: u8) -> Option<Turn> {
    match result {
        Some(done) => Some(Turn { result: error::judged(done), alt }),
        None => None,
    }
}

impl Flow<Turn> {
    /// Goes on with `rest` once there is a result, unless it is an error.
    pub open spec fn bind_turn(self, rest: spec_fn(u8, Trail) -> Flow<Turn>) -> Flow<Turn> {
        match self.value {
            Some(turn) => match turn.result {
                Ok(_) => rest(turn.alt, self.trail),
                Err(_) => self,
            },
            None => self,
        }
    }
}

/// How often Alt is down after a transition of `vk`.
pub open spec fn alt_after(alt: u8, vk: u16, down: bool) -> u8 {
    if vk != VK_MENU {
        alt
    } else if down {
        if alt < u8::MAX {
            (alt + 1) as u8
        } else {
            alt
        }
    } else {
        if alt > 0 {
            (alt - 1) as u8
        } else {
            alt
        }
    }
}

/// Posts one transition of a virtual key.
pub open spec fn transition_flow(t: Trail, window: usize, alt: u8, vk: u16, down: bool) -> Flow<
    Turn,
> {
    t.plain(Plain::MapVirtualKey { vk }).bind(
        |scan: Reply, t: Trail|
            post_flow(
                t,
                window,
                message::key_message(alt, vk, down),
                vk as usize,
                message::signed32(message::key_bits(alt, vk, down, scan.word_value())) as isize,
            ).bind(
                |posted: Outcome, t: Trail|
                    t.give(
                        Turn {
                            result: posted,
                            alt: match posted {
                                Ok(_) => alt_after(alt, vk, down),
                                Err(_) => alt,
                            },
                        },
                    ),
            ),
    )
}

/// Posts a transition of each virtual key from index `i` on, up to the first
/// that fails.
pub open spec fn transitions_flow(
    t: Trail,
    window: usize,
    alt: u8,
    vks: Seq<u16>,
    i: nat,
    down: bool,
) -> Flow<Turn>
    decreases vks.len() - i,
{
    if i >= vks.len() {
        t.give(Turn { result: Ok(()), alt })
    } else {
        transition_flow(t, window, alt, vks[i as int], down).bind_turn(
            |alt: u8, t: Trail| transitions_flow(t, window, alt, vks, i + 1, down),
        )
    }
}

/// `vk` where it is wanted, and nothing else.
pub open spec fn if_implied(implied: bool, vk: u16) -> Seq<u16> {
    if implied {
        seq![vk]
    } else {
        seq![]
    }
}

/// Virtual keys of implicit modifiers, in the order they are pressed.
pub open spec fn implied_keys(implicit: u8) -> Seq<u16> {
    if_implied(implicit & 1 != 0, VK_SHIFT) + if_implied(implicit & 2 != 0, VK_CONTROL)
        + if_implied(implicit & 4 != 0, VK_MENU)
}

/// Virtual keys that go down or up for a key: its implicit modifiers are
/// pressed before it and released after it, in reverse.
pub open spec fn strokes(vk: u16, implicit: u8, down: bool) -> Seq<u16> {
    if down {
        implied_keys(implicit).push(vk)
    } else {
        seq![vk] + implied_keys(implicit).reverse()
    }
}

/// Posts a key going down or up, with the implicit modifiers it needs.
pub open spec fn key_flow(t: Trail, window: usize, alt: u8, key: KeyName, down: bool) -> Flow<Turn> {
    virtual_key_flow(t, key).bind(
        |vk: Result<(u16, u8), Fault>, t: Trail|
            match vk {
                Err(fault) => t.give(Turn { result: Err(fault), alt }),
                Ok(vk) => transitions_flow(t, window, alt, strokes(vk.0, vk.1, down), 0, down),
            },
    )
}

/// Virtual keys of implicit modifiers, in the order they are pressed.
pub fn implicit_modifiers(implicit: u8) -> (vks: Vec<u16>)
    ensures
        vks@ == implied_keys(implicit),
{
    let mut vks: Vec<u16> = Vec::new();
    if implicit & 1 != 0 {
        vks.push(VK_SHIFT);
    }
    if implicit & 2 != 0 {
        vks.push(VK_CONTROL);
    }
    if implicit & 4 != 0 {
        vks.push(VK_MENU);
    }
    assert(vks@ =~= implied_keys(implicit));
    vks
}

/// Virtual keys that go down or up for a key.
fn strokes_of(vk: u16, implicit: u8, down: bool) -> (vks: Vec<u16>)
    ensures
        vks@ == strokes(vk, implicit, down),
{
    let mut modifiers = implicit_modifiers(implicit);
    if down {
        modifiers.push(vk);
        return modifiers;
    }
    let mut vks: Vec<u16> = Vec::new();
    vks.push(vk);
    let mut left: usize = modifiers.len();
    while left > 0
        invariant
            left <= modifiers.len(),
            vks@ == seq![vk] + modifiers@.reverse().take(modifiers@.len() - left),
        decreases left,
    {
        proof {
            let reversed = modifiers@.reverse();
            let done = modifiers@.len() - left;
            assert(reversed.take(done + 1) =~= reversed.take(done).push(modifiers@[left - 1]));
        }
        vks.push(modifiers[left - 1]);
        left = left - 1;
    }
    assert(vks@ =~= strokes(vk, implicit, down));
    vks
}

/// Posts key messages to one window and tracks how often Alt is down, which
/// turns the other keys into system keys.
pub struct KeyEmitter {
    pub hwnd: usize,
    pub alt_depth: u8,
}

impl KeyEmitter {
    /// Window that keyboard input for `root` goes to.
    pub open spec fn focused_flow(t: Trail, root: usize) -> Flow<usize> {
        window::focused_descendant_flow(t, root).bind(
            |focused: Option<usize>, t: Trail|
                t.give(
                    match focused {
                        Some(window) => window,
                        None => root,
                    },
                ),
        )
    }

    /// Emits to the focused descendant of `root`, where embedded editors
    /// receive keyboard input, or to `root` itself.
    pub fn focused(tape: &mut Tape, root: usize) -> (emitter: Option<KeyEmitter>)
        ensures
            final(tape)@ == Self::focused_flow(old(tape)@, root).trail,
            match emitter {
                Some(emitter) => Self::focused_flow(old(tape)@, root).value == Some(emitter.hwnd)
                    && emitter.alt_depth == 0,
                None => Self::focused_flow(old(tape)@, root).value is None,
            },
    {
        let hwnd = match focused_descendant(tape, root)? {
            Some(window) => window,
            None => root,
        };
        Some(KeyEmitter { hwnd, alt_depth: 0 })
    }

    /// Posts one transition of a virtual key.
    pub fn transition(&mut self, tape: &mut Tape, vk: u16, down: bool) -> (outcome: Option<
        CoreResult<()>,
    >)
        ensures
            final(self).hwnd == old(self).hwnd,
            Flow::of(final(tape)@, turned(outcome, final(self).alt_depth)) == transition_flow(
                old(tape)@,
                old(self).hwnd,
                old(self).alt_depth,
                vk,
                down,
            ),
    {
        let scan = tape.plain(Plain::MapVirtualKey { vk })?.word();
        let (number, lparam) = key_transition(self.alt_depth, vk, down, scan);
        if let Err(failure) = post(tape, self.hwnd, number, vk as usize, lparam)? {
            return Some(Err(failure));
        }
        if vk == VK_MENU {
            self.alt_depth = if down {
                self.alt_depth.saturating_add(1)
            } else {
                self.alt_depth.saturating_sub(1)
            };
        }
        Some(Ok(()))
    }

    /// Posts a key going down or up, with the implicit modifiers it needs.
    pub fn key(&mut self, tape: &mut Tape, key: KeyName, down: bool) -> (outcome: Option<
        CoreResult<()>,
    >)
        ensures
            final(self).hwnd == old(self).hwnd,
            Flow::of(final(tape)@, turned(outcome, final(self).alt_depth)) == key_flow(
                old(tape)@,
                old(self).hwnd,
                old(self).alt_depth,
                key,
                down,
            ),
    {
        let (vk, implicit) = match virtual_key(tape, key)? {
            Ok(found) => found,
            Err(failure) => {
                return Some(Err(failure));
            },
        };
        let vks = strokes_of(vk, implicit, down);
        let mut i: usize = 0;
        while i < vks.len()
            invariant
                i <= vks.len(),
                self.hwnd == old(self).hwnd,
                transitions_flow(tape@, self.hwnd, self.alt_depth, vks@, i as nat, down)
                    == key_flow(old(tape)@, old(self).hwnd, old(self).alt_depth, key, down),
            decreases vks.len() - i,
        {
            if let Err(failure) = self.transition(tape, vks[i], down)? {
                return Some(Err(failure));
            }
            i = i + 1;
        }
        Some(Ok(()))
    }
}

/// Releases the first `n` keys, the last of them first, whatever fails, and
/// yields the first failure of `so_far` and the releases.
pub open spec fn release_held_flow(
    t: Trail,
    window: usize,
    alt: u8,
    keys: Seq<KeyName>,
    n: nat,
    so_far: Outcome,
) -> Flow<Turn>
    decreases n,
{
    if n == 0 {
        t.give(Turn { result: so_far, alt })
    } else {
        key_flow(t, window, alt, keys[n - 1], false).bind(
            |released: Turn, t: Trail|
                release_held_flow(
                    t,
                    window,
                    released.alt,
                    keys,
                    (n - 1) as nat,
                    global::first_failure(so_far, released.result),
                ),
        )
    }
}

/// Presses the keys from index `i` on. Where one fails, those before it are
/// released again.
pub open spec fn press_held_flow(
    t: Trail,
    window: usize,
    alt: u8,
    keys: Seq<KeyName>,
    i: nat,
) -> Flow<Turn>
    decreases keys.len() - i,
{
    if i >= keys.len() {
        t.give(Turn { result: Ok(()), alt })
    } else {
        key_flow(t, window, alt, keys[i as int], true).bind(
            |pressed: Turn, t: Trail|
                match pressed.result {
                    Ok(_) => press_held_flow(t, window, pressed.alt, keys, i + 1),
                    Err(fault) => release_held_flow(
                        t,
                        window,
                        pressed.alt,
                        keys,
                        i,
                        Err(fault),
                    ),
                },
        )
    }
}

impl KeyEmitter {
    /// Releases the first `n` keys, the last of them first, whatever fails, and
    /// returns the first failure of `so_far` and the releases.
    pub fn release_held(
        &mut self,
        tape: &mut Tape,
        keys: &[KeyName],
        n: usize,
        so_far: CoreResult<()>,
    ) -> (outcome: Option<CoreResult<()>>)
        requires
            n <= keys@.len(),
        ensures
            final(self).hwnd == old(self).hwnd,
            Flow::of(final(tape)@, turned(outcome, final(self).alt_depth)) == release_held_flow(
                old(tape)@,
                old(self).hwnd,
                old(self).alt_depth,
                keys@,
                n as nat,
                error::judged(so_far),
            ),
    {
        let mut result = so_far;
        let mut left: usize = n;
        while left > 0
            invariant
                left <= keys@.len(),
                self.hwnd == old(self).hwnd,
                release_held_flow(
                    tape@,
                    self.hwnd,
                    self.alt_depth,
                    keys@,
                    left as nat,
                    error::judged(result),
                ) == release_held_flow(
                    old(tape)@,
                    old(self).hwnd,
                    old(self).alt_depth,
                    keys@,
                    n as nat,
                    error::judged(so_far),
                ),
            decreases left,
        {
            let released = self.key(tape, keys[left - 1], false)?;
            if result.is_ok() {
                result = released;
            }
            left = left - 1;
        }
        Some(result)
    }

    /// Presses the keys in order. Where one fails, those before it are released
    /// again and its failure is returned.
    pub fn press_held(&mut self, tape: &mut Tape, keys: &[KeyName]) -> (outcome: Option<
        CoreResult<()>,
    >)
        ensures
            final(self).hwnd == old(self).hwnd,
            Flow::of(final(tape)@, turned(outcome, final(self).alt_depth)) == press_held_flow(
                old(tape)@,
                old(self).hwnd,
                old(self).alt_depth,
                keys@,
                0,
            ),
    {
        let mut i: usize = 0;
        while i < keys.len()
            invariant
                i <= keys@.len(),
                self.hwnd == old(self).hwnd,
                press_held_flow(tape@, self.hwnd, self.alt_depth, keys@, i as nat)
                    == press_held_flow(
                    old(tape)@,
                    old(self).hwnd,
                    old(self).alt_depth,
                    keys@,
                    0,
                ),
            decreases keys@.len() - i,
        {
            if let Err(failure) = self.key(tape, keys[i], true)? {
                return self.release_held(tape, keys, i, Err(failure));
            }
            i = i + 1;
        }
        Some(Ok(()))
    }
}

/// Whether every key has a virtual key on every layout.
pub open spec fn all_named(keys: Seq<KeyName>) -> bool {
    forall|i: int| 0 <= i < keys.len() ==> !(#[trigger] keys[i] is Char)
}

/// Whether a call posts one transition of a virtual key to `window`.
pub open spec fn posts_code(call: Request, window: usize, vk: u16, down: bool) -> bool {
    match call {
        Request::Plain(Plain::Post { window: to, message, wparam, .. }) => {
            &&& to == window
            &&& wparam == vk
            &&& message == if down {
                WM_KEYDOWN
            } else {
                WM_KEYUP
            } || message == if down {
                WM_SYSKEYDOWN
            } else {
                WM_SYSKEYUP
            }
        },
        _ => false,
    }
}

/// Whether a call posts one transition of a named key to `window`.
pub open spec fn posts_key(call: Request, window: usize, key: KeyName, down: bool) -> bool {
    posts_code(call, window, keys::fixed_key(key)->0, down)
}

proof fn lemma_named_key(t: Trail, window: usize, alt: u8, key: KeyName, down: bool)
    requires
        !(key is Char),
    ensures
        key_flow(t, window, alt, key, down) == transition_flow(
            t,
            window,
            alt,
            keys::fixed_key(key)->0,
            down,
        ),
{
    let vk = keys::fixed_key(key)->0;
    assert(0u8 & 1 == 0 && 0u8 & 2 == 0 && 0u8 & 4 == 0) by (bit_vector);
    assert(implied_keys(0) =~= Seq::empty());
    assert(strokes(vk, 0, down) =~= seq![vk]);
    reveal_with_fuel(transitions_flow, 2);
}

/// Named keys that were held go up again, the last first and each with one
/// posted message, whatever fails. A failure from before stands.
pub proof fn law_held_keys_go_up(
    t: Trail,
    window: usize,
    alt: u8,
    keys: Seq<KeyName>,
    n: nat,
    so_far: Outcome,
)
    requires
        n <= keys.len(),
        all_named(keys),
        release_held_flow(t, window, alt, keys, n, so_far).value is Some,
    ensures
        ({
            let end = release_held_flow(t, window, alt, keys, n, so_far);
            &&& end.trail.replies == t.replies
            &&& end.trail.calls.len() == t.calls.len() + 2 * n
            &&& forall|i: int|
                0 <= i < t.calls.len() ==> end.trail.calls[i] == #[trigger] t.calls[i]
            &&& forall|j: int|
                0 <= j < n ==> posts_key(
                    end.trail.calls[t.calls.len() + 2 * (n - 1 - j) + 1],
                    window,
                    #[trigger] keys[j],
                    false,
                )
            &&& so_far is Err ==> (end.value->0).result == so_far
        }),
    decreases n,
{
    if n > 0 {
        lemma_named_key(t, window, alt, keys[n - 1], false);
        let released = key_flow(t, window, alt, keys[n - 1], false);
        let turn = released.value->0;
        law_held_keys_go_up(
            released.trail,
            window,
            turn.alt,
            keys,
            (n - 1) as nat,
            global::first_failure(so_far, turn.result),
        );
        let end = release_held_flow(t, window, alt, keys, n, so_far);
        let start = t.calls.len() as int;
        assert(posts_key(released.trail.calls[start + 1], window, keys[n - 1], false));
        assert(end.trail.calls[start + 1] == released.trail.calls[start + 1]);
        assert forall|i: int| 0 <= i < t.calls.len() implies end.trail.calls[i]
            == #[trigger] t.calls[i] by {
            assert(released.trail.calls[i] == t.calls[i]);
        }
        assert forall|j: int| 0 <= j < n implies posts_key(
            end.trail.calls[start + 2 * (n - 1 - j) + 1],
            window,
            #[trigger] keys[j],
            false,
        ) by {
            if j < n - 1 {
                assert(released.trail.calls.len() + 2 * (n - 1 - 1 - j) + 1 == start + 2 * (n - 1
                    - j) + 1);
            }
        }
    }
}

/// Named keys go down in order, each with one posted message, up to the first
/// that fails. Where `k` went down and the next one failed, those `k` go up
/// again and the caller gets that failure.
pub proof fn law_failed_press_is_undone(t: Trail, window: usize, alt: u8, keys: Seq<KeyName>) -> (k:
    nat)
    requires
        all_named(keys),
        press_held_flow(t, window, alt, keys, 0).value is Some,
    ensures
        ({
            let end = press_held_flow(t, window, alt, keys, 0);
            let turn = end.value->0;
            let start = t.calls.len();
            &&& k <= keys.len()
            &&& turn.result is Ok <==> k == keys.len()
            &&& end.trail.calls.len() == start + (if k < keys.len() {
                2 * (k + 1) + 2 * k
            } else {
                2 * k
            })
            &&& forall|j: int|
                0 <= j < k ==> posts_key(
                    end.trail.calls[start + 2 * j + 1],
                    window,
                    #[trigger] keys[j],
                    true,
                )
            &&& k < keys.len() ==> forall|j: int|
                0 <= j < k ==> posts_key(
                    end.trail.calls[start + 2 * (k + 1) + 2 * (k - 1 - j) + 1],
                    window,
                    #[trigger] keys[j],
                    false,
                )
        }),
{
    lemma_pressed_from(t, t, window, alt, keys, 0)
}

proof fn lemma_pressed_from(
    first: Trail,
    t: Trail,
    window: usize,
    alt: u8,
    keys: Seq<KeyName>,
    i: nat,
) -> (k: nat)
    requires
        i <= keys.len(),
        all_named(keys),
        t.replies == first.replies,
        t.calls.len() == first.calls.len() + 2 * i,
        forall|j: int|
            0 <= j < i ==> posts_key(
                t.calls[first.calls.len() + 2 * j + 1],
                window,
                #[trigger] keys[j],
                true,
            ),
        press_held_flow(t, window, alt, keys, i).value is Some,
    ensures
        ({
            let end = press_held_flow(t, window, alt, keys, i);
            let turn = end.value->0;
            let start = first.calls.len();
            &&& i <= k <= keys.len()
            &&& turn.result is Ok <==> k == keys.len()
            &&& end.trail.calls.len() == start + (if k < keys.len() {
                2 * (k + 1) + 2 * k
            } else {
                2 * k
            })
            &&& forall|j: int|
                0 <= j < k ==> posts_key(
                    end.trail.calls[start + 2 * j + 1],
                    window,
                    #[trigger] keys[j],
                    true,
                )
            &&& k < keys.len() ==> forall|j: int|
                0 <= j < k ==> posts_key(
                    end.trail.calls[start + 2 * (k + 1) + 2 * (k - 1 - j) + 1],
                    window,
                    #[trigger] keys[j],
                    false,
                )
        }),
    decreases keys.len() - i,
{
    if i >= keys.len() {
        i
    } else {
        lemma_named_key(t, window, alt, keys[i as int], true);
        let pressed = key_flow(t, window, alt, keys[i as int], true);
        let turn = pressed.value->0;
        let start = first.calls.len();
        assert(posts_key(
            pressed.trail.calls[start as int + 2 * i + 1],
            window,
            keys[i as int],
            true,
        ));
        assert forall|j: int| 0 <= j < i + 1 implies posts_key(
            pressed.trail.calls[start + 2 * j + 1],
            window,
            #[trigger] keys[j],
            true,
        ) by {
            if j < i {
                assert(pressed.trail.calls[start + 2 * j + 1] == t.calls[start + 2 * j + 1]);
            }
        }
        if turn.result is Ok {
            lemma_pressed_from(first, pressed.trail, window, turn.alt, keys, i + 1)
        } else {
            law_held_keys_go_up(pressed.trail, window, turn.alt, keys, i, turn.result);
            let end = press_held_flow(t, window, alt, keys, i);
            assert forall|j: int| 0 <= j < i implies posts_key(
                end.trail.calls[start + 2 * j + 1],
                window,
                #[trigger] keys[j],
                true,
            ) by {
                assert(end.trail.calls[start + 2 * j + 1] == pressed.trail.calls[start + 2 * j
                    + 1]);
            }
            i
        }
    }
}

/// How often Alt is among the virtual keys from index `i` on.
pub open spec fn alts_from(vks: Seq<u16>, i: nat) -> nat
    decreases vks.len() - i,
{
    if i >= vks.len() {
        0
    } else {
        alts_from(vks, i + 1) + (if vks[i as int] == VK_MENU {
            1nat
        } else {
            0
        })
    }
}

/// How often Alt goes down for a key with this virtual key and these implicit
/// modifiers.
pub open spec fn alts(code: (u16, u8)) -> nat {
    (if code.1 & 4 != 0 {
        1nat
    } else {
        0
    }) + (if code.0 == VK_MENU {
        1nat
    } else {
        0
    })
}

proof fn lemma_strokes_hold_alts(code: (u16, u8), down: bool)
    ensures
        alts_from(strokes(code.0, code.1, down), 0) == alts(code),
{
    reveal_with_fuel(alts_from, 5);
    let shift = if_implied(code.1 & 1 != 0, VK_SHIFT);
    let control = if_implied(code.1 & 2 != 0, VK_CONTROL);
    let alt = if_implied(code.1 & 4 != 0, VK_MENU);
    assert(implied_keys(code.1) == shift + control + alt);
    let vks = strokes(code.0, code.1, down);
    assert(vks.len() == 1 + shift.len() + control.len() + alt.len());
}

/// Whether the calls from index `from` on post one transition of each virtual
/// key in order, each after the lookup of its scan code, and nothing else.
pub open spec fn posts_codes(
    calls: Seq<Request>,
    from: nat,
    window: usize,
    vks: Seq<u16>,
    down: bool,
) -> bool {
    &&& calls.len() == from + 2 * vks.len()
    &&& forall|j: int|
        0 <= j < vks.len() ==> calls[from + 2 * j] == Request::Plain(
            Plain::MapVirtualKey { vk: #[trigger] vks[j] },
        ) && posts_code(calls[from + 2 * j + 1], window, vks[j], down)
}

proof fn lemma_transitions(
    t: Trail,
    window: usize,
    alt: u8,
    vks: Seq<u16>,
    i: nat,
    down: bool,
    turn: Turn,
)
    requires
        i <= vks.len(),
        transitions_flow(t, window, alt, vks, i, down).value == Some(turn),
        turn.result is Ok,
    ensures
        ({
            let end = transitions_flow(t, window, alt, vks, i, down).trail;
            &&& end.replies == t.replies
            &&& end.calls.len() == t.calls.len() + 2 * (vks.len() - i)
            &&& forall|k: int|
                0 <= k < t.calls.len() ==> end.calls[k] == #[trigger] t.calls[k]
            &&& forall|j: int|
                i <= j < vks.len() ==> end.calls[t.calls.len() + 2 * (j - i)] == Request::Plain(
                    Plain::MapVirtualKey { vk: #[trigger] vks[j] },
                ) && posts_code(
                    end.calls[t.calls.len() + 2 * (j - i) + 1],
                    window,
                    vks[j],
                    down,
                )
        }),
        down && alt + alts_from(vks, i) <= u8::MAX ==> turn.alt == alt + alts_from(vks, i),
        !down && alt >= alts_from(vks, i) ==> turn.alt == alt - alts_from(vks, i),
    decreases vks.len() - i,
{
    if i < vks.len() {
        let first = transition_flow(t, window, alt, vks[i as int], down);
        lemma_transitions(first.trail, window, (first.value->0).alt, vks, i + 1, down, turn);
        let end = transitions_flow(t, window, alt, vks, i, down).trail;
        let start = t.calls.len() as int;
        assert forall|k: int| 0 <= k < t.calls.len() implies end.calls[k]
            == #[trigger] t.calls[k] by {
            assert(first.trail.calls[k] == t.calls[k]);
        }
        assert(end.calls[start] == first.trail.calls[start]);
        assert(end.calls[start + 1] == first.trail.calls[start + 1]);
        assert forall|j: int| i <= j < vks.len() implies end.calls[start + 2 * (j - i)]
            == Request::Plain(Plain::MapVirtualKey { vk: #[trigger] vks[j] }) && posts_code(
            end.calls[start + 2 * (j - i) + 1],
            window,
            vks[j],
            down,
        ) by {
            if j > i {
                assert(first.trail.calls.len() + 2 * (j - (i + 1)) == start + 2 * (j - i));
            }
        }
    }
}

/// Where the layout answers the same both times, a key goes up as it went down:
/// its transitions are posted in order on the way down and in reverse on the
/// way up, and Alt is down as often as before. This holds of every key, with
/// the implicit modifiers its layout position asks for.
pub proof fn law_key_goes_up_as_it_went_down(
    t: Trail,
    later: Trail,
    window: usize,
    alt: u8,
    key: KeyName,
    code: (u16, u8),
    down: Turn,
    up: Turn,
)
    requires
        virtual_key_flow(t, key).value == Some(Ok::<(u16, u8), Fault>(code)),
        virtual_key_flow(later, key).value == Some(Ok::<(u16, u8), Fault>(code)),
        key_flow(t, window, alt, key, true).value == Some(down),
        down.result is Ok,
        key_flow(later, window, down.alt, key, false).value == Some(up),
        up.result is Ok,
        alt + alts(code) <= u8::MAX,
    ensures
        down.alt == alt + alts(code),
        up.alt == alt,
        strokes(code.0, code.1, false) == strokes(code.0, code.1, true).reverse(),
        posts_codes(
            key_flow(t, window, alt, key, true).trail.calls,
            virtual_key_flow(t, key).trail.calls.len(),
            window,
            strokes(code.0, code.1, true),
            true,
        ),
        posts_codes(
            key_flow(later, window, down.alt, key, false).trail.calls,
            virtual_key_flow(later, key).trail.calls.len(),
            window,
            strokes(code.0, code.1, true).reverse(),
            false,
        ),
{
    let presses = strokes(code.0, code.1, true);
    let releases = strokes(code.0, code.1, false);
    assert(releases =~= presses.reverse());
    lemma_strokes_hold_alts(code, true);
    lemma_strokes_hold_alts(code, false);
    let looked = virtual_key_flow(t, key).trail;
    lemma_transitions(looked, window, alt, presses, 0, true, down);
    let again = virtual_key_flow(later, key).trail;
    lemma_transitions(again, window, down.alt, releases, 0, false, up);
}

/// Whether the calls from index `from` on that look up one of these keys in the
/// layout were answered by `layout`.
pub open spec fn answered_by(
    u: Trail,
    from: nat,
    keys: Seq<KeyName>,
    layout: spec_fn(u16) -> i16,
) -> bool {
    forall|i: int, j: int|
        #![trigger u.calls[i], keys[j]]
        from <= i < u.calls.len() && 0 <= j < keys.len() ==> (keys[j] matches KeyName::Char(c)
            ==> u.calls[i] == Request::Plain(Plain::VkKeyScan { unit: text::utf16(c)[0] })
            ==> u.replies[i].scan_value() == layout(text::utf16(c)[0]))
}

/// Virtual key and implicit modifiers of a key on this layout.
pub open spec fn code_on(layout: spec_fn(u16) -> i16, key: KeyName) -> (u16, u8) {
    match key {
        KeyName::Char(c) => scanned(layout(text::utf16(c)[0])),
        _ => (keys::fixed_key(key)->0, 0),
    }
}

/// How often Alt goes down for the first `n` keys on this layout.
pub open spec fn alt_count(layout: spec_fn(u16) -> i16, keys: Seq<KeyName>, n: nat) -> nat
    decreases n,
{
    if n == 0 {
        0
    } else {
        alt_count(layout, keys, (n - 1) as nat) + alts(code_on(layout, keys[n - 1]))
    }
}

proof fn lemma_count_grows(layout: spec_fn(u16) -> i16, keys: Seq<KeyName>, i: nat, n: nat)
    requires
        i <= n,
    ensures
        alt_count(layout, keys, i) <= alt_count(layout, keys, n),
    decreases n,
{
    if i < n {
        lemma_count_grows(layout, keys, i, (n - 1) as nat);
    }
}

/// Whether `later` is `earlier` after some more calls.
spec fn follows(earlier: Trail, later: Trail) -> bool {
    &&& later.replies == earlier.replies
    &&& earlier.calls.len() <= later.calls.len()
    &&& forall|i: int|
        0 <= i < earlier.calls.len() ==> later.calls[i] == #[trigger] earlier.calls[i]
}

proof fn lemma_transitions_follow(
    t: Trail,
    window: usize,
    alt: u8,
    vks: Seq<u16>,
    i: nat,
    down: bool,
)
    ensures
        follows(t, transitions_flow(t, window, alt, vks, i, down).trail),
    decreases vks.len() - i,
{
    if i < vks.len() {
        let first = transition_flow(t, window, alt, vks[i as int], down);
        assert(follows(t, first.trail));
        lemma_transitions_follow(first.trail, window, (first.value->0).alt, vks, i + 1, down);
    }
}

proof fn lemma_key_follows(t: Trail, window: usize, alt: u8, key: KeyName, down: bool)
    ensures
        follows(t, virtual_key_flow(t, key).trail),
        follows(
            virtual_key_flow(t, key).trail,
            key_flow(t, window, alt, key, down).trail,
        ),
        follows(t, key_flow(t, window, alt, key, down).trail),
{
    let looked = virtual_key_flow(t, key);
    if let Some(Ok(code)) = looked.value {
        lemma_transitions_follow(
            looked.trail,
            window,
            alt,
            strokes(code.0, code.1, down),
            0,
            down,
        );
    }
}

proof fn lemma_release_follows(
    t: Trail,
    window: usize,
    alt: u8,
    keys: Seq<KeyName>,
    n: nat,
    so_far: Outcome,
)
    ensures
        follows(t, release_held_flow(t, window, alt, keys, n, so_far).trail),
    decreases n,
{
    if n > 0 {
        lemma_key_follows(t, window, alt, keys[n - 1], false);
        let released = key_flow(t, window, alt, keys[n - 1], false);
        let turn = released.value->0;
        lemma_release_follows(
            released.trail,
            window,
            turn.alt,
            keys,
            (n - 1) as nat,
            global::first_failure(so_far, turn.result),
        );
    }
}

proof fn lemma_press_follows(t: Trail, window: usize, alt: u8, keys: Seq<KeyName>, i: nat)
    ensures
        follows(t, press_held_flow(t, window, alt, keys, i).trail),
    decreases keys.len() - i,
{
    if i < keys.len() {
        lemma_key_follows(t, window, alt, keys[i as int], true);
        let pressed = key_flow(t, window, alt, keys[i as int], true);
        let turn = pressed.value->0;
        lemma_release_follows(pressed.trail, window, turn.alt, keys, i, turn.result);
        lemma_press_follows(pressed.trail, window, turn.alt, keys, i + 1);
    }
}

proof fn lemma_code_is_answered(
    t: Trail,
    end: Trail,
    keys: Seq<KeyName>,
    j: int,
    layout: spec_fn(u16) -> i16,
    code: (u16, u8),
)
    requires
        0 <= j < keys.len(),
        virtual_key_flow(t, keys[j]).value == Some(Ok::<(u16, u8), Fault>(code)),
        follows(virtual_key_flow(t, keys[j]).trail, end),
        answered_by(end, t.calls.len(), keys, layout),
    ensures
        code == code_on(layout, keys[j]),
{
    if let KeyName::Char(c) = keys[j] {
        let looked = virtual_key_flow(t, keys[j]).trail;
        let at = t.calls.len() as int;
        assert(looked.calls[at] == Request::Plain(Plain::VkKeyScan { unit: text::utf16(c)[0] }));
        assert(end.calls[at] == looked.calls[at]);
    }
}

proof fn lemma_failure_stands(
    t: Trail,
    window: usize,
    alt: u8,
    keys: Seq<KeyName>,
    n: nat,
    so_far: Outcome,
)
    requires
        so_far is Err,
    ensures
        release_held_flow(t, window, alt, keys, n, so_far).value matches Some(turn) ==> turn.result
            is Err,
    decreases n,
{
    if n > 0 {
        let released = key_flow(t, window, alt, keys[n - 1], false);
        lemma_failure_stands(
            released.trail,
            window,
            (released.value->0).alt,
            keys,
            (n - 1) as nat,
            so_far,
        );
    }
}

proof fn lemma_alt_rises(
    t: Trail,
    window: usize,
    alt: u8,
    keys: Seq<KeyName>,
    i: nat,
    layout: spec_fn(u16) -> i16,
)
    requires
        i <= keys.len(),
        answered_by(
            press_held_flow(t, window, alt, keys, i).trail,
            t.calls.len(),
            keys,
            layout,
        ),
        alt + alt_count(layout, keys, keys.len()) - alt_count(layout, keys, i) <= u8::MAX,
        press_held_flow(t, window, alt, keys, i).value matches Some(turn) && turn.result is Ok,
    ensures
        (press_held_flow(t, window, alt, keys, i).value->0).alt == alt + alt_count(
            layout,
            keys,
            keys.len(),
        ) - alt_count(layout, keys, i),
    decreases keys.len() - i,
{
    if i < keys.len() {
        let key = keys[i as int];
        let end = press_held_flow(t, window, alt, keys, i).trail;
        let looked = virtual_key_flow(t, key);
        let pressed = key_flow(t, window, alt, key, true);
        let turn = pressed.value->0;
        if turn.result is Err {
            lemma_failure_stands(pressed.trail, window, turn.alt, keys, i, turn.result);
        } else {
            let code = (looked.value->0)->Ok_0;
            lemma_key_follows(t, window, alt, key, true);
            lemma_press_follows(pressed.trail, window, turn.alt, keys, i + 1);
            lemma_code_is_answered(t, end, keys, i as int, layout, code);
            lemma_strokes_hold_alts(code, true);
            lemma_count_grows(layout, keys, i + 1, keys.len());
            lemma_transitions(
                looked.trail,
                window,
                alt,
                strokes(code.0, code.1, true),
                0,
                true,
                turn,
            );
            lemma_alt_rises(pressed.trail, window, turn.alt, keys, i + 1, layout);
        }
    }
}

proof fn lemma_alt_falls(
    t: Trail,
    window: usize,
    alt: u8,
    keys: Seq<KeyName>,
    n: nat,
    so_far: Outcome,
    layout: spec_fn(u16) -> i16,
)
    requires
        n <= keys.len(),
        answered_by(
            release_held_flow(t, window, alt, keys, n, so_far).trail,
            t.calls.len(),
            keys,
            layout,
        ),
        alt >= alt_count(layout, keys, n),
        release_held_flow(t, window, alt, keys, n, so_far).value matches Some(turn) && turn.result
            is Ok,
    ensures
        (release_held_flow(t, window, alt, keys, n, so_far).value->0).alt == alt - alt_count(
            layout,
            keys,
            n,
        ),
    decreases n,
{
    if n > 0 {
        let key = keys[n - 1];
        let end = release_held_flow(t, window, alt, keys, n, so_far).trail;
        let looked = virtual_key_flow(t, key);
        let released = key_flow(t, window, alt, key, false);
        let turn = released.value->0;
        let failure = global::first_failure(so_far, turn.result);
        if failure is Err {
            lemma_failure_stands(released.trail, window, turn.alt, keys, (n - 1) as nat, failure);
        } else {
            let code = (looked.value->0)->Ok_0;
            lemma_key_follows(t, window, alt, key, false);
            lemma_release_follows(
                released.trail,
                window,
                turn.alt,
                keys,
                (n - 1) as nat,
                failure,
            );
            lemma_code_is_answered(t, end, keys, n - 1, layout, code);
            lemma_strokes_hold_alts(code, false);
            lemma_transitions(
                looked.trail,
                window,
                alt,
                strokes(code.0, code.1, false),
                0,
                false,
                turn,
            );
            lemma_alt_falls(
                released.trail,
                window,
                turn.alt,
                keys,
                (n - 1) as nat,
                failure,
                layout,
            );
        }
    }
}

/// Alt is down as often after keys went down and up again as it was before,
/// where every message was posted and the layout answered the same on both
/// ways. This holds of every key; for named keys the layout is never asked.
pub proof fn law_alt_depth_balances(
    t: Trail,
    later: Trail,
    window: usize,
    alt: u8,
    keys: Seq<KeyName>,
    layout: spec_fn(u16) -> i16,
    down: Turn,
    up: Turn,
)
    requires
        alt + alt_count(layout, keys, keys.len()) <= u8::MAX,
        press_held_flow(t, window, alt, keys, 0).value == Some(down),
        down.result is Ok,
        answered_by(
            press_held_flow(t, window, alt, keys, 0).trail,
            t.calls.len(),
            keys,
            layout,
        ),
        release_held_flow(later, window, down.alt, keys, keys.len(), Ok(())).value == Some(up),
        up.result is Ok,
        answered_by(
            release_held_flow(later, window, down.alt, keys, keys.len(), Ok(())).trail,
            later.calls.len(),
            keys,
            layout,
        ),
    ensures
        up.alt == alt,
{
    lemma_alt_rises(t, window, alt, keys, 0, layout);
    lemma_alt_falls(later, window, down.alt, keys, keys.len(), Ok(()), layout);
}

} // verus!
