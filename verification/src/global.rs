//! Input through the user's own pointer and keyboard.

use vstd::prelude::*;
use vstd::string::*;

use crate::error::{CoreResult, DesktopError, Fault, Outcome};
use crate::keys::{modifier_keys, KeyName, Modifiers, MouseButton};
use crate::request::{Axis, Direction, Gesture, PointerEvent, Spot};
use crate::tape::{Call, Flow, Plain, Reply, Request, Tape, Trail};
use crate::{error, keys, tape};

verus! {

/// A failure of the user's own devices.
pub open spec fn enigo_fault(detail: Seq<char>) -> Fault {
    error::input_fault("Win32 global input failed: "@ + detail)
}

/// A failure of the user's own devices, with what it reported.
pub fn enigo_error(error: &str) -> (failure: DesktopError)
    ensures
        failure@ == enigo_fault(error@),
{
    let mut message = "Win32 global input failed: ".to_owned();
    message.append(error);
    DesktopError::input_failed(message)
}

/// A failure to set up the user's own devices, with what it reported.
pub fn initialization_error(error: &str) -> (failure: DesktopError)
    ensures
        failure@ == error::input_fault("Win32 input initialization failed: "@ + error@),
{
    let mut message = "Win32 input initialization failed: ".to_owned();
    message.append(error);
    DesktopError::input_failed(message)
}

/// What an action on the user's own devices came to.
pub open spec fn performed(done: Reply) -> Outcome {
    match done.performed_value() {
        Ok(_) => Ok(()),
        Err(detail) => Err(enigo_fault(detail)),
    }
}

/// What an action on the user's own devices came to.
fn judge(done: &Reply) -> (outcome: CoreResult<()>)
    ensures
        error::judged(outcome) == performed(*done),
{
    match done.performed() {
        Some(detail) => Err(enigo_error(detail)),
        None => Ok(()),
    }
}

/// One action on the user's own devices.
pub open spec fn perform_flow(t: Trail, action: Plain) -> Flow<Outcome> {
    t.plain(action).bind(|done: Reply, t: Trail| t.give(performed(done)))
}

/// One action on the user's own devices.
pub fn perform(tape: &mut Tape, action: Plain) -> (outcome: Option<CoreResult<()>>)
    ensures
        Flow::of(final(tape)@, tape::seen(outcome)) == perform_flow(old(tape)@, action),
{
    let done = tape.plain(action)?;
    Some(judge(done))
}

/// Text typed on the user's own keyboard.
pub open spec fn global_text_flow(t: Trail, text: Seq<char>) -> Flow<Outcome> {
    t.ask(Request::GlobalText { text }).bind(|done: Reply, t: Trail| t.give(performed(done)))
}

/// Types text on the user's own keyboard.
pub fn global_text(tape: &mut Tape, text: &str) -> (outcome: Option<CoreResult<()>>)
    ensures
        Flow::of(final(tape)@, tape::seen(outcome)) == global_text_flow(old(tape)@, text@),
{
    let done = tape.ask(Call::GlobalText { text: text.to_owned() })?;
    Some(judge(done))
}

/// The first of two outcomes that is a failure.
pub open spec fn first_failure(earlier: Outcome, later: Outcome) -> Outcome {
    match earlier {
        Ok(_) => later,
        Err(fault) => Err(fault),
    }
}

/// Releases the first `n` keys, the last of them first, whatever fails, and
/// yields the first failure of `so_far` and the releases.
pub open spec fn release_keys_flow(t: Trail, keys: Seq<KeyName>, n: nat, so_far: Outcome) -> Flow<
    Outcome,
>
    decreases n,
{
    if n == 0 {
        t.give(so_far)
    } else {
        perform_flow(
            t,
            Plain::GlobalKey { key: keys[n - 1], direction: Direction::Release },
        ).bind(
            |released: Outcome, t: Trail|
                release_keys_flow(t, keys, (n - 1) as nat, first_failure(so_far, released)),
        )
    }
}

/// Presses the keys from index `i` on. Where one fails, those before it are
/// released again.
pub open spec fn press_keys_flow(t: Trail, keys: Seq<KeyName>, i: nat) -> Flow<Outcome>
    decreases keys.len() - i,
{
    if i >= keys.len() {
        t.give(Ok(()))
    } else {
        perform_flow(
            t,
            Plain::GlobalKey { key: keys[i as int], direction: Direction::Press },
        ).bind(
            |pressed: Outcome, t: Trail|
                match pressed {
                    Ok(_) => press_keys_flow(t, keys, i + 1),
                    Err(fault) => release_keys_flow(t, keys, i, Err(fault)),
                },
        )
    }
}

/// Releases the first `n` keys, the last of them first, whatever fails, and
/// returns the first failure of `so_far` and the releases.
fn release_keys(
    tape: &mut Tape,
    keys: &[KeyName],
    n: usize,
    so_far: CoreResult<()>,
) -> (outcome: Option<CoreResult<()>>)
    requires
        n <= keys@.len(),
    ensures
        Flow::of(final(tape)@, tape::seen(outcome)) == release_keys_flow(
            old(tape)@,
            keys@,
            n as nat,
            error::judged(so_far),
        ),
{
    let mut result = so_far;
    let mut left: usize = n;
    while left > 0
        invariant
            left <= keys@.len(),
            release_keys_flow(tape@, keys@, left as nat, error::judged(result))
                == release_keys_flow(old(tape)@, keys@, n as nat, error::judged(so_far)),
        decreases left,
    {
        let released = perform(
            tape,
            Plain::GlobalKey { key: keys[left - 1], direction: Direction::Release },
        )?;
        if result.is_ok() {
            result = released;
        }
        left = left - 1;
    }
    Some(result)
}

/// Presses the keys in order. Where one fails, those before it are released
/// again and its failure is returned.
fn press_keys(tape: &mut Tape, keys: &[KeyName]) -> (outcome: Option<CoreResult<()>>)
    ensures
        Flow::of(final(tape)@, tape::seen(outcome)) == press_keys_flow(old(tape)@, keys@, 0),
{
    let mut i: usize = 0;
    while i < keys.len()
        invariant
            i <= keys@.len(),
            press_keys_flow(tape@, keys@, i as nat) == press_keys_flow(old(tape)@, keys@, 0),
        decreases keys@.len() - i,
    {
        if let Err(failure) = perform(
            tape,
            Plain::GlobalKey { key: keys[i], direction: Direction::Press },
        )? {
            return release_keys(tape, keys, i, Err(failure));
        }
        i = i + 1;
    }
    Some(Ok(()))
}

/// What is done while modifiers are held.
pub enum Held<P> {
    Clicks { at: Spot, button: MouseButton, count: u32 },
    Drag { path: P, button: MouseButton },
}

impl<'a> View for Held<&'a [Spot]> {
    type V = Held<Seq<Spot>>;

    open spec fn view(&self) -> Held<Seq<Spot>> {
        match self {
            Held::Clicks { at, button, count } => Held::Clicks {
                at: *at,
                button: *button,
                count: *count,
            },
            Held::Drag { path, button } => Held::Drag { path: path@, button: *button },
        }
    }
}

/// `left` more clicks, up to the first that fails.
pub open spec fn clicks_flow(t: Trail, button: MouseButton, left: nat) -> Flow<Outcome>
    decreases left,
{
    if left == 0 {
        t.give(Ok(()))
    } else {
        perform_flow(t, Plain::GlobalButton { button, direction: Direction::Click }).bind_ok(
            |_clicked: (), t: Trail| clicks_flow(t, button, (left - 1) as nat),
        )
    }
}

/// Moves to the points from index `i` on, up to the first move that fails.
pub open spec fn moves_flow(t: Trail, path: Seq<Spot>, i: nat) -> Flow<Outcome>
    decreases path.len() - i,
{
    if i >= path.len() {
        t.give(Ok(()))
    } else {
        perform_flow(t, Plain::GlobalMove { at: path[i as int] }).bind_ok(
            |_moved: (), t: Trail| moves_flow(t, path, i + 1),
        )
    }
}

/// What is done while modifiers are held. Once a drag has pressed its button,
/// it releases it whatever its moves come to.
pub open spec fn held_flow(t: Trail, held: Held<Seq<Spot>>) -> Flow<Outcome> {
    match held {
        Held::Clicks { at, button, count } => perform_flow(t, Plain::GlobalMove { at }).bind_ok(
            |_moved: (), t: Trail| clicks_flow(t, button, count as nat),
        ),
        Held::Drag { path, button } => perform_flow(
            t,
            Plain::GlobalMove { at: path[0] },
        ).bind_ok(
            |_moved: (), t: Trail|
                perform_flow(
                    t,
                    Plain::GlobalButton { button, direction: Direction::Press },
                ).bind_ok(
                    |_pressed: (), t: Trail|
                        moves_flow(t, path, 1).bind(
                            |movement: Outcome, t: Trail|
                                perform_flow(
                                    t,
                                    Plain::GlobalButton { button, direction: Direction::Release },
                                ).bind(
                                    |released: Outcome, t: Trail|
                                        t.give(first_failure(movement, released)),
                                ),
                        ),
                ),
        ),
    }
}

/// Presses the modifiers, does `held`, and releases them again in reverse.
pub open spec fn with_global_modifiers_flow(
    t: Trail,
    modifiers: Modifiers,
    held: Held<Seq<Spot>>,
) -> Flow<Outcome> {
    let keys = keys::held_keys(modifiers);
    press_keys_flow(t, keys, 0).bind_ok(
        |_pressed: (), t: Trail|
            held_flow(t, held).bind(
                |done: Outcome, t: Trail| release_keys_flow(t, keys, keys.len(), done),
            ),
    )
}

/// Moves to the points from index 1 on, up to the first move that fails.
fn follow(tape: &mut Tape, path: &[Spot]) -> (outcome: Option<CoreResult<()>>)
    requires
        path@.len() > 0,
    ensures
        Flow::of(final(tape)@, tape::seen(outcome)) == moves_flow(old(tape)@, path@, 1),
{
    let mut i: usize = 1;
    while i < path.len()
        invariant
            1 <= i <= path@.len(),
            moves_flow(tape@, path@, i as nat) == moves_flow(old(tape)@, path@, 1),
        decreases path@.len() - i,
    {
        if let Err(failure) = perform(tape, Plain::GlobalMove { at: path[i] })? {
            return Some(Err(failure));
        }
        i = i + 1;
    }
    Some(Ok(()))
}

/// What is done while modifiers are held.
fn hold(tape: &mut Tape, held: &Held<&[Spot]>) -> (outcome: Option<CoreResult<()>>)
    requires
        held matches Held::Drag { path, .. } ==> path@.len() > 0,
    ensures
        Flow::of(final(tape)@, tape::seen(outcome)) == held_flow(old(tape)@, held@),
{
    match held {
        Held::Clicks { at, button, count } => {
            if let Err(failure) = perform(tape, Plain::GlobalMove { at: *at })? {
                return Some(Err(failure));
            }
            let mut left: u32 = *count;
            while left > 0
                invariant
                    clicks_flow(tape@, *button, left as nat) == held_flow(old(tape)@, held@),
                decreases left,
            {
                if let Err(failure) = perform(
                    tape,
                    Plain::GlobalButton { button: *button, direction: Direction::Click },
                )? {
                    return Some(Err(failure));
                }
                left = left - 1;
            }
            Some(Ok(()))
        },
        Held::Drag { path, button } => {
            if let Err(failure) = perform(tape, Plain::GlobalMove { at: path[0] })? {
                return Some(Err(failure));
            }
            if let Err(failure) = perform(
                tape,
                Plain::GlobalButton { button: *button, direction: Direction::Press },
            )? {
                return Some(Err(failure));
            }
            let movement = follow(tape, path)?;
            let released = perform(
                tape,
                Plain::GlobalButton { button: *button, direction: Direction::Release },
            )?;
            if movement.is_ok() {
                Some(released)
            } else {
                Some(movement)
            }
        },
    }
}

/// Presses the modifiers, does `held`, and releases them again in reverse.
pub fn with_global_modifiers(
    tape: &mut Tape,
    modifiers: Modifiers,
    held: &Held<&[Spot]>,
) -> (outcome: Option<CoreResult<()>>)
    requires
        held matches Held::Drag { path, .. } ==> path@.len() > 0,
    ensures
        Flow::of(final(tape)@, tape::seen(outcome)) == with_global_modifiers_flow(
            old(tape)@,
            modifiers,
            held@,
        ),
{
    let keys = modifier_keys(modifiers);
    if let Err(failure) = press_keys(tape, keys.as_slice())? {
        return Some(Err(failure));
    }
    let done = hold(tape, held)?;
    release_keys(tape, keys.as_slice(), keys.len(), done)
}

/// Turns the wheel by `steps` notches, where there are any.
pub open spec fn scroll_axis_flow(t: Trail, steps: i32, axis: Axis) -> Flow<Outcome> {
    if steps == 0 {
        t.give(Ok(()))
    } else {
        perform_flow(t, Plain::GlobalScroll { steps, axis })
    }
}

/// A gesture with the user's own pointer.
pub open spec fn global_pointer_flow(t: Trail, gesture: Gesture) -> Flow<Outcome> {
    match gesture {
        Gesture::Click { at, button, count, modifiers } => with_global_modifiers_flow(
            t,
            modifiers,
            Held::Clicks { at, button, count },
        ),
        Gesture::Move { at } => perform_flow(t, Plain::GlobalMove { at }),
        Gesture::Drag { path, button, modifiers } => if path.len() == 0 {
            t.give(Err(error::input_fault("drag path is empty"@)))
        } else {
            with_global_modifiers_flow(t, modifiers, Held::Drag { path, button })
        },
        Gesture::Scroll { at, horizontal, vertical } => perform_flow(
            t,
            Plain::GlobalMove { at },
        ).bind_ok(
            |_moved: (), t: Trail|
                scroll_axis_flow(t, horizontal, Axis::Horizontal).bind_ok(
                    |_turned: (), t: Trail| scroll_axis_flow(t, vertical, Axis::Vertical),
                ),
        ),
    }
}

/// Turns the wheel by `steps` notches, where there are any.
fn scroll_axis(tape: &mut Tape, steps: i32, axis: Axis) -> (outcome: Option<CoreResult<()>>)
    ensures
        Flow::of(final(tape)@, tape::seen(outcome)) == scroll_axis_flow(old(tape)@, steps, axis),
{
    if steps == 0 {
        Some(Ok(()))
    } else {
        perform(tape, Plain::GlobalScroll { steps, axis })
    }
}

/// A gesture with the user's own pointer.
pub fn global_pointer(tape: &mut Tape, event: &PointerEvent) -> (outcome: Option<CoreResult<()>>)
    ensures
        Flow::of(final(tape)@, tape::seen(outcome)) == global_pointer_flow(old(tape)@, event@),
{
    match event {
        PointerEvent::Click { at, button, count, modifiers } => with_global_modifiers(
            tape,
            *modifiers,
            &Held::Clicks { at: *at, button: *button, count: *count },
        ),
        PointerEvent::Move { at } => perform(tape, Plain::GlobalMove { at: *at }),
        PointerEvent::Drag { path, button, modifiers } => {
            if path.len() == 0 {
                return Some(Err(DesktopError::input_failed("drag path is empty".to_owned())));
            }
            with_global_modifiers(
                tape,
                *modifiers,
                &Held::Drag { path: path.as_slice(), button: *button },
            )
        },
        PointerEvent::Scroll { at, horizontal, vertical } => {
            if let Err(failure) = perform(tape, Plain::GlobalMove { at: *at })? {
                return Some(Err(failure));
            }
            if let Err(failure) = scroll_axis(tape, *horizontal, Axis::Horizontal)? {
                return Some(Err(failure));
            }
            scroll_axis(tape, *vertical, Axis::Vertical)
        },
    }
}

/// Presses the keys in order and releases them in reverse. A single key is
/// clicked in one action.
pub open spec fn global_key_chord_flow(t: Trail, keys: Seq<KeyName>) -> Flow<Outcome> {
    if keys.len() == 1 {
        perform_flow(t, Plain::GlobalKey { key: keys[0], direction: Direction::Click })
    } else {
        press_keys_flow(t, keys, 0).bind_ok(
            |_pressed: (), t: Trail| release_keys_flow(t, keys, keys.len(), Ok(())),
        )
    }
}

/// Presses the keys in order and releases them in reverse.
pub fn global_key_chord(tape: &mut Tape, keys: &[KeyName]) -> (outcome: Option<CoreResult<()>>)
    ensures
        Flow::of(final(tape)@, tape::seen(outcome)) == global_key_chord_flow(old(tape)@, keys@),
{
    if keys.len() == 1 {
        return perform(
            tape,
            Plain::GlobalKey { key: keys[0], direction: Direction::Click },
        );
    }
    if let Err(failure) = press_keys(tape, keys)? {
        return Some(Err(failure));
    }
    release_keys(tape, keys, keys.len(), Ok(()))
}

/// The calls that press keys in order.
pub open spec fn press_calls(keys: Seq<KeyName>) -> Seq<Request> {
    Seq::new(
        keys.len(),
        |i: int| Request::Plain(Plain::GlobalKey { key: keys[i], direction: Direction::Press }),
    )
}

/// The calls that release keys, the last first.
pub open spec fn release_calls(keys: Seq<KeyName>) -> Seq<Request> {
    Seq::new(
        keys.len(),
        |i: int|
            Request::Plain(
                Plain::GlobalKey { key: keys[keys.len() - 1 - i], direction: Direction::Release },
            ),
    )
}

/// Whether the next `n` actions all succeed.
pub open spec fn all_performed(t: Trail, n: nat) -> bool {
    forall|i: int| 0 <= i < n ==> (#[trigger] t.upcoming(i)).performed_value() is Ok
}

/// The first `n` keys are released, the last first, whatever fails. A failure
/// from before stands; without one, all is well where every release succeeds.
pub proof fn law_every_key_is_released(t: Trail, keys: Seq<KeyName>, n: nat, so_far: Outcome)
    requires
        n <= keys.len(),
        release_keys_flow(t, keys, n, so_far).value is Some,
    ensures
        release_keys_flow(t, keys, n, so_far).trail.calls == t.calls + release_calls(
            keys.take(n as int),
        ),
        so_far is Err ==> release_keys_flow(t, keys, n, so_far).value == Some(so_far),
        so_far is Ok ==> (release_keys_flow(t, keys, n, so_far).value->0 is Ok <==> all_performed(
            t,
            n,
        )),
    decreases n,
{
    if n > 0 {
        let release = Plain::GlobalKey { key: keys[n - 1], direction: Direction::Release };
        let released = perform_flow(t, release);
        let u = released.trail;
        law_every_key_is_released(
            u,
            keys,
            (n - 1) as nat,
            first_failure(so_far, released.value->0),
        );
        assert(release_calls(keys.take(n as int)) =~= seq![Request::Plain(release)]
            + release_calls(keys.take(n - 1)));
        assert(t.calls + (seq![Request::Plain(release)] + release_calls(keys.take(n - 1)))
            =~= u.calls + release_calls(keys.take(n - 1)));
        assert forall|i: int| 0 <= i < n - 1 implies #[trigger] u.upcoming(i) == t.upcoming(
            i + 1,
        ) by {}
        if all_performed(t, n) {
            assert(t.upcoming(0).performed_value() is Ok);
            assert forall|i: int| 0 <= i < n - 1 implies (#[trigger] u.upcoming(
                i,
            )).performed_value() is Ok by {
                assert(t.upcoming(i + 1).performed_value() is Ok);
            }
        }
        if all_performed(u, (n - 1) as nat) && t.upcoming(0).performed_value() is Ok {
            assert forall|i: int| 0 <= i < n implies (#[trigger] t.upcoming(
                i,
            )).performed_value() is Ok by {
                if i > 0 {
                    assert(u.upcoming(i - 1).performed_value() is Ok);
                }
            }
        }
    } else {
        assert(t.calls + release_calls(keys.take(0)) =~= t.calls);
    }
}

/// Keys are pressed in order up to the first that fails. Where `k` were pressed
/// and the next one failed, those `k` are released again, the last first, and
/// the caller gets that failure.
pub proof fn law_failed_press_is_undone(t: Trail, keys: Seq<KeyName>) -> (k: nat)
    requires
        press_keys_flow(t, keys, 0).value is Some,
    ensures
        k <= keys.len(),
        all_performed(t, k),
        k == keys.len() ==> {
            &&& press_keys_flow(t, keys, 0).value == Some(Ok::<(), Fault>(()))
            &&& press_keys_flow(t, keys, 0).trail.calls == t.calls + press_calls(keys)
        },
        k < keys.len() ==> {
            &&& t.upcoming(k as int).performed_value() matches Err(detail)
            &&& press_keys_flow(t, keys, 0).value == Some(Err::<(), Fault>(enigo_fault(detail)))
            &&& press_keys_flow(t, keys, 0).trail.calls == t.calls + press_calls(
                keys.take(k as int + 1),
            ) + release_calls(keys.take(k as int))
        },
{
    assert(t.calls + press_calls(keys.take(0)) =~= t.calls);
    lemma_pressed_from(t, t, keys, 0)
}

proof fn lemma_pressed_from(start: Trail, t: Trail, keys: Seq<KeyName>, i: nat) -> (k: nat)
    requires
        i <= keys.len(),
        t.replies == start.replies,
        t.calls == start.calls + press_calls(keys.take(i as int)),
        all_performed(start, i),
        press_keys_flow(t, keys, i).value is Some,
    ensures
        k <= keys.len(),
        all_performed(start, k),
        k == keys.len() ==> {
            &&& press_keys_flow(t, keys, i).value == Some(Ok::<(), Fault>(()))
            &&& press_keys_flow(t, keys, i).trail.calls == start.calls + press_calls(keys)
        },
        k < keys.len() ==> {
            &&& start.upcoming(k as int).performed_value() matches Err(detail)
            &&& press_keys_flow(t, keys, i).value == Some(Err::<(), Fault>(enigo_fault(detail)))
            &&& press_keys_flow(t, keys, i).trail.calls == start.calls + press_calls(
                keys.take(k as int + 1),
            ) + release_calls(keys.take(k as int))
        },
    decreases keys.len() - i,
{
    if i >= keys.len() {
        assert(keys.take(i as int) =~= keys);
        i
    } else {
        let press = Plain::GlobalKey { key: keys[i as int], direction: Direction::Press };
        let pressed = perform_flow(t, press);
        let u = pressed.trail;
        assert(press_calls(keys.take(i as int + 1)) =~= press_calls(keys.take(i as int)).push(
            Request::Plain(press),
        ));
        assert(u.calls =~= start.calls + press_calls(keys.take(i as int + 1)));
        assert(start.upcoming(i as int) == t.upcoming(0));
        if pressed.value->0 is Ok {
            lemma_pressed_from(start, u, keys, i + 1)
        } else {
            law_every_key_is_released(u, keys, i, pressed.value->0);
            i
        }
    }
}

/// A chord of several keys presses them in order and releases every key that
/// went down, the last first, whatever fails.
pub proof fn law_chord_leaves_no_key_down(t: Trail, keys: Seq<KeyName>) -> (k: nat)
    requires
        keys.len() != 1,
        global_key_chord_flow(t, keys).value is Some,
    ensures
        k <= keys.len(),
        all_performed(t, k),
        k < keys.len() ==> t.upcoming(k as int).performed_value() is Err
            && global_key_chord_flow(t, keys).value->0 is Err,
        global_key_chord_flow(t, keys).trail.calls == t.calls + press_calls(
            keys.take(
                if k < keys.len() {
                    k as int + 1
                } else {
                    k as int
                },
            ),
        ) + release_calls(keys.take(k as int)),
{
    let k = law_failed_press_is_undone(t, keys);
    assert(keys.take(keys.len() as int) =~= keys);
    if k == keys.len() {
        let pressed = press_keys_flow(t, keys, 0);
        law_every_key_is_released(pressed.trail, keys, keys.len(), Ok(()));
    }
    k
}

/// Modifiers that went down for a gesture go up again, the last first, whatever
/// the gesture comes to, and the gesture's own failure is the one reported.
pub proof fn law_modifiers_are_released(t: Trail, modifiers: Modifiers, held: Held<Seq<Spot>>)
    requires
        with_global_modifiers_flow(t, modifiers, held).value is Some,
    ensures
        ({
            let keys = keys::held_keys(modifiers);
            let pressed = press_keys_flow(t, keys, 0);
            let done = held_flow(pressed.trail, held);
            let end = with_global_modifiers_flow(t, modifiers, held);
            &&& pressed.value == Some(Ok::<(), Fault>(())) ==> {
                &&& pressed.trail.calls == t.calls + press_calls(keys)
                &&& end.trail.calls == done.trail.calls + release_calls(keys)
                &&& done.value->0 is Err ==> end.value == done.value
            }
            &&& pressed.value->0 is Err ==> end == pressed
        }),
{
    let keys = keys::held_keys(modifiers);
    let pressed = press_keys_flow(t, keys, 0);
    let k = law_failed_press_is_undone(t, keys);
    assert(keys.take(keys.len() as int) =~= keys);
    if pressed.value->0 is Ok {
        let done = held_flow(pressed.trail, held);
        law_every_key_is_released(done.trail, keys, keys.len(), done.value->0);
    }
}

/// Once a drag has pressed its button, the last thing it does is to release it,
/// whatever its moves come to.
pub proof fn law_drag_releases_its_button(t: Trail, path: Seq<Spot>, button: MouseButton)
    requires
        held_flow(t, Held::Drag { path, button }).value is Some,
        t.upcoming(0).performed_value() is Ok,
        t.upcoming(1).performed_value() is Ok,
    ensures
        held_flow(t, Held::Drag { path, button }).trail.calls.last() == Request::Plain(
            Plain::GlobalButton { button, direction: Direction::Release },
        ),
{
}

} // verus!
