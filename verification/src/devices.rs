//! What a request to the desktop does with the user's own pointer and keyboard,
//! action by action, and what it comes to.

use vstd::prelude::*;

use crate::deeds::lemma_success;
use crate::error::{Fault, Outcome};
use crate::global::{self, Held};
use crate::keys::{KeyName, Modifiers, MouseButton};
use crate::request::{Axis, Direction, Gesture, Spot};
use crate::tape::{Plain, Request, Trail};
use crate::{error, keys};

verus! {

/// The action that presses, releases or clicks a key.
pub open spec fn key(key: KeyName, direction: Direction) -> Request {
    Request::Plain(Plain::GlobalKey { key, direction })
}

/// The action that presses, releases or clicks a button.
pub open spec fn button(button: MouseButton, direction: Direction) -> Request {
    Request::Plain(Plain::GlobalButton { button, direction })
}

/// The action that moves the pointer.
pub open spec fn going(at: Spot) -> Request {
    Request::Plain(Plain::GlobalMove { at })
}

/// Keys that modifiers stand for, in the order they go down.
pub open spec fn modifying(modifiers: Modifiers) -> Seq<KeyName> {
    let ctrl: Seq<KeyName> = if modifiers.ctrl {
        seq![KeyName::Ctrl]
    } else {
        seq![]
    };
    let alt = if modifiers.alt {
        ctrl.push(KeyName::Alt)
    } else {
        ctrl
    };
    let shift = if modifiers.shift {
        alt.push(KeyName::Shift)
    } else {
        alt
    };
    if modifiers.meta {
        shift.push(KeyName::Meta)
    } else {
        shift
    }
}

/// Keys pressed in order.
pub open spec fn presses(keys: Seq<KeyName>) -> Seq<Request> {
    keys.map_values(|name: KeyName| key(name, Direction::Press))
}

/// Keys released, the last first.
pub open spec fn releases(keys: Seq<KeyName>) -> Seq<Request> {
    keys.reverse().map_values(|name: KeyName| key(name, Direction::Release))
}

/// `actions` with the modifiers held around them.
pub open spec fn holding(modifiers: Modifiers, actions: Seq<Request>) -> Seq<Request> {
    presses(modifying(modifiers)) + actions + releases(modifying(modifiers))
}

/// One action of the wheel, where there is any travel.
pub open spec fn turning(steps: i32, axis: Axis) -> Seq<Request> {
    if steps == 0 {
        seq![]
    } else {
        seq![Request::Plain(Plain::GlobalScroll { steps, axis })]
    }
}

/// The actions a gesture is made of.
pub open spec fn gestured(gesture: Gesture) -> Seq<Request> {
    match gesture {
        Gesture::Click { at, button: which, count, modifiers } => holding(
            modifiers,
            seq![going(at)] + Seq::new(count as nat, |i: int| button(which, Direction::Click)),
        ),
        Gesture::Move { at } => seq![going(at)],
        Gesture::Drag { path, button: which, modifiers } => holding(
            modifiers,
            seq![going(path[0]), button(which, Direction::Press)] + path.skip(1).map_values(
                |at: Spot| going(at),
            ) + seq![button(which, Direction::Release)],
        ),
        Gesture::Scroll { at, horizontal, vertical } => seq![going(at)] + turning(
            horizontal,
            Axis::Horizontal,
        ) + turning(vertical, Axis::Vertical),
    }
}

/// The actions a chord is made of: one key is clicked at once.
pub open spec fn chorded(keys: Seq<KeyName>) -> Seq<Request> {
    if keys.len() == 1 {
        seq![key(keys[0], Direction::Click)]
    } else {
        presses(keys) + releases(keys)
    }
}

/// Whether the answers up to index `k` all report success and the one at `k` is
/// the failure `fault`.
pub open spec fn fails_at(t: Trail, k: int, fault: Fault) -> bool {
    &&& global::all_performed(t, k as nat)
    &&& t.upcoming(k).performed_value() matches Err(detail)
    &&& fault == error::input_fault("Win32 global input failed: "@ + detail)
}

/// Whether `n` actions come to `outcome`: success where all of them succeed, and
/// else the failure of the first that fails.
pub open spec fn comes_to(t: Trail, n: nat, outcome: Outcome) -> bool {
    match outcome {
        Ok(_) => global::all_performed(t, n),
        Err(fault) => exists|k: int| 0 <= k < n && #[trigger] fails_at(t, k, fault),
    }
}

/// Whether `u` is `t` after these actions.
pub open spec fn acted(t: Trail, u: Trail, actions: Seq<Request>) -> bool {
    u.replies == t.replies && u.calls == t.calls + actions
}

/// Whether a run from `t` that ended in `u` with `outcome` did these actions: all
/// of them, in this order and nothing else, where it succeeded.
pub open spec fn did(t: Trail, u: Trail, outcome: Outcome, actions: Seq<Request>) -> bool {
    &&& comes_to(t, actions.len(), outcome)
    &&& outcome is Ok ==> acted(t, u, actions)
}

proof fn lemma_then(
    t: Trail,
    u: Trail,
    end: Trail,
    first: Seq<Request>,
    second: Seq<Request>,
    outcome: Outcome,
)
    requires
        global::all_performed(t, first.len()),
        acted(t, u, first),
        did(u, end, outcome, second),
    ensures
        did(t, end, outcome, first + second),
{
    let n = first.len() as int;
    assert forall|i: int| #[trigger] u.upcoming(i) == t.upcoming(n + i) by {}
    if outcome is Ok {
        assert forall|i: int| 0 <= i < n + second.len() implies (#[trigger] t.upcoming(
            i,
        )).performed_value() is Ok by {
            if i >= n {
                assert(u.upcoming(i - n).performed_value() is Ok);
            }
        }
        assert(end.calls =~= t.calls + (first + second));
    } else {
        let fault = outcome->Err_0;
        let k = choose|k: int| 0 <= k < second.len() && #[trigger] fails_at(u, k, fault);
        assert forall|i: int| 0 <= i < n + k implies (#[trigger] t.upcoming(
            i,
        )).performed_value() is Ok by {
            if i >= n {
                assert(u.upcoming(i - n).performed_value() is Ok);
            }
        }
        assert(u.upcoming(k) == t.upcoming(n + k));
        assert(fails_at(t, n + k, fault));
    }
}

proof fn lemma_fails(t: Trail, u: Trail, first: nat, actions: Seq<Request>, outcome: Outcome)
    requires
        first <= actions.len(),
        outcome is Err,
        comes_to(t, first, outcome),
    ensures
        did(t, u, outcome, actions),
{
    let fault = outcome->Err_0;
    let k = choose|k: int| 0 <= k < first && #[trigger] fails_at(t, k, fault);
    assert(fails_at(t, k, fault));
}

proof fn lemma_performs(t: Trail, action: Plain)
    requires
        global::perform_flow(t, action).value is Some,
    ensures
        ({
            let flow = global::perform_flow(t, action);
            &&& did(t, flow.trail, flow.value->0, seq![Request::Plain(action)])
            &&& acted(t, flow.trail, seq![Request::Plain(action)])
        }),
{
    let flow = global::perform_flow(t, action);
    assert(flow.trail.calls =~= t.calls + seq![Request::Plain(action)]);
    if let Err(fault) = flow.value->0 {
        assert(fails_at(t, 0, fault));
    }
}

proof fn lemma_presses(t: Trail, keys: Seq<KeyName>)
    requires
        global::press_keys_flow(t, keys, 0).value is Some,
    ensures
        ({
            let flow = global::press_keys_flow(t, keys, 0);
            did(t, flow.trail, flow.value->0, presses(keys))
        }),
{
    let flow = global::press_keys_flow(t, keys, 0);
    let k = global::law_failed_press_is_undone(t, keys);
    assert(global::press_calls(keys) =~= presses(keys));
    if k < keys.len() {
        assert(fails_at(t, k as int, (flow.value->0)->Err_0));
    } else {
        lemma_replies(t, keys, 0);
    }
}

proof fn lemma_replies(t: Trail, keys: Seq<KeyName>, i: nat)
    ensures
        global::press_keys_flow(t, keys, i).value == Some(Ok::<(), Fault>(()))
            ==> global::press_keys_flow(t, keys, i).trail.replies == t.replies,
    decreases keys.len() - i,
{
    if i < keys.len() {
        let press = Plain::GlobalKey { key: keys[i as int], direction: Direction::Press };
        let pressed = global::perform_flow(t, press);
        lemma_replies(pressed.trail, keys, i + 1);
        if pressed.value is Some && pressed.value->0 is Err && global::press_keys_flow(
            t,
            keys,
            i,
        ).value is Some {
            global::law_every_key_is_released(pressed.trail, keys, i, pressed.value->0);
        }
    }
}

proof fn lemma_releases(t: Trail, keys: Seq<KeyName>, n: nat)
    requires
        n <= keys.len(),
        global::release_keys_flow(t, keys, n, Ok(())).value is Some,
    ensures
        ({
            let flow = global::release_keys_flow(t, keys, n, Ok(()));
            did(t, flow.trail, flow.value->0, releases(keys.take(n as int)))
        }),
    decreases n,
{
    let flow = global::release_keys_flow(t, keys, n, Ok(()));
    let all = releases(keys.take(n as int));
    if n == 0 {
        assert(t.calls + all =~= t.calls);
    } else {
        let action = Plain::GlobalKey { key: keys[n - 1], direction: Direction::Release };
        let done = global::perform_flow(t, action);
        let first = seq![Request::Plain(action)];
        let rest = releases(keys.take(n - 1));
        lemma_performs(t, action);
        assert(all =~= first + rest);
        if done.value->0 is Ok {
            lemma_success(done.value->0);
            lemma_releases(done.trail, keys, (n - 1) as nat);
            lemma_then(t, done.trail, flow.trail, first, rest, flow.value->0);
        } else {
            global::law_every_key_is_released(done.trail, keys, (n - 1) as nat, done.value->0);
            lemma_fails(t, flow.trail, 1, all, flow.value->0);
        }
    }
}

proof fn lemma_clicks(t: Trail, which: MouseButton, left: nat)
    requires
        global::clicks_flow(t, which, left).value is Some,
    ensures
        ({
            let flow = global::clicks_flow(t, which, left);
            did(
                t,
                flow.trail,
                flow.value->0,
                Seq::new(left, |i: int| button(which, Direction::Click)),
            )
        }),
    decreases left,
{
    let flow = global::clicks_flow(t, which, left);
    let all = Seq::new(left, |i: int| button(which, Direction::Click));
    if left == 0 {
        assert(t.calls + all =~= t.calls);
    } else {
        let action = Plain::GlobalButton { button: which, direction: Direction::Click };
        let done = global::perform_flow(t, action);
        let first = seq![Request::Plain(action)];
        let rest = Seq::new((left - 1) as nat, |i: int| button(which, Direction::Click));
        lemma_performs(t, action);
        assert(all =~= first + rest);
        if done.value->0 is Ok {
            lemma_clicks(done.trail, which, (left - 1) as nat);
            lemma_then(t, done.trail, flow.trail, first, rest, flow.value->0);
        } else {
            lemma_fails(t, flow.trail, 1, all, flow.value->0);
        }
    }
}

proof fn lemma_moves(t: Trail, path: Seq<Spot>, i: nat)
    requires
        i <= path.len(),
        global::moves_flow(t, path, i).value is Some,
    ensures
        ({
            let flow = global::moves_flow(t, path, i);
            did(
                t,
                flow.trail,
                flow.value->0,
                path.skip(i as int).map_values(|at: Spot| going(at)),
            )
        }),
    decreases path.len() - i,
{
    let flow = global::moves_flow(t, path, i);
    let all = path.skip(i as int).map_values(|at: Spot| going(at));
    if i == path.len() {
        assert(t.calls + all =~= t.calls);
    } else {
        let action = Plain::GlobalMove { at: path[i as int] };
        let done = global::perform_flow(t, action);
        let first = seq![Request::Plain(action)];
        let rest = path.skip(i as int + 1).map_values(|at: Spot| going(at));
        lemma_performs(t, action);
        assert(all =~= first + rest);
        if done.value->0 is Ok {
            lemma_moves(done.trail, path, i + 1);
            lemma_then(t, done.trail, flow.trail, first, rest, flow.value->0);
        } else {
            lemma_fails(t, flow.trail, 1, all, flow.value->0);
        }
    }
}

/// What is done between the modifiers of a click or a drag.
pub open spec fn inner(held: Held<Seq<Spot>>) -> Seq<Request> {
    match held {
        Held::Clicks { at, button: which, count } => seq![going(at)] + Seq::new(
            count as nat,
            |i: int| button(which, Direction::Click),
        ),
        Held::Drag { path, button: which } => seq![
            going(path[0]),
            button(which, Direction::Press),
        ] + path.skip(1).map_values(|at: Spot| going(at)) + seq![
            button(which, Direction::Release),
        ],
    }
}

proof fn lemma_dragged(t: Trail, path: Seq<Spot>, which: MouseButton)
    requires
        path.len() > 0,
        global::held_flow(t, Held::Drag { path, button: which }).value is Some,
    ensures
        ({
            let held = Held::Drag { path, button: which };
            let flow = global::held_flow(t, held);
            did(t, flow.trail, flow.value->0, inner(held))
        }),
{
    let held = Held::Drag { path, button: which };
    let flow = global::held_flow(t, held);
    let end = flow.trail;
    let outcome = flow.value->0;
    let start = Plain::GlobalMove { at: path[0] };
    let down = Plain::GlobalButton { button: which, direction: Direction::Press };
    let up = Plain::GlobalButton { button: which, direction: Direction::Release };
    let a = seq![Request::Plain(start)];
    let b = seq![Request::Plain(down)];
    let c = path.skip(1).map_values(|at: Spot| going(at));
    let d = seq![Request::Plain(up)];
    assert(inner(held) =~= a + (b + (c + d)));
    let moved = global::perform_flow(t, start);
    lemma_performs(t, start);
    if moved.value->0 is Ok {
        let pressed = global::perform_flow(moved.trail, down);
        lemma_performs(moved.trail, down);
        if pressed.value->0 is Ok {
            let movement = global::moves_flow(pressed.trail, path, 1);
            lemma_moves(pressed.trail, path, 1);
            let released = global::perform_flow(movement.trail, up);
            lemma_performs(movement.trail, up);
            if movement.value->0 is Ok {
                lemma_then(pressed.trail, movement.trail, end, c, d, outcome);
            } else {
                lemma_fails(pressed.trail, end, c.len(), c + d, outcome);
            }
            lemma_then(moved.trail, pressed.trail, end, b, c + d, outcome);
        } else {
            lemma_fails(moved.trail, end, 1, b + (c + d), outcome);
        }
        lemma_then(t, moved.trail, end, a, b + (c + d), outcome);
    } else {
        lemma_fails(t, end, 1, inner(held), outcome);
    }
}

proof fn lemma_inner(t: Trail, held: Held<Seq<Spot>>)
    requires
        held matches Held::Drag { path, .. } ==> path.len() > 0,
        global::held_flow(t, held).value is Some,
    ensures
        ({
            let flow = global::held_flow(t, held);
            did(t, flow.trail, flow.value->0, inner(held))
        }),
{
    let flow = global::held_flow(t, held);
    match held {
        Held::Clicks { at, button: which, count } => {
            let start = Plain::GlobalMove { at };
            let first = seq![Request::Plain(start)];
            let rest = Seq::new(count as nat, |i: int| button(which, Direction::Click));
            let moved = global::perform_flow(t, start);
            lemma_performs(t, start);
            if moved.value->0 is Ok {
                lemma_clicks(moved.trail, which, count as nat);
                lemma_then(t, moved.trail, flow.trail, first, rest, flow.value->0);
            } else {
                lemma_fails(t, flow.trail, 1, first + rest, flow.value->0);
            }
        },
        Held::Drag { path, button: which } => {
            lemma_dragged(t, path, which);
        },
    }
}

proof fn lemma_held(t: Trail, modifiers: Modifiers, held: Held<Seq<Spot>>)
    requires
        held matches Held::Drag { path, .. } ==> path.len() > 0,
        global::with_global_modifiers_flow(t, modifiers, held).value is Some,
    ensures
        ({
            let flow = global::with_global_modifiers_flow(t, modifiers, held);
            did(t, flow.trail, flow.value->0, holding(modifiers, inner(held)))
        }),
{
    let flow = global::with_global_modifiers_flow(t, modifiers, held);
    let end = flow.trail;
    let outcome = flow.value->0;
    let names = keys::held_keys(modifiers);
    assert(names =~= modifying(modifiers));
    let a = presses(names);
    let b = inner(held);
    let c = releases(names);
    assert(holding(modifiers, b) =~= a + (b + c));
    assert(names.take(names.len() as int) =~= names);
    let pressed = global::press_keys_flow(t, names, 0);
    lemma_presses(t, names);
    if pressed.value->0 is Ok {
        let done = global::held_flow(pressed.trail, held);
        lemma_inner(pressed.trail, held);
        if done.value->0 is Ok {
            lemma_success(done.value->0);
            lemma_releases(done.trail, names, names.len());
            lemma_then(pressed.trail, done.trail, end, b, c, outcome);
        } else {
            global::law_every_key_is_released(done.trail, names, names.len(), done.value->0);
            lemma_fails(pressed.trail, end, b.len(), b + c, outcome);
        }
        lemma_then(t, pressed.trail, end, a, b + c, outcome);
    } else {
        lemma_fails(t, end, a.len(), a + (b + c), outcome);
    }
}

proof fn lemma_turned(t: Trail, steps: i32, axis: Axis)
    requires
        global::scroll_axis_flow(t, steps, axis).value is Some,
    ensures
        ({
            let flow = global::scroll_axis_flow(t, steps, axis);
            did(t, flow.trail, flow.value->0, turning(steps, axis))
        }),
{
    if steps == 0 {
        assert(t.calls + turning(steps, axis) =~= t.calls);
    } else {
        lemma_performs(t, Plain::GlobalScroll { steps, axis });
    }
}

/// A gesture on the desktop is made of its actions, in order, and of nothing
/// else: modifiers down, the moves and buttons it asks for, modifiers up again.
/// It succeeds where all of them do, and else reports the first that failed.
pub proof fn law_desktop_gesture(t: Trail, gesture: Gesture)
    requires
        gesture matches Gesture::Drag { path, .. } ==> path.len() > 0,
        global::global_pointer_flow(t, gesture).value is Some,
    ensures
        ({
            let flow = global::global_pointer_flow(t, gesture);
            did(t, flow.trail, flow.value->0, gestured(gesture))
        }),
{
    let flow = global::global_pointer_flow(t, gesture);
    match gesture {
        Gesture::Click { at, button: which, count, modifiers } => {
            lemma_held(t, modifiers, Held::Clicks { at, button: which, count });
        },
        Gesture::Move { at } => {
            lemma_performs(t, Plain::GlobalMove { at });
        },
        Gesture::Drag { path, button: which, modifiers } => {
            lemma_held(t, modifiers, Held::Drag { path, button: which });
        },
        Gesture::Scroll { at, horizontal, vertical } => {
            let start = Plain::GlobalMove { at };
            let a = seq![Request::Plain(start)];
            let b = turning(horizontal, Axis::Horizontal);
            let c = turning(vertical, Axis::Vertical);
            assert(gestured(gesture) =~= a + (b + c));
            let moved = global::perform_flow(t, start);
            lemma_performs(t, start);
            if moved.value->0 is Ok {
                let turned = global::scroll_axis_flow(moved.trail, horizontal, Axis::Horizontal);
                lemma_turned(moved.trail, horizontal, Axis::Horizontal);
                if turned.value->0 is Ok {
                    lemma_turned(turned.trail, vertical, Axis::Vertical);
                    lemma_then(moved.trail, turned.trail, flow.trail, b, c, flow.value->0);
                } else {
                    lemma_fails(moved.trail, flow.trail, b.len(), b + c, flow.value->0);
                }
                lemma_then(t, moved.trail, flow.trail, a, b + c, flow.value->0);
            } else {
                lemma_fails(t, flow.trail, 1, a + (b + c), flow.value->0);
            }
        },
    }
}

/// A chord on the desktop presses its keys in order and releases them in
/// reverse, and does nothing else. It succeeds where every action does, and
/// else reports the first that failed.
pub proof fn law_desktop_chord(t: Trail, keys: Seq<KeyName>)
    requires
        global::global_key_chord_flow(t, keys).value is Some,
    ensures
        ({
            let flow = global::global_key_chord_flow(t, keys);
            did(t, flow.trail, flow.value->0, chorded(keys))
        }),
{
    let flow = global::global_key_chord_flow(t, keys);
    if keys.len() == 1 {
        lemma_performs(t, Plain::GlobalKey { key: keys[0], direction: Direction::Click });
    } else {
        let pressed = global::press_keys_flow(t, keys, 0);
        lemma_presses(t, keys);
        assert(keys.take(keys.len() as int) =~= keys);
        if pressed.value->0 is Ok {
            lemma_releases(pressed.trail, keys, keys.len());
            lemma_then(
                t,
                pressed.trail,
                flow.trail,
                presses(keys),
                releases(keys),
                flow.value->0,
            );
        } else {
            lemma_fails(t, flow.trail, presses(keys).len(), chorded(keys), flow.value->0);
        }
    }
}

/// Text for the desktop is handed over whole, in one action.
pub proof fn law_desktop_text(t: Trail, text: Seq<char>)
    requires
        global::global_text_flow(t, text).value is Some,
    ensures
        ({
            let flow = global::global_text_flow(t, text);
            did(t, flow.trail, flow.value->0, seq![Request::GlobalText { text }])
        }),
{
    let flow = global::global_text_flow(t, text);
    assert(flow.trail.calls =~= t.calls + seq![Request::GlobalText { text }]);
    if let Err(fault) = flow.value->0 {
        assert(fails_at(t, 0, fault));
    }
}

} // verus!
