//! Whether a window can receive input at all, and whether posted input would
//! reach it.

use vstd::prelude::*;
use vstd::string::*;

use crate::error::{CoreResult, DesktopError, ErrorKind, Fault, Outcome};
use crate::request::EventKind;
use crate::tape::{Call, Flow, Plain, Reply, Request, Tape, Trail};
use crate::text::parse_word;
use crate::window::{
    class_name, has_chromium_descendant, is_xaml_host, owns_foreground, uipi_block,
};
use crate::{error, tape, text, window};

verus! {

/// The live window that an identifier names.
pub open spec fn hwnd_flow(t: Trail, id: Seq<char>) -> Flow<Result<usize, Fault>> {
    match text::word_of(id) {
        None => t.give(
            Err(
                Fault {
                    kind: ErrorKind::InvalidTarget,
                    message: "invalid Win32 window id '"@ + id + "'"@,
                },
            ),
        ),
        Some(window) => t.plain(Plain::IsWindow { window }).bind(
            |live: Reply, t: Trail|
                if live.flag_value() {
                    t.give(Ok(window))
                } else {
                    t.give(
                        Err(
                            Fault {
                                kind: ErrorKind::WindowNotFound,
                                message: "target window '"@ + id + "' is no longer present"@,
                            },
                        ),
                    )
                },
        ),
    }
}

/// The live window that an identifier names.
pub fn hwnd(tape: &mut Tape, id: &str) -> (window: Option<CoreResult<usize>>)
    ensures
        Flow::of(final(tape)@, tape::seen(window)) == hwnd_flow(old(tape)@, id@),
{
    match parse_word(id) {
        None => {
            let mut message = "invalid Win32 window id '".to_owned();
            message.append(id);
            message.append("'");
            Some(Err(DesktopError::invalid_target(message)))
        },
        Some(window) => {
            if tape.plain(Plain::IsWindow { window })?.flag() {
                Some(Ok(window))
            } else {
                let mut message = "target window '".to_owned();
                message.append(id);
                message.append("' is no longer present");
                Some(Err(DesktopError::window_not_found(message)))
            }
        },
    }
}

/// Refuses input to a window that runs at a higher integrity level.
pub open spec fn ensure_integrity_flow(t: Trail, id: Seq<char>, root: usize) -> Flow<Outcome> {
    window::uipi_block_flow(t, root).bind(
        |block: Option<Seq<char>>, t: Trail|
            match block {
                None => t.give(Ok(())),
                Some(reason) => t.give(
                    Err(
                        Fault {
                            kind: ErrorKind::PermissionDenied,
                            message: "window "@ + id + " cannot receive synthetic input: "@
                                + reason,
                        },
                    ),
                ),
            },
    )
}

/// Refuses input to a window that runs at a higher integrity level: UIPI
/// discards it while Win32 still reports success.
pub fn ensure_integrity(tape: &mut Tape, id: &str, root: usize) -> (outcome: Option<CoreResult<()>>)
    ensures
        Flow::of(final(tape)@, tape::seen(outcome)) == ensure_integrity_flow(
            old(tape)@,
            id@,
            root,
        ),
{
    match uipi_block(tape, root)? {
        None => Some(Ok(())),
        Some(reason) => {
            let mut message = "window ".to_owned();
            message.append(id);
            message.append(" cannot receive synthetic input: ");
            message.append(reason.as_str());
            Some(Err(DesktopError::permission_denied(message)))
        },
    }
}

/// Why `root`, of this class, would drop posted input of this kind.
pub open spec fn drop_reason_flow(
    t: Trail,
    root: usize,
    class: Seq<char>,
    kind: EventKind,
) -> Flow<Option<Seq<char>>> {
    window::has_chromium_descendant_flow(t, root).bind(
        |chromium_descendant: bool, t: Trail|
            window::owns_foreground_flow(t, root).bind(
                |foreground: bool, t: Trail|
                    window::is_xaml_host_flow(t, root).bind(
                        |xaml_host: bool, t: Trail|
                            t.ask(
                                Request::DropReason {
                                    class,
                                    chromium_descendant,
                                    foreground,
                                    xaml_host,
                                    kind,
                                },
                            ).bind(|reason: Reply, t: Trail| t.give(reason.text_value())),
                    ),
            ),
    )
}

/// Why `root`, of this class, would drop posted input of this kind.
pub fn drop_reason(tape: &mut Tape, root: usize, class: &String, kind: EventKind) -> (reason: Option<
    Option<String>,
>)
    ensures
        Flow::of(final(tape)@, window::read_reason(reason)) == drop_reason_flow(
            old(tape)@,
            root,
            class@,
            kind,
        ),
{
    let chromium_descendant = has_chromium_descendant(tape, root)?;
    let foreground = owns_foreground(tape, root)?;
    let xaml_host = is_xaml_host(tape, root)?;
    let answer = tape.ask(
        Call::DropReason {
            class: class.clone(),
            chromium_descendant,
            foreground,
            xaml_host,
            kind,
        },
    )?;
    match answer.text() {
        Some(reason) => Some(Some(reason.to_owned())),
        None => Some(None),
    }
}

/// Refuses typed text that no delivery mode can land on `root`.
pub open spec fn ensure_text_supported_flow(t: Trail, id: Seq<char>, root: usize) -> Flow<Outcome> {
    window::class_name_flow(t, root).bind(
        |class: Seq<char>, t: Trail|
            t.ask(Request::TextUnsupported { class }).bind(
                |reason: Reply, t: Trail|
                    match reason.text_value() {
                        None => t.give(Ok(())),
                        Some(reason) => t.give(
                            Err(
                                error::input_fault(
                                    "window "@ + id + " ("@ + class
                                        + ") cannot take typed text: "@ + reason,
                                ),
                            ),
                        ),
                    },
            ),
    )
}

/// Refuses typed text that no delivery mode can land on `root`.
pub fn ensure_text_supported(tape: &mut Tape, id: &str, root: usize) -> (outcome: Option<
    CoreResult<()>,
>)
    ensures
        Flow::of(final(tape)@, tape::seen(outcome)) == ensure_text_supported_flow(
            old(tape)@,
            id@,
            root,
        ),
{
    let class = class_name(tape, root)?;
    let answer = tape.ask(Call::TextUnsupported { class: class.clone() })?;
    match answer.text() {
        None => Some(Ok(())),
        Some(reason) => {
            let mut message = "window ".to_owned();
            message.append(id);
            message.append(" (");
            message.append(class.as_str());
            message.append(") cannot take typed text: ");
            message.append(reason);
            Some(Err(DesktopError::input_failed(message)))
        },
    }
}

/// The error for a window that drops posted input.
pub open spec fn refusal_fault(
    id: Seq<char>,
    class: Seq<char>,
    kind: Seq<char>,
    reason: Seq<char>,
) -> Fault {
    Fault {
        kind: ErrorKind::BackgroundUnavailable,
        message: "window "@ + id + " ("@ + class + ") drops background "@ + kind + " events: "@
            + reason + "; retry with takeover:true or use ax actions"@,
    }
}

/// The error for a window that drops posted input of the kind with this name.
pub fn refusal(id: &str, class: &str, kind: &str, reason: &str) -> (failure: DesktopError)
    ensures
        failure@ == refusal_fault(id@, class@, kind@, reason@),
{
    let mut message = "window ".to_owned();
    message.append(id);
    message.append(" (");
    message.append(class);
    message.append(") drops background ");
    message.append(kind);
    message.append(" events: ");
    message.append(reason);
    message.append("; retry with takeover:true or use ax actions");
    DesktopError::background_unavailable(message)
}

/// The error for a window that drops posted input, once its kind is named.
pub open spec fn refuse_flow(
    t: Trail,
    id: Seq<char>,
    class: Seq<char>,
    kind: EventKind,
    reason: Seq<char>,
) -> Flow<Outcome> {
    t.plain(Plain::KindName { kind }).bind(
        |name: Reply, t: Trail|
            t.give(
                Err(
                    refusal_fault(
                        id,
                        class,
                        match name.text_value() {
                            Some(name) => name,
                            None => ""@,
                        },
                        reason,
                    ),
                ),
            ),
    )
}

/// The error for a window that drops posted input, once its kind is named.
pub fn refuse(tape: &mut Tape, id: &str, class: &str, kind: EventKind, reason: &str) -> (outcome:
    Option<CoreResult<()>>)
    ensures
        Flow::of(final(tape)@, tape::seen(outcome)) == refuse_flow(
            old(tape)@,
            id@,
            class@,
            kind,
            reason@,
        ),
{
    let name = match tape.plain(Plain::KindName { kind })?.text() {
        Some(name) => name,
        None => "",
    };
    Some(Err(refusal(id, class, name, reason)))
}

/// Refuses posted input that `root` cannot or would not receive.
pub open spec fn ensure_delivery_flow(
    t: Trail,
    id: Seq<char>,
    root: usize,
    kind: EventKind,
) -> Flow<Outcome> {
    ensure_integrity_flow(t, id, root).bind_ok(
        |_allowed: (), t: Trail|
            window::class_name_flow(t, root).bind(
                |class: Seq<char>, t: Trail|
                    drop_reason_flow(t, root, class, kind).bind(
                        |reason: Option<Seq<char>>, t: Trail|
                            match reason {
                                None => t.give(Ok(())),
                                Some(reason) => refuse_flow(t, id, class, kind, reason),
                            },
                    ),
            ),
    )
}

/// Refuses posted input that `root` cannot or would not receive.
pub fn ensure_delivery(tape: &mut Tape, id: &str, root: usize, kind: EventKind) -> (outcome: Option<
    CoreResult<()>,
>)
    ensures
        Flow::of(final(tape)@, tape::seen(outcome)) == ensure_delivery_flow(
            old(tape)@,
            id@,
            root,
            kind,
        ),
{
    if let Err(failure) = ensure_integrity(tape, id, root)? {
        return Some(Err(failure));
    }
    let class = class_name(tape, root)?;
    match drop_reason(tape, root, &class, kind)? {
        None => Some(Ok(())),
        Some(reason) => refuse(tape, id, class.as_str(), kind, reason.as_str()),
    }
}

} // verus!
