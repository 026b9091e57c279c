//! The boundary between the decisions of this crate and the platform.
//!
//! A procedure of this crate never touches the platform. It runs over a
//! [`Tape`]: the answers that the platform has given so far, in order. Each
//! call it wants made takes the next answer off the tape. Where the tape has
//! none left, the procedure stops and the tape holds the call it is waiting
//! for. The host makes that call, appends the answer and runs the procedure
//! again from the start, until it yields a value. A run on more answers begins
//! with the calls of the run before, and a run without a value waits for a
//! call: both are proved in [`crate::replay`].
//!
//! Contracts speak of a [`Trail`], the answers together with the calls made,
//! and of a [`Flow`], the trail a procedure leaves and the value it yields.

use vstd::prelude::*;

use crate::error::{CoreResult, Fault};
use crate::keys::{KeyName, MouseButton};
use crate::request::{Axis, Direction, EventKind, InputEvent, Point, Spot, TextUnit};

verus! {

/// A call whose arguments are plain numbers.
#[derive(Clone, Copy, Debug, PartialEq, Eq, Structural)]
pub enum Plain {
    /// Makes a key transition on the user's keyboard.
    GlobalKey { key: KeyName, direction: Direction },
    /// Makes a button transition on the user's mouse.
    GlobalButton { button: MouseButton, direction: Direction },
    /// Moves the user's pointer to a rounded logical coordinate.
    GlobalMove { at: Spot },
    /// Turns the user's mouse wheel.
    GlobalScroll { steps: i32, axis: Axis },
    /// Maps a logical coordinate to physical pixels.
    Locate { at: Spot },
    /// Invokes the control of `root` at a physical point through UI Automation.
    InvokeAtPoint { root: usize, point: Point },
    /// Asks whether the click at `index` is posted as a double click.
    PostsDoubleClick { index: u32, wants_double: bool },
    /// Names the non-client region of a hit-test code, where dragging it
    /// moves or sizes the window.
    NonClientRegion { hit: isize },
    /// Names a kind of input.
    KindName { kind: EventKind },
    /// `thread::sleep`
    Sleep { millis: u64 },
    /// Reads a monotonic clock, in nanoseconds.
    Now,
    /// `IsWindow`
    IsWindow { window: usize },
    /// `IsChild`
    IsChild { parent: usize, window: usize },
    /// `IsIconic`
    IsIconic { window: usize },
    /// `IsHungAppWindow`
    IsHung { window: usize },
    /// `PostMessageW`
    Post { window: usize, message: u32, wparam: usize, lparam: isize },
    /// `SendMessageTimeoutW`
    SendTimeout {
        window: usize,
        message: u32,
        wparam: usize,
        lparam: isize,
        flags: u32,
        timeout: u32,
    },
    /// `ScreenToClient`
    ScreenToClient { window: usize, point: Point },
    /// `ChildWindowFromPointEx`
    ChildFromPoint { window: usize, point: Point, flags: u32 },
    /// `GetClassLongW` of the class style.
    ClassStyle { window: usize },
    /// `GetClassNameW`
    ClassName { window: usize },
    /// `VkKeyScanW`
    VkKeyScan { unit: u16 },
    /// `MapVirtualKeyW` from virtual key to scan code.
    MapVirtualKey { vk: u16 },
    /// `GetForegroundWindow`
    ForegroundWindow,
    /// `SetForegroundWindow`
    SetForeground { window: usize },
    /// `GetAncestor`
    Ancestor { window: usize, relation: u32 },
    /// `EnumChildWindows`, for the handles of the descendants.
    Descendants { window: usize },
    /// `EnumChildWindows`, for the UI thread of each descendant.
    DescendantThreads { window: usize },
    /// `GetWindowThreadProcessId`, for the thread.
    ThreadOf { window: usize },
    /// `GetWindowThreadProcessId`, for the process.
    ProcessOf { window: usize },
    /// `GetGUIThreadInfo`, for the focused window.
    FocusOf { thread: u32 },
    /// `GetCurrentThreadId`
    OwnThread,
    /// `GetCurrentProcess`
    OwnProcess,
    /// `AttachThreadInput`
    AttachInput { own: u32, other: u32, attach: bool },
    /// `OpenProcess` for limited queries.
    OpenProcess { pid: u32 },
    /// `OpenProcessToken` for queries.
    OpenToken { process: usize },
    /// `GetTokenInformation` of the integrity label, which is kept for
    /// [`Plain::SubAuthorityCount`] and [`Plain::SubAuthority`].
    ReadLabel { token: usize },
    /// `GetSidSubAuthorityCount` of the label read last.
    SubAuthorityCount,
    /// `GetSidSubAuthority` of the label read last.
    SubAuthority { last: u32 },
    /// `QueryFullProcessImageNameW`
    ImageName { process: usize },
    /// `CloseHandle`
    Close { handle: usize },
    /// `GetWindowLongW` of the extended style.
    ExStyle { window: usize },
    /// `SetWindowLongW` of the extended style.
    SetExStyle { window: usize, style: u32 },
    /// `EnableWindow`
    Enable { window: usize, enable: bool },
    /// `ShowWindow` that restores a minimized window.
    Restore { window: usize },
    /// `GetCursorPos`
    CursorPos,
    /// `SetCursorPos`
    SetCursorPos { point: Point },
    /// `GetSystemMetrics`
    Metric { metric: i32 },
}

/// A call the host makes for a procedure.
#[derive(Debug, PartialEq, Eq)]
pub enum Call {
    Plain(Plain),
    /// Types text on the user's keyboard.
    GlobalText { text: String },
    /// `SendInput`
    SendInput { events: Vec<InputEvent> },
    /// Asks whether a window class is a Chromium or CEF one.
    IsChromium { class: String },
    /// Asks why a window would drop posted input of this kind.
    DropReason {
        class: String,
        chromium_descendant: bool,
        foreground: bool,
        xaml_host: bool,
        kind: EventKind,
    },
    /// Asks why a window class cannot take typed text.
    TextUnsupported { class: String },
    /// Asks what units a text is typed as.
    TextUnits { text: String },
}

/// A [`Call`] as contracts see it.
pub enum Request {
    Plain(Plain),
    GlobalText { text: Seq<char> },
    SendInput { events: Seq<InputEvent> },
    IsChromium { class: Seq<char> },
    DropReason {
        class: Seq<char>,
        chromium_descendant: bool,
        foreground: bool,
        xaml_host: bool,
        kind: EventKind,
    },
    TextUnsupported { class: Seq<char> },
    TextUnits { text: Seq<char> },
}

impl View for Call {
    type V = Request;

    open spec fn view(&self) -> Request {
        match self {
            Call::Plain(call) => Request::Plain(*call),
            Call::GlobalText { text } => Request::GlobalText { text: text@ },
            Call::SendInput { events } => Request::SendInput { events: events@ },
            Call::IsChromium { class } => Request::IsChromium { class: class@ },
            Call::DropReason { class, chromium_descendant, foreground, xaml_host, kind } =>
                Request::DropReason {
                class: class@,
                chromium_descendant: *chromium_descendant,
                foreground: *foreground,
                xaml_host: *xaml_host,
                kind: *kind,
            },
            Call::TextUnsupported { class } => Request::TextUnsupported { class: class@ },
            Call::TextUnits { text } => Request::TextUnits { text: text@ },
        }
    }
}

/// What a call answered. Each reader below takes an answer of another shape
/// for the empty one of its own.
#[derive(Debug, PartialEq, Eq)]
pub enum Reply {
    /// Nothing to report.
    Nothing,
    /// A yes or no.
    Flag(bool),
    /// A handle, with zero for null.
    Handle(usize),
    /// Handles in the order of an enumeration.
    Handles(Vec<usize>),
    /// A handle or result that only exists where the call succeeded.
    Found(Option<usize>),
    /// An unsigned number.
    Word(u32),
    /// Unsigned numbers in the order of an enumeration.
    Words(Vec<u32>),
    /// An unsigned number that only exists where the call succeeded.
    Maybe(Option<u32>),
    /// A signed number.
    Signed(i32),
    /// A key state and virtual key, or -1.
    Scan(i16),
    /// Nanoseconds on a monotonic clock.
    Time(u64),
    /// UTF-16 code units, where the call succeeded.
    Units(Option<Vec<u16>>),
    /// A point, where the call succeeded.
    Point(Option<Point>),
    /// A mapped coordinate, or why it cannot be mapped.
    Located(CoreResult<Point>),
    /// A text, where there is one to give.
    Text(Option<String>),
    /// The units a text is typed as, in order.
    TextUnits(Vec<TextUnit>),
    /// A posted message, or the error code it failed with.
    Posted(Result<(), u32>),
    /// An action on the user's own devices, or what it failed with.
    Performed(Result<(), String>),
}

impl Reply {
    pub open spec fn flag_value(self) -> bool {
        match self {
            Reply::Flag(value) => value,
            _ => false,
        }
    }

    pub fn flag(&self) -> (value: bool)
        ensures
            value == self.flag_value(),
    {
        match self {
            Reply::Flag(value) => *value,
            _ => false,
        }
    }

    pub open spec fn handle_value(self) -> usize {
        match self {
            Reply::Handle(value) => value,
            _ => 0,
        }
    }

    pub fn handle(&self) -> (value: usize)
        ensures
            value == self.handle_value(),
    {
        match self {
            Reply::Handle(value) => *value,
            _ => 0,
        }
    }

    pub open spec fn handles_value(self) -> Seq<usize> {
        match self {
            Reply::Handles(values) => values@,
            _ => Seq::empty(),
        }
    }

    pub fn handles(&self) -> (values: Vec<usize>)
        ensures
            values@ == self.handles_value(),
    {
        match self {
            Reply::Handles(values) => {
                let copy = values.clone();
                assert(copy@ =~= values@);
                copy
            },
            _ => Vec::new(),
        }
    }

    pub open spec fn found_value(self) -> Option<usize> {
        match self {
            Reply::Found(value) => value,
            _ => None,
        }
    }

    pub fn found(&self) -> (value: Option<usize>)
        ensures
            value == self.found_value(),
    {
        match self {
            Reply::Found(value) => *value,
            _ => None,
        }
    }

    pub open spec fn word_value(self) -> u32 {
        match self {
            Reply::Word(value) => value,
            _ => 0,
        }
    }

    pub fn word(&self) -> (value: u32)
        ensures
            value == self.word_value(),
    {
        match self {
            Reply::Word(value) => *value,
            _ => 0,
        }
    }

    pub open spec fn words_value(self) -> Seq<u32> {
        match self {
            Reply::Words(values) => values@,
            _ => Seq::empty(),
        }
    }

    pub fn words(&self) -> (values: Vec<u32>)
        ensures
            values@ == self.words_value(),
    {
        match self {
            Reply::Words(values) => {
                let copy = values.clone();
                assert(copy@ =~= values@);
                copy
            },
            _ => Vec::new(),
        }
    }

    pub open spec fn maybe_value(self) -> Option<u32> {
        match self {
            Reply::Maybe(value) => value,
            _ => None,
        }
    }

    pub fn maybe(&self) -> (value: Option<u32>)
        ensures
            value == self.maybe_value(),
    {
        match self {
            Reply::Maybe(value) => *value,
            _ => None,
        }
    }

    pub open spec fn signed_value(self) -> i32 {
        match self {
            Reply::Signed(value) => value,
            _ => 0,
        }
    }

    pub fn signed(&self) -> (value: i32)
        ensures
            value == self.signed_value(),
    {
        match self {
            Reply::Signed(value) => *value,
            _ => 0,
        }
    }

    /// A failed lookup stands for an answer of another shape.
    pub open spec fn scan_value(self) -> i16 {
        match self {
            Reply::Scan(value) => value,
            _ => (-1int) as i16,
        }
    }

    pub fn scan(&self) -> (value: i16)
        ensures
            value == self.scan_value(),
    {
        match self {
            Reply::Scan(value) => *value,
            _ => -1,
        }
    }

    pub open spec fn time_value(self) -> u64 {
        match self {
            Reply::Time(value) => value,
            _ => 0,
        }
    }

    pub fn time(&self) -> (value: u64)
        ensures
            value == self.time_value(),
    {
        match self {
            Reply::Time(value) => *value,
            _ => 0,
        }
    }

    pub open spec fn units_value(self) -> Option<Seq<u16>> {
        match self {
            Reply::Units(Some(units)) => Some(units@),
            _ => None,
        }
    }

    pub fn units(&self) -> (units: Option<&[u16]>)
        ensures
            units is Some <==> self.units_value() is Some,
            units is Some ==> self.units_value() == Some(units->0@),
    {
        match self {
            Reply::Units(Some(units)) => Some(units.as_slice()),
            _ => None,
        }
    }

    pub open spec fn point_value(self) -> Option<Point> {
        match self {
            Reply::Point(value) => value,
            _ => None,
        }
    }

    pub fn point(&self) -> (value: Option<Point>)
        ensures
            value == self.point_value(),
    {
        match self {
            Reply::Point(value) => *value,
            _ => None,
        }
    }

    /// An answer of another shape stands for the origin.
    pub open spec fn located_value(self) -> Result<Point, Fault> {
        match self {
            Reply::Located(Ok(point)) => Ok(point),
            Reply::Located(Err(error)) => Err(error@),
            _ => Ok(Point { x: 0, y: 0 }),
        }
    }

    pub fn located(&self) -> (value: CoreResult<Point>)
        ensures
            crate::error::judged(value) == self.located_value(),
    {
        match self {
            Reply::Located(Ok(point)) => Ok(*point),
            Reply::Located(Err(error)) => Err(error.duplicate()),
            _ => Ok(Point { x: 0, y: 0 }),
        }
    }

    pub open spec fn text_value(self) -> Option<Seq<char>> {
        match self {
            Reply::Text(Some(text)) => Some(text@),
            _ => None,
        }
    }

    pub fn text(&self) -> (text: Option<&str>)
        ensures
            text is Some <==> self.text_value() is Some,
            text is Some ==> self.text_value() == Some(text->0@),
    {
        match self {
            Reply::Text(Some(text)) => Some(text.as_str()),
            _ => None,
        }
    }

    pub open spec fn text_units_value(self) -> Seq<TextUnit> {
        match self {
            Reply::TextUnits(units) => units@,
            _ => Seq::empty(),
        }
    }

    pub fn text_units(&self) -> (units: Vec<TextUnit>)
        ensures
            units@ == self.text_units_value(),
    {
        match self {
            Reply::TextUnits(units) => {
                let copy = units.clone();
                assert(copy@ =~= units@);
                copy
            },
            _ => Vec::new(),
        }
    }

    pub open spec fn posted_value(self) -> Result<(), u32> {
        match self {
            Reply::Posted(Err(code)) => Err(code),
            _ => Ok(()),
        }
    }

    pub fn posted(&self) -> (value: Result<(), u32>)
        ensures
            value == self.posted_value(),
    {
        match self {
            Reply::Posted(Err(code)) => Err(*code),
            _ => Ok(()),
        }
    }

    pub open spec fn performed_value(self) -> Result<(), Seq<char>> {
        match self {
            Reply::Performed(Err(detail)) => Err(detail@),
            _ => Ok(()),
        }
    }

    /// What the action failed with, if it failed.
    pub fn performed(&self) -> (detail: Option<&str>)
        ensures
            detail is Some <==> self.performed_value() is Err,
            detail is Some ==> self.performed_value() == Err::<(), _>(detail->0@),
    {
        match self {
            Reply::Performed(Err(detail)) => Some(detail.as_str()),
            _ => None,
        }
    }
}

/// The answers given so far and the calls made so far. The call at an index
/// received the answer at the same index.
pub struct Trail {
    pub replies: Seq<Reply>,
    pub calls: Seq<Request>,
}

/// The trail a procedure leaves, and the value it yields: none where it waits
/// for the answer to the last call of the trail.
pub struct Flow<T> {
    pub trail: Trail,
    pub value: Option<T>,
}

impl Trail {
    /// Whether the last call still waits for its answer.
    pub open spec fn stalled(self) -> bool {
        self.calls.len() > self.replies.len()
    }

    /// The trail after one more call.
    pub open spec fn after(self, call: Request) -> Trail {
        Trail { replies: self.replies, calls: self.calls.push(call) }
    }

    /// The answer that awaits the call `n` calls after the next.
    pub open spec fn upcoming(self, n: int) -> Reply {
        self.replies[self.calls.len() + n]
    }

    /// Yields `value` without a call.
    pub open spec fn give<T>(self, value: T) -> Flow<T> {
        Flow { trail: self, value: Some(value) }
    }

    /// Makes `call` and yields its answer.
    pub open spec fn ask(self, call: Request) -> Flow<Reply> {
        if self.stalled() {
            Flow { trail: self, value: None }
        } else if self.after(call).stalled() {
            Flow { trail: self.after(call), value: None }
        } else {
            Flow {
                trail: self.after(call),
                value: Some(self.replies[self.calls.len() as int]),
            }
        }
    }

    /// Makes a call with plain arguments and yields its answer.
    pub open spec fn plain(self, call: Plain) -> Flow<Reply> {
        self.ask(Request::Plain(call))
    }
}

impl<T> Flow<T> {
    /// A trail and a value, put together.
    pub open spec fn of(trail: Trail, value: Option<T>) -> Flow<T> {
        Flow { trail, value }
    }

    /// Goes on with `rest` once there is a value.
    pub open spec fn bind<U>(self, rest: spec_fn(T, Trail) -> Flow<U>) -> Flow<U> {
        match self.value {
            Some(value) => rest(value, self.trail),
            None => Flow { trail: self.trail, value: None },
        }
    }
}

impl<T> Flow<Result<T, Fault>> {
    /// Goes on with `rest` once there is a value, unless it is an error.
    pub open spec fn bind_ok<U>(
        self,
        rest: spec_fn(T, Trail) -> Flow<Result<U, Fault>>,
    ) -> Flow<Result<U, Fault>> {
        match self.value {
            Some(Ok(value)) => rest(value, self.trail),
            Some(Err(fault)) => Flow { trail: self.trail, value: Some(Err(fault)) },
            None => Flow { trail: self.trail, value: None },
        }
    }
}

/// A fallible value with its error as contracts see it.
pub open spec fn seen<T>(value: Option<CoreResult<T>>) -> Option<Result<T, Fault>> {
    match value {
        Some(result) => Some(crate::error::judged(result)),
        None => None,
    }
}

/// A text with its characters as contracts see them.
pub open spec fn read(value: Option<String>) -> Option<Seq<char>> {
    match value {
        Some(text) => Some(text@),
        None => None,
    }
}

/// The answers a procedure runs on, and the call it stops at.
pub struct Tape<'a> {
    replies: &'a [Reply],
    asked: usize,
    pending: Option<Call>,
    calls: Ghost<Seq<Request>>,
}

impl<'a> Tape<'a> {
    pub closed spec fn view(&self) -> Trail {
        Trail { replies: self.replies@, calls: self.calls@ }
    }

    #[verifier::type_invariant]
    spec fn consistent(self) -> bool {
        match self.pending {
            None => self.asked == self.calls@.len() && self.asked <= self.replies@.len(),
            Some(call) => self.calls@.len() == self.replies@.len() + 1 && self.calls@.last()
                == call@,
        }
    }

    /// A tape that holds these answers, with no call made yet.
    pub fn new(replies: &'a [Reply]) -> (tape: Tape<'a>)
        ensures
            tape@ == (Trail { replies: replies@, calls: Seq::empty() }),
    {
        Tape { replies, asked: 0, pending: None, calls: Ghost(Seq::empty()) }
    }

    /// Makes `call` and takes its answer off the tape. A tape that already
    /// waits for an answer stays as it is.
    pub fn ask(&mut self, call: Call) -> (reply: Option<&'a Reply>)
        ensures
            final(self)@ == old(self)@.ask(call@).trail,
            match reply {
                Some(answer) => old(self)@.ask(call@).value == Some(*answer),
                None => old(self)@.ask(call@).value is None,
            },
    {
        proof {
            use_type_invariant(&*self);
        }
        if self.pending.is_some() {
            return None;
        }
        let replies = self.replies;
        let asked = self.asked;
        let ghost calls = self.calls@.push(call@);
        if asked < replies.len() {
            *self = Tape { replies, asked: asked + 1, pending: None, calls: Ghost(calls) };
            Some(&replies[asked])
        } else {
            *self = Tape { replies, asked, pending: Some(call), calls: Ghost(calls) };
            None
        }
    }

    /// Makes a call with plain arguments and takes its answer off the tape.
    pub fn plain(&mut self, call: Plain) -> (reply: Option<&'a Reply>)
        ensures
            final(self)@ == old(self)@.plain(call).trail,
            match reply {
                Some(answer) => old(self)@.plain(call).value == Some(*answer),
                None => old(self)@.plain(call).value is None,
            },
    {
        self.ask(Call::Plain(call))
    }

    /// The call the tape waits for, if it waits for one.
    pub fn into_pending(self) -> (call: Option<Call>)
        ensures
            call is Some <==> self@.stalled(),
            call is Some ==> call->0@ == self@.calls.last(),
    {
        proof {
            use_type_invariant(&self);
        }
        self.pending
    }
}

} // verus!
