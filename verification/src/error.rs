//! Error types.
//!
//! One error type, [`IsleError`], is returned by every public function, on
//! the actors and on the in-thread layer.  A Lua error crosses to Rust as a
//! [`LuaFailure`]: its kind, the message as Lua prints it, the traceback,
//! and the raised value.
//!
//! Cancellation is a value, not a message: whether an `mlua::Error` carries
//! the cancellation is found by its type, and handed to the functions here
//! as a flag.

use crate::lua::{self, alike, error_tree, prints, ErrorTree, Layer};
use crate::text::{self, decimal, occurs_at, position};
use vstd::prelude::*;

verus! {

/// What kind of Lua error a [`LuaFailure`] is.
#[derive(Debug, Clone, Copy, PartialEq, Eq, Hash, Structural)]
#[non_exhaustive]
pub enum LuaErrorKind {
    /// A Lua runtime error: `error(v)` in Lua, or an operation on the wrong
    /// type.
    Runtime,
    /// The chunk did not compile.
    Syntax,
    /// The allocator refused memory.
    Memory,
    /// A Rust function called from Lua returned `Err`.
    Callback,
    /// A Rust error that did not pass through a Lua call.  Also the kind of
    /// an [`IsleError::Init`] that is not a Lua error: the thread or its
    /// runtime could not be started, or a pool was configured with
    /// `max_size == 0`.
    External,
    /// A value did not convert between Lua and Rust.
    Conversion,
    /// Any other error.
    Other,
}

/// A Lua error, as it crosses from the VM thread to Rust.
#[derive(Debug, Clone)]
#[non_exhaustive]
pub struct LuaFailure {
    /// The kind of error.
    pub kind: LuaErrorKind,
    /// The error as Lua prints it.
    pub message: String,
    /// The Lua stack traceback at the point of the error, when one was
    /// taken.
    pub traceback: Option<String>,
    /// The raised value converted to JSON, when it converts.
    pub value: Option<serde_json::Value>,
}

/// A [`LuaFailure`] as the contracts see it.
pub struct FailureView {
    pub kind: LuaErrorKind,
    pub message: Seq<char>,
    pub traceback: Option<Seq<char>>,
    pub value: Option<serde_json::Value>,
}

/// The text of an optional string.
pub open spec fn text_of(s: Option<String>) -> Option<Seq<char>> {
    match s {
        Some(s) => Some(s@),
        None => None,
    }
}

impl View for LuaFailure {
    type V = FailureView;

    open spec fn view(&self) -> FailureView {
        FailureView {
            kind: self.kind,
            message: self.message@,
            traceback: text_of(self.traceback),
            value: self.value,
        }
    }
}

/// A failure without a traceback or a value.
pub open spec fn plain(kind: LuaErrorKind, message: Seq<char>) -> FailureView {
    FailureView { kind, message, traceback: None, value: None }
}

/// The line that starts a traceback within a message.
pub open spec fn traceback_mark() -> Seq<char> {
    "\nstack traceback:"@
}

/// A message without the traceback that follows it, and that traceback
/// without the newline between them.
pub open spec fn split(msg: Seq<char>) -> (Seq<char>, Option<Seq<char>>) {
    match position(msg, traceback_mark()) {
        Some(at) => (msg.take(at), Some(msg.skip(at + 1))),
        None => (msg, None),
    }
}

/// The failure that an error becomes.
///
/// The innermost of nested callback errors decides: its traceback, and the
/// message of what it wraps.
pub open spec fn failure_of(e: ErrorTree) -> FailureView
    decreases e,
{
    match e {
        ErrorTree::Callback { traceback, cause } => {
            let inner = failure_of(*cause);
            if *cause is Callback {
                inner
            } else {
                FailureView {
                    kind: LuaErrorKind::Callback,
                    message: inner.message,
                    traceback: if traceback.len() > 0 {
                        Some(traceback)
                    } else {
                        inner.traceback
                    },
                    value: None,
                }
            }
        },
        ErrorTree::WithContext { context, cause } => {
            let inner = failure_of(*cause);
            FailureView { message: context + seq!['\n'] + inner.message, ..inner }
        },
        ErrorTree::Runtime(msg) => FailureView {
            kind: LuaErrorKind::Runtime,
            message: split(msg).0,
            traceback: split(msg).1,
            value: None,
        },
        ErrorTree::Syntax(msg) => plain(LuaErrorKind::Syntax, msg),
        ErrorTree::Memory(msg) => plain(LuaErrorKind::Memory, msg),
        ErrorTree::External(msg) => plain(LuaErrorKind::External, msg),
        ErrorTree::FromLuaConversion(msg) => plain(LuaErrorKind::Conversion, msg),
        ErrorTree::BadArgument(msg) => plain(LuaErrorKind::Conversion, msg),
        ErrorTree::Serialize(msg) => plain(LuaErrorKind::Conversion, msg),
        ErrorTree::Deserialize(msg) => plain(LuaErrorKind::Conversion, msg),
        ErrorTree::Other(msg) => plain(LuaErrorKind::Other, msg),
    }
}

/// An `mlua::Error` in plain values.
pub enum LuaError {
    /// A Rust function called from Lua returned `cause`.
    Callback { traceback: String, cause: Box<LuaError> },
    /// `cause`, with a line of context.
    WithContext { context: String, cause: Box<LuaError> },
    /// A Lua runtime error.
    Runtime(String),
    /// A chunk that did not compile.
    Syntax(String),
    /// No memory left.
    Memory(String),
    /// An error of the host's.
    External(String),
    /// A value that did not convert to the Rust type asked for.
    FromLuaConversion(String),
    /// An argument that did not convert.
    BadArgument(String),
    /// A value that did not serialize.
    Serialize(String),
    /// A value that did not deserialize.
    Deserialize(String),
    /// Any other error.
    Other(String),
}

impl View for LuaError {
    type V = ErrorTree;

    open spec fn view(&self) -> ErrorTree {
        tree_of(*self)
    }
}

/// What a [`LuaError`] is made of.
pub open spec fn tree_of(e: LuaError) -> ErrorTree
    decreases e,
{
    match e {
        LuaError::Callback { traceback, cause } => ErrorTree::Callback {
            traceback: traceback@,
            cause: Box::new(tree_of(*cause)),
        },
        LuaError::WithContext { context, cause } => ErrorTree::WithContext {
            context: context@,
            cause: Box::new(tree_of(*cause)),
        },
        LuaError::Runtime(m) => ErrorTree::Runtime(m@),
        LuaError::Syntax(m) => ErrorTree::Syntax(m@),
        LuaError::Memory(m) => ErrorTree::Memory(m@),
        LuaError::External(m) => ErrorTree::External(m@),
        LuaError::FromLuaConversion(m) => ErrorTree::FromLuaConversion(m@),
        LuaError::BadArgument(m) => ErrorTree::BadArgument(m@),
        LuaError::Serialize(m) => ErrorTree::Serialize(m@),
        LuaError::Deserialize(m) => ErrorTree::Deserialize(m@),
        LuaError::Other(m) => ErrorTree::Other(m@),
    }
}

impl LuaError {
    /// The error in plain values.
    pub fn from_mlua(e: &mlua::Error) -> (r: Self)
        ensures
            alike(r@, error_tree(*e)),
        decreases error_tree(*e),
    {
        match lua::layer(e) {
            Layer::Callback { traceback, cause } => {
                assert(*error_tree(*e)->Callback_cause == error_tree(*cause));
                LuaError::Callback {
                    traceback: traceback.to_owned(),
                    cause: Box::new(LuaError::from_mlua(cause)),
                }
            },
            Layer::WithContext { context, cause } => {
                assert(*error_tree(*e)->WithContext_cause == error_tree(*cause));
                LuaError::WithContext {
                    context: context.to_owned(),
                    cause: Box::new(LuaError::from_mlua(cause)),
                }
            },
            Layer::Runtime(m) => LuaError::Runtime(m.to_owned()),
            Layer::Syntax(m) => LuaError::Syntax(m.to_owned()),
            Layer::Memory(m) => LuaError::Memory(m.to_owned()),
            Layer::External => LuaError::External(lua::error_text(e)),
            Layer::FromLuaConversion => LuaError::FromLuaConversion(lua::error_text(e)),
            Layer::BadArgument => LuaError::BadArgument(lua::error_text(e)),
            Layer::Serialize => LuaError::Serialize(lua::error_text(e)),
            Layer::Deserialize => LuaError::Deserialize(lua::error_text(e)),
            Layer::Other => LuaError::Other(lua::error_text(e)),
        }
    }
}

impl LuaFailure {
    /// A failure of `kind` with `message` and no traceback or value.
    pub fn new(kind: LuaErrorKind, message: String) -> (r: Self)
        ensures
            r@ == plain(kind, message@),
    {
        LuaFailure { kind, message, traceback: None, value: None }
    }

    /// Build a failure from an `mlua::Error`: the kind from the variant,
    /// the message from what it prints, the traceback from a callback error
    /// or from the traceback mlua appends to a runtime error.
    pub fn from_mlua(e: &mlua::Error) -> (r: Self)
        ensures
            exists|tree: ErrorTree| #[trigger]
                alike(tree, error_tree(*e)) && r@ == failure_of(tree),
    {
        LuaFailure::from_lua_error(&LuaError::from_mlua(e))
    }

    /// Build a failure from an error in plain values.
    pub fn from_lua_error(e: &LuaError) -> (r: Self)
        ensures
            r@ == failure_of(e@),
        decreases *e,
    {
        match e {
            LuaError::Callback { traceback, cause } => {
                let inner: LuaFailure = LuaFailure::from_lua_error(&**cause);
                match &**cause {
                    LuaError::Callback { .. } => inner,
                    _ => {
                        let traceback: Option<String> = if traceback.as_str().unicode_len() == 0 {
                            inner.traceback
                        } else {
                            Some(traceback.clone())
                        };
                        LuaFailure {
                            kind: LuaErrorKind::Callback,
                            message: inner.message,
                            traceback,
                            value: None,
                        }
                    },
                }
            },
            LuaError::WithContext { context, cause } => {
                let mut f: LuaFailure = LuaFailure::from_lua_error(&**cause);
                let line: String = text::joined(context.as_str(), "\n");
                f.message = text::joined(line.as_str(), f.message.as_str());
                proof {
                    reveal_strlit("\n");
                    assert("\n"@ == seq!['\n']);
                }
                f
            },
            LuaError::Runtime(msg) => {
                let (message, traceback) = split_traceback(msg.as_str());
                LuaFailure { kind: LuaErrorKind::Runtime, message, traceback, value: None }
            },
            LuaError::Syntax(msg) => LuaFailure::new(LuaErrorKind::Syntax, msg.clone()),
            LuaError::Memory(msg) => LuaFailure::new(LuaErrorKind::Memory, msg.clone()),
            LuaError::External(msg) => LuaFailure::new(LuaErrorKind::External, msg.clone()),
            LuaError::FromLuaConversion(msg) => {
                LuaFailure::new(LuaErrorKind::Conversion, msg.clone())
            },
            LuaError::BadArgument(msg) => LuaFailure::new(LuaErrorKind::Conversion, msg.clone()),
            LuaError::Serialize(msg) => LuaFailure::new(LuaErrorKind::Conversion, msg.clone()),
            LuaError::Deserialize(msg) => LuaFailure::new(LuaErrorKind::Conversion, msg.clone()),
            LuaError::Other(msg) => LuaFailure::new(LuaErrorKind::Other, msg.clone()),
        }
    }

    /// The failure as it is printed: its message.
    pub fn to_string(&self) -> (r: String)
        ensures
            r@ == self@.message,
    {
        self.message.clone()
    }
}

/// Split the traceback mlua appends to a runtime error's message.
pub fn split_traceback(msg: &str) -> (r: (String, Option<String>))
    ensures
        (r.0@, text_of(r.1)) == split(msg@),
{
    match text::find(msg, "\nstack traceback:") {
        Some(pos) => {
            let total: usize = msg.unicode_len();
            proof {
                reveal_strlit("\nstack traceback:");
                assert(msg@.subrange(pos as int, pos + traceback_mark().len())[0]
                    == traceback_mark()[0]);
            }
            let message: String = msg.substring_char(0, pos).to_owned();
            let traceback: String = msg.substring_char(pos + 1, total).to_owned();
            (message, Some(traceback))
        },
        None => (msg.to_owned(), None),
    }
}

/// A message and its traceback, with the newline between them, are the
/// whole message.
pub proof fn law_split_loses_nothing(msg: Seq<char>)
    ensures
        match split(msg).1 {
            Some(t) => msg == split(msg).0 + seq!['\n'] + t,
            None => msg == split(msg).0,
        },
{
    let mark = traceback_mark();
    if text::occurs(msg, mark) {
        text::lemma_first_exists(msg, mark);
        let at = position(msg, mark)->0;
        reveal_strlit("\nstack traceback:");
        assert(msg.subrange(at, at + mark.len())[0] == mark[0]);
        assert(msg == msg.take(at) + seq!['\n'] + msg.skip(at + 1));
    }
}

/// The message of an error that came from Lua never carries a traceback:
/// it was split off, however deep the error was wrapped in callbacks.
pub proof fn law_messages_carry_no_traceback(e: ErrorTree)
    requires
        innermost(e) is Runtime,
    ensures
        !text::occurs(failure_of(e).message, traceback_mark()),
    decreases e,
{
    match e {
        ErrorTree::Callback { traceback, cause } => {
            law_messages_carry_no_traceback(*cause);
        },
        ErrorTree::Runtime(msg) => {
            let mark = traceback_mark();
            let m = split(msg).0;
            reveal_strlit("\nstack traceback:");
            if text::occurs(msg, mark) {
                text::lemma_first_exists(msg, mark);
            }
            if text::occurs(m, mark) {
                let at = choose|at: int| occurs_at(m, mark, at);
                assert(msg.subrange(at, at + mark.len()) == m.subrange(at, at + mark.len()));
                assert(occurs_at(msg, mark, at));
            }
        },
        _ => {},
    }
}

/// What a callback error wraps, however many times.
pub open spec fn innermost(e: ErrorTree) -> ErrorTree
    decreases e,
{
    match e {
        ErrorTree::Callback { cause, .. } => innermost(*cause),
        _ => e,
    }
}

/// Errors returned by Isle operations.
#[derive(Debug)]
#[non_exhaustive]
pub enum IsleError {
    /// The Lua VM thread has already shut down.
    Shutdown,
    /// The operation was cancelled via a token.
    Cancelled,
    /// A request or root raised a Lua error.
    Lua(LuaFailure),
    /// The init closure failed, or the VM thread could not be set up.
    Init(LuaFailure),
    /// A call named a global that is not a function.  Carries the name.
    NotFound(String),
    /// The Lua thread panicked.  Carries the panic message when there is
    /// one.
    ThreadPanic(Option<String>),
    /// The request channel is full (backpressure).
    ChannelFull,
    /// The response channel was dropped before a result was sent.
    RecvFailed,
    /// All pool slots are in use and no Isle is available.
    PoolExhausted(usize),
    /// The pool's lock is poisoned.
    PoolPoisoned(String),
}

/// An [`IsleError`] as the contracts see it.
pub enum IsleErrorView {
    Shutdown,
    Cancelled,
    Lua(FailureView),
    Init(FailureView),
    NotFound(Seq<char>),
    ThreadPanic(Option<Seq<char>>),
    ChannelFull,
    RecvFailed,
    PoolExhausted(usize),
    PoolPoisoned(Seq<char>),
}

impl View for IsleError {
    type V = IsleErrorView;

    open spec fn view(&self) -> IsleErrorView {
        match *self {
            IsleError::Shutdown => IsleErrorView::Shutdown,
            IsleError::Cancelled => IsleErrorView::Cancelled,
            IsleError::Lua(f) => IsleErrorView::Lua(f@),
            IsleError::Init(f) => IsleErrorView::Init(f@),
            IsleError::NotFound(name) => IsleErrorView::NotFound(name@),
            IsleError::ThreadPanic(m) => IsleErrorView::ThreadPanic(text_of(m)),
            IsleError::ChannelFull => IsleErrorView::ChannelFull,
            IsleError::RecvFailed => IsleErrorView::RecvFailed,
            IsleError::PoolExhausted(n) => IsleErrorView::PoolExhausted(n),
            IsleError::PoolPoisoned(m) => IsleErrorView::PoolPoisoned(m@),
        }
    }
}

/// An error as it is printed.
pub open spec fn printed(e: IsleErrorView) -> Seq<char> {
    match e {
        IsleErrorView::Shutdown => "isle shut down"@,
        IsleErrorView::Cancelled => "cancelled"@,
        IsleErrorView::Lua(f) => "lua error: "@ + f.message,
        IsleErrorView::Init(f) => "init error: "@ + f.message,
        IsleErrorView::NotFound(name) => "function '"@ + name + "' not found"@,
        IsleErrorView::ThreadPanic(Some(m)) => "lua thread panicked: "@ + m,
        IsleErrorView::ThreadPanic(None) => "lua thread panicked"@,
        IsleErrorView::ChannelFull => "channel full (backpressure)"@,
        IsleErrorView::RecvFailed => "recv failed"@,
        IsleErrorView::PoolExhausted(n) => "pool exhausted (max_size="@ + decimal(n as nat)
            + ")"@,
        IsleErrorView::PoolPoisoned(m) => "pool lock poisoned: "@ + m,
    }
}

impl IsleError {
    /// The error as it is printed.
    pub fn to_string(&self) -> (r: String)
        ensures
            r@ == printed(self@),
    {
        match self {
            IsleError::Shutdown => "isle shut down".to_owned(),
            IsleError::Cancelled => "cancelled".to_owned(),
            IsleError::Lua(f) => text::joined("lua error: ", f.message.as_str()),
            IsleError::Init(f) => text::joined("init error: ", f.message.as_str()),
            IsleError::NotFound(name) => {
                let head: String = text::joined("function '", name.as_str());
                text::joined(head.as_str(), "' not found")
            },
            IsleError::ThreadPanic(Some(m)) => text::joined("lua thread panicked: ", m.as_str()),
            IsleError::ThreadPanic(None) => "lua thread panicked".to_owned(),
            IsleError::ChannelFull => "channel full (backpressure)".to_owned(),
            IsleError::RecvFailed => "recv failed".to_owned(),
            IsleError::PoolExhausted(n) => {
                let head: String = text::joined(
                    "pool exhausted (max_size=",
                    text::decimal_text(*n as u64).as_str(),
                );
                text::joined(head.as_str(), ")")
            },
            IsleError::PoolPoisoned(m) => text::joined("pool lock poisoned: ", m.as_str()),
        }
    }

    /// The error for an `mlua::Error`: [`IsleError::Cancelled`] when it
    /// carries the cancellation, else [`IsleError::Lua`].
    pub fn from_mlua(e: &mlua::Error, is_cancel: bool) -> (r: Self)
        ensures
            if is_cancel {
                r@ == IsleErrorView::Cancelled
            } else {
                exists|tree: ErrorTree| #[trigger]
                    alike(tree, error_tree(*e)) && r@ == IsleErrorView::Lua(failure_of(tree))
            },
    {
        if is_cancel {
            IsleError::Cancelled
        } else {
            IsleError::Lua(LuaFailure::from_mlua(e))
        }
    }
}

/// The error a cancellation raises in Lua.
#[derive(Debug, Clone, Copy, Default, PartialEq, Eq, Hash, Structural)]
pub struct Cancelled;

impl Cancelled {
    /// The cancellation as it is printed.
    pub fn to_string(&self) -> (r: String)
        ensures
            r@ == "cancelled"@,
    {
        "cancelled".to_owned()
    }
}

/// What a panic was raised with.
pub enum PanicPayload {
    /// A string literal.
    Str(&'static str),
    /// A formatted message.
    Text(String),
    /// Any other value.
    Other,
}

/// The message of a panic payload, when it is a `&str` or a `String`.
pub fn panic_message(payload: &PanicPayload) -> (r: Option<String>)
    ensures
        match *payload {
            PanicPayload::Str(s) => text_of(r) == Some(s@),
            PanicPayload::Text(s) => text_of(r) == Some(s@),
            PanicPayload::Other => r is None,
        },
{
    match payload {
        PanicPayload::Str(s) => Some((*s).to_owned()),
        PanicPayload::Text(s) => Some(s.clone()),
        PanicPayload::Other => None,
    }
}

/// What went wrong in a call: an error of the library's, or an error of
/// mlua's that still has to be asked whether it carries the cancellation.
pub enum Fault {
    /// An error of the library's.
    Isle(IsleError),
    /// An error of mlua's, with the traceback to use if it has none.
    Lua { error: mlua::Error, traceback: Option<String> },
}

/// `f` with `traceback` in place of a missing one.
pub open spec fn with_traceback(f: FailureView, traceback: Option<Seq<char>>) -> FailureView {
    FailureView {
        traceback: if f.traceback is Some {
            f.traceback
        } else {
            traceback
        },
        ..f
    }
}

impl Fault {
    /// A fault that is an error of mlua's, without a traceback at hand.
    pub fn lua(error: mlua::Error) -> (r: Self)
        ensures
            r == (Fault::Lua { error, traceback: None }),
    {
        Fault::Lua { error, traceback: None }
    }

    /// The error of mlua's that has to be asked about.
    pub fn error(&self) -> (r: Option<&mlua::Error>)
        ensures
            match *self {
                Fault::Isle(_) => r is None,
                Fault::Lua { error, .. } => r == Some(&error),
            },
    {
        match self {
            Fault::Isle(_) => None,
            Fault::Lua { error, .. } => Some(error),
        }
    }

    /// The error to report, given whether the error of mlua's carries the
    /// cancellation.
    pub fn resolve(self, is_cancel: bool) -> (r: IsleError)
        ensures
            match self {
                Fault::Isle(e) => r == e,
                Fault::Lua { error, traceback } => if is_cancel {
                    r@ == IsleErrorView::Cancelled
                } else {
                    exists|tree: ErrorTree| #[trigger]
                        alike(tree, error_tree(error)) && r@ == IsleErrorView::Lua(
                            with_traceback(failure_of(tree), text_of(traceback)),
                        )
                },
            },
    {
        match self {
            Fault::Isle(e) => e,
            Fault::Lua { error, traceback } => {
                if is_cancel {
                    return IsleError::Cancelled;
                }
                let mut f: LuaFailure = LuaFailure::from_mlua(&error);
                let ghost tree = choose|tree: ErrorTree| #[trigger]
                    alike(tree, error_tree(error)) && f@ == failure_of(tree);
                if f.traceback.is_none() {
                    f.traceback = traceback;
                }
                proof {
                    assert(alike(tree, error_tree(error)));
                    assert(f@ == with_traceback(failure_of(tree), text_of(traceback)));
                }
                IsleError::Lua(f)
            },
        }
    }

    /// The error of a step that sets a VM up.
    pub fn into_init(self) -> (r: IsleError)
        ensures
            match self {
                Fault::Isle(e) => r == e,
                Fault::Lua { error, .. } => exists|tree: ErrorTree| #[trigger]
                    alike(tree, error_tree(error)) && r@ == IsleErrorView::Init(failure_of(tree)),
            },
    {
        match self {
            Fault::Isle(e) => e,
            Fault::Lua { error, .. } => IsleError::Init(LuaFailure::from_mlua(&error)),
        }
    }
}

/// A message is parted from the traceback that is appended to it: the
/// traceback follows a newline and begins with its heading, and no traceback
/// is left in the message.
pub open spec fn parted(
    whole: Seq<char>,
    message: Seq<char>,
    traceback: Option<Seq<char>>,
) -> bool {
    &&& !text::occurs(message, "\nstack traceback:"@)
    &&& match traceback {
        Some(t) => {
            &&& whole == message + "\n"@ + t
            &&& t.len() >= "stack traceback:"@.len()
            &&& t.take("stack traceback:"@.len() as int) == "stack traceback:"@
        },
        None => whole == message,
    }
}

/// `f` is what a callback error with this traceback is reported as, when what
/// it wraps is reported as `inner`.
pub open spec fn raised_to(
    cause: ErrorTree,
    inner: FailureView,
    traceback: Seq<char>,
    f: FailureView,
) -> bool {
    if cause is Callback {
        f == inner
    } else {
        &&& f.kind == LuaErrorKind::Callback
        &&& f.message == inner.message
        &&& traceback.len() > 0 ==> f.traceback == Some(traceback)
        &&& traceback.len() == 0 ==> f.traceback == inner.traceback
    }
}

/// `f` is `inner` with a line of context before its message.
pub open spec fn headed(inner: FailureView, context: Seq<char>, f: FailureView) -> bool {
    &&& f.kind == inner.kind
    &&& f.message == context + "\n"@ + inner.message
    &&& f.traceback == inner.traceback
}

/// `f` reports an error that is made of `e`.
pub open spec fn reports(e: ErrorTree, f: FailureView) -> bool
    decreases e,
{
    &&& f.value is None
    &&& match e {
        ErrorTree::Callback { traceback, cause } => exists|inner: FailureView|
            reports(*cause, inner) && #[trigger] raised_to(*cause, inner, traceback, f),
        ErrorTree::WithContext { context, cause } => exists|inner: FailureView|
            reports(*cause, inner) && #[trigger] headed(inner, context, f),
        ErrorTree::Runtime(whole) => {
            &&& f.kind == LuaErrorKind::Runtime
            &&& parted(whole, f.message, f.traceback)
        },
        ErrorTree::Syntax(message) => {
            &&& f.kind == LuaErrorKind::Syntax
            &&& f.message == message && f.traceback is None
        },
        ErrorTree::Memory(message) => {
            &&& f.kind == LuaErrorKind::Memory
            &&& f.message == message && f.traceback is None
        },
        ErrorTree::External(_) => {
            &&& f.kind == LuaErrorKind::External
            &&& prints(e, f.message) && f.traceback is None
        },
        ErrorTree::Other(_) => {
            &&& f.kind == LuaErrorKind::Other
            &&& prints(e, f.message) && f.traceback is None
        },
        _ => {
            &&& f.kind == LuaErrorKind::Conversion
            &&& prints(e, f.message) && f.traceback is None
        },
    }
}

proof fn lemma_parted(msg: Seq<char>)
    ensures
        parted(msg, split(msg).0, split(msg).1),
{
    let mark = traceback_mark();
    law_split_loses_nothing(msg);
    law_messages_carry_no_traceback(ErrorTree::Runtime(msg));
    reveal_strlit("\n");
    assert("\n"@ == seq!['\n']);
    if text::occurs(msg, mark) {
        text::lemma_first_exists(msg, mark);
        let at = position(msg, mark)->0;
        let t = msg.skip(at + 1);
        reveal_strlit("\nstack traceback:");
        reveal_strlit("stack traceback:");
        assert(msg.subrange(at, at + mark.len()) == mark);
        assert("stack traceback:"@ == mark.skip(1));
        assert(t.take("stack traceback:"@.len() as int) == msg.subrange(
            at,
            at + mark.len(),
        ).skip(1));
    }
}

pub(crate) proof fn lemma_reports(read: ErrorTree, e: ErrorTree)
    requires
        alike(read, e),
    ensures
        reports(e, failure_of(read)),
    decreases read,
{
    reveal_strlit("\n");
    assert("\n"@ == seq!['\n']);
    match read {
        ErrorTree::Callback { traceback, cause } => {
            lemma_reports(*cause, *e->Callback_cause);
            assert(reports(*e->Callback_cause, failure_of(*cause)));
            reveal_with_fuel(alike, 2);
            assert(raised_to(
                *e->Callback_cause,
                failure_of(*cause),
                traceback,
                failure_of(read),
            ));
        },
        ErrorTree::WithContext { context, cause } => {
            lemma_reports(*cause, *e->WithContext_cause);
            assert(reports(*e->WithContext_cause, failure_of(*cause)));
            assert(headed(failure_of(*cause), context, failure_of(read)));
        },
        ErrorTree::Runtime(msg) => {
            lemma_parted(msg);
        },
        _ => {},
    }
}

/// An error of mlua's is reported by what it is made of: the variant gives
/// the kind, a runtime error is parted from its traceback, a callback error
/// is reported by the innermost one, and a context stands before the
/// message.  An error that carries the cancellation is the cancellation.
pub proof fn law_an_error_is_reported_by_its_variant(e: mlua::Error, is_cancel: bool)
    ensures
        forall|r: LuaFailure| #[trigger]
            call_ensures(LuaFailure::from_mlua, (&e,), r) ==> reports(error_tree(e), r@),
        forall|r: IsleError| #[trigger]
            call_ensures(IsleError::from_mlua, (&e, is_cancel), r) ==> {
                &&& is_cancel ==> r@ == IsleErrorView::Cancelled
                &&& !is_cancel ==> (r@ matches IsleErrorView::Lua(f) && reports(error_tree(e), f))
            },
{
    assert forall|tree: ErrorTree| #[trigger] alike(tree, error_tree(e)) implies reports(
        error_tree(e),
        failure_of(tree),
    ) by {
        lemma_reports(tree, error_tree(e));
    }
}

/// The kind of a failure is that of its variant, and its message is the
/// error's own.
pub proof fn law_each_variant_has_its_kind(message: String)
    ensures
        forall|r: LuaFailure| #[trigger]
            call_ensures(LuaFailure::from_lua_error, (&LuaError::Runtime(message),), r) ==> r@.kind
                == LuaErrorKind::Runtime && parted(message@, r@.message, r@.traceback)
                && r@.value is None,
        forall|r: LuaFailure| #[trigger]
            call_ensures(LuaFailure::from_lua_error, (&LuaError::Syntax(message),), r) ==> r@ == (
            FailureView {
                kind: LuaErrorKind::Syntax,
                message: message@,
                traceback: None,
                value: None,
            }),
        forall|r: LuaFailure| #[trigger]
            call_ensures(LuaFailure::from_lua_error, (&LuaError::Memory(message),), r) ==> r@ == (
            FailureView {
                kind: LuaErrorKind::Memory,
                message: message@,
                traceback: None,
                value: None,
            }),
        forall|r: LuaFailure| #[trigger]
            call_ensures(LuaFailure::from_lua_error, (&LuaError::External(message),), r) ==> r@ == (
            FailureView {
                kind: LuaErrorKind::External,
                message: message@,
                traceback: None,
                value: None,
            }),
        forall|r: LuaFailure| #[trigger]
            call_ensures(LuaFailure::from_lua_error, (&LuaError::FromLuaConversion(message),), r)
                ==> r@ == (FailureView {
                kind: LuaErrorKind::Conversion,
                message: message@,
                traceback: None,
                value: None,
            }),
        forall|r: LuaFailure| #[trigger]
            call_ensures(LuaFailure::from_lua_error, (&LuaError::BadArgument(message),), r) ==> r@
                == (FailureView {
                kind: LuaErrorKind::Conversion,
                message: message@,
                traceback: None,
                value: None,
            }),
        forall|r: LuaFailure| #[trigger]
            call_ensures(LuaFailure::from_lua_error, (&LuaError::Serialize(message),), r) ==> r@
                == (FailureView {
                kind: LuaErrorKind::Conversion,
                message: message@,
                traceback: None,
                value: None,
            }),
        forall|r: LuaFailure| #[trigger]
            call_ensures(LuaFailure::from_lua_error, (&LuaError::Deserialize(message),), r) ==> r@
                == (FailureView {
                kind: LuaErrorKind::Conversion,
                message: message@,
                traceback: None,
                value: None,
            }),
        forall|r: LuaFailure| #[trigger]
            call_ensures(LuaFailure::from_lua_error, (&LuaError::Other(message),), r) ==> r@ == (
            FailureView {
                kind: LuaErrorKind::Other,
                message: message@,
                traceback: None,
                value: None,
            }),
{
    lemma_parted(message@);
    assert(LuaError::Runtime(message)@ == ErrorTree::Runtime(message@));
    assert(LuaError::Syntax(message)@ == ErrorTree::Syntax(message@));
    assert(LuaError::Memory(message)@ == ErrorTree::Memory(message@));
    assert(LuaError::External(message)@ == ErrorTree::External(message@));
    assert(LuaError::FromLuaConversion(message)@ == ErrorTree::FromLuaConversion(message@));
    assert(LuaError::BadArgument(message)@ == ErrorTree::BadArgument(message@));
    assert(LuaError::Serialize(message)@ == ErrorTree::Serialize(message@));
    assert(LuaError::Deserialize(message)@ == ErrorTree::Deserialize(message@));
    assert(LuaError::Other(message)@ == ErrorTree::Other(message@));
}

/// A callback error has the message of what it wraps, and its own traceback
/// unless that is empty; one that wraps another callback error is reported
/// as that one.  A context stands on a line of its own before the message,
/// and changes nothing else.
pub proof fn law_a_wrapped_error_is_reported_by_what_it_wraps(
    line: String,
    cause: LuaError,
    inner: LuaFailure,
)
    requires
        call_ensures(LuaFailure::from_lua_error, (&cause,), inner),
    ensures
        forall|r: LuaFailure| #[trigger]
            call_ensures(
                LuaFailure::from_lua_error,
                (&(LuaError::Callback { traceback: line, cause: Box::new(cause) }),),
                r,
            ) ==> {
                &&& cause is Callback ==> r@ == inner@
                &&& !(cause is Callback) ==> {
                    &&& r@.kind == LuaErrorKind::Callback
                    &&& r@.message == inner@.message
                    &&& line@.len() > 0 ==> r@.traceback == Some(line@)
                    &&& line@.len() == 0 ==> r@.traceback == inner@.traceback
                    &&& r@.value is None
                }
            },
        forall|r: LuaFailure| #[trigger]
            call_ensures(
                LuaFailure::from_lua_error,
                (&(LuaError::WithContext { context: line, cause: Box::new(cause) }),),
                r,
            ) ==> {
                &&& r@.kind == inner@.kind
                &&& r@.message == line@ + "\n"@ + inner@.message
                &&& r@.traceback == inner@.traceback
                &&& r@.value == inner@.value
            },
{
    reveal_strlit("\n");
    assert("\n"@ == seq!['\n']);
    let called = LuaError::Callback { traceback: line, cause: Box::new(cause) };
    let told = LuaError::WithContext { context: line, cause: Box::new(cause) };
    assert(called@ == (ErrorTree::Callback { traceback: line@, cause: Box::new(tree_of(cause)) }));
    assert(told@ == (ErrorTree::WithContext { context: line@, cause: Box::new(tree_of(cause)) }));
    assert(cause is Callback <==> tree_of(cause) is Callback);
    assert(inner@ == failure_of(tree_of(cause)));
}

/// A message is parted from the traceback that mlua appends to it.
pub proof fn law_a_traceback_is_split_off(msg: &str)
    ensures
        forall|r: (String, Option<String>)| #[trigger]
            call_ensures(split_traceback, (msg,), r) ==> {
                &&& r.1 is None ==> parted(msg@, r.0@, None)
                &&& r.1 matches Some(t) ==> parted(msg@, r.0@, Some(t@))
            },
{
    lemma_parted(msg@);
}

/// Each error prints in its own words, with the text it carries.
pub proof fn law_each_error_prints_in_its_words(e: IsleError)
    ensures
        forall|r: String| #[trigger]
            call_ensures(IsleError::to_string, (&e,), r) ==> match e {
                IsleError::Shutdown => r@ == "isle shut down"@,
                IsleError::Cancelled => r@ == "cancelled"@,
                IsleError::Lua(f) => r@ == "lua error: "@ + f.message@,
                IsleError::Init(f) => r@ == "init error: "@ + f.message@,
                IsleError::NotFound(name) => r@ == "function '"@ + name@ + "' not found"@,
                IsleError::ThreadPanic(Some(m)) => r@ == "lua thread panicked: "@ + m@,
                IsleError::ThreadPanic(None) => r@ == "lua thread panicked"@,
                IsleError::ChannelFull => r@ == "channel full (backpressure)"@,
                IsleError::RecvFailed => r@ == "recv failed"@,
                IsleError::PoolExhausted(n) => r@ == "pool exhausted (max_size="@ + decimal(
                    n as nat,
                ) + ")"@,
                IsleError::PoolPoisoned(m) => r@ == "pool lock poisoned: "@ + m@,
            },
        forall|f: LuaFailure, r: String| #[trigger]
            call_ensures(LuaFailure::to_string, (&f,), r) ==> r@ == f.message@,
        forall|c: Cancelled, r: String| #[trigger]
            call_ensures(Cancelled::to_string, (&c,), r) ==> r@ == "cancelled"@,
{
}

/// A failure is made of what it is given; a panic's message is the text it
/// was raised with, if it was a text.
pub proof fn law_texts_are_carried(kind: LuaErrorKind, message: String, payload: PanicPayload)
    ensures
        forall|r: LuaFailure| #[trigger]
            call_ensures(LuaFailure::new, (kind, message), r) ==> {
                &&& r.kind == kind
                &&& r.message@ == message@
                &&& r.traceback is None && r.value is None
            },
        forall|r: Option<String>| #[trigger]
            call_ensures(panic_message, (&payload,), r) ==> match payload {
                PanicPayload::Str(s) => r matches Some(m) && m@ == s@,
                PanicPayload::Text(s) => r matches Some(m) && m@ == s@,
                PanicPayload::Other => r is None,
            },
{
}

/// A fault that is an error of the library's is reported as it is.  One that
/// is an error of mlua's is the cancellation if it carries it, and else what
/// the error is made of, with the traceback at hand where it has none; in the
/// setup of a VM it is a setup failure.
pub proof fn law_a_fault_is_resolved(fault: Fault, is_cancel: bool)
    ensures
        forall|r: IsleError| #[trigger]
            call_ensures(Fault::resolve, (fault, is_cancel), r) ==> {
                &&& fault matches Fault::Isle(e) ==> r == e
                &&& fault is Lua && is_cancel ==> r@ == IsleErrorView::Cancelled
                &&& fault is Lua && !is_cancel ==> r@ is Lua
                &&& fault is Lua && !is_cancel ==> exists|f: FailureView|
                    #[trigger] reports(error_tree(fault->Lua_error), f) && {
                        &&& r@->Lua_0.kind == f.kind
                        &&& r@->Lua_0.message == f.message
                        &&& r@->Lua_0.value is None
                        &&& f.traceback is Some ==> r@->Lua_0.traceback == f.traceback
                        &&& f.traceback is None ==> {
                            &&& r@->Lua_0.traceback is Some <==> fault->traceback is Some
                            &&& fault->traceback matches Some(t) ==> r@->Lua_0.traceback == Some(t@)
                        }
                    }
            },
        forall|r: IsleError| #[trigger]
            call_ensures(Fault::into_init, (fault,), r) ==> {
                &&& fault matches Fault::Isle(e) ==> r == e
                &&& fault matches Fault::Lua { error, .. } ==> (r@ matches IsleErrorView::Init(f)
                    && reports(error_tree(error), f))
            },
        forall|r: Option<&mlua::Error>| #[trigger]
            call_ensures(Fault::error, (&fault,), r) ==> {
                &&& r is Some <==> fault is Lua
                &&& fault matches Fault::Lua { error, .. } ==> r == Some(&error)
            },
        forall|error: mlua::Error, r: Fault| #[trigger]
            call_ensures(Fault::lua, (error,), r) ==> r == (Fault::Lua { error, traceback: None }),
{
    if fault is Lua {
        assert forall|tree: ErrorTree| #[trigger]
            alike(tree, error_tree(fault->Lua_error)) implies reports(
            error_tree(fault->Lua_error),
            failure_of(tree),
        ) by {
            lemma_reports(tree, error_tree(fault->Lua_error));
        }
    }
}

/// What an error is read as is the error itself, with what it printed: the
/// same variant, and for one that wraps another, what that was read as.
pub proof fn law_an_error_is_read_as_it_is(e: mlua::Error)
    ensures
        forall|r: LuaError| #[trigger]
            call_ensures(LuaError::from_mlua, (&e,), r) ==> match error_tree(e) {
                ErrorTree::Callback { traceback, cause } => {
                    &&& r matches LuaError::Callback { traceback: t, cause: c }
                    &&& t@ == traceback
                    &&& alike(tree_of(*c), *cause)
                },
                ErrorTree::WithContext { context, cause } => {
                    &&& r matches LuaError::WithContext { context: t, cause: c }
                    &&& t@ == context
                    &&& alike(tree_of(*c), *cause)
                },
                ErrorTree::Runtime(m) => r matches LuaError::Runtime(t) && t@ == m,
                ErrorTree::Syntax(m) => r matches LuaError::Syntax(t) && t@ == m,
                ErrorTree::Memory(m) => r matches LuaError::Memory(t) && t@ == m,
                ErrorTree::External(_) => r matches LuaError::External(t) && prints(
                    error_tree(e),
                    t@,
                ),
                ErrorTree::FromLuaConversion(_) => r matches LuaError::FromLuaConversion(t)
                    && prints(error_tree(e), t@),
                ErrorTree::BadArgument(_) => r matches LuaError::BadArgument(t) && prints(
                    error_tree(e),
                    t@,
                ),
                ErrorTree::Serialize(_) => r matches LuaError::Serialize(t) && prints(
                    error_tree(e),
                    t@,
                ),
                ErrorTree::Deserialize(_) => r matches LuaError::Deserialize(t) && prints(
                    error_tree(e),
                    t@,
                ),
                ErrorTree::Other(_) => r matches LuaError::Other(t) && prints(error_tree(e), t@),
            },
{
}

} // verus!
