//! The calls into mlua, and what the library takes them to do.
//!
//! Everything here is believed, not proved: the types are opaque, and each
//! function makes one call.
//!
//! What a call into the VM returns depends on the state of the VM, and what
//! an error or an object prints is up to the host and to Lua.  Of such a
//! call nothing is promised but that it was made.  The calls of Lua
//! functions are logged, in the order in which they are made, in [`Calls`],
//! and the global hook that was set last is told by a [`HookSlot`].
//! [`read_global`] and the like relate what went into any other call to what
//! came out of it; such a relation holds of every outcome that a call has
//! had, and never says that another call has the same outcome.
//!
//! mlua panics on a value that is used with another VM than its own, or
//! after its VM is gone.  [`lives`] says which values can be used with a VM
//! that is at hand; the functions that look into a value, or hand one to
//! the VM, ask for it.  Two panics are left that no condition on the
//! arguments can rule out: a Rust function of the host that panics while Lua
//! runs makes the call into Lua panic in its turn, and `Lua::globals` (under
//! [`global`] and [`function_global`]) panics when the stacks that mlua keeps
//! its values on cannot grow any more.

use crate::hub::Triggers;
use crate::text::signed_decimal;
use mlua::{FromLua, LuaSerdeExt};
use vstd::prelude::*;

verus! {

/// `mlua::Lua`: a VM.
#[verifier::external_type_specification]
#[verifier::external_body]
pub struct ExLua(mlua::Lua);

/// `mlua::Error`.
#[verifier::external_type_specification]
#[verifier::external_body]
pub struct ExError(mlua::Error);

/// `mlua::Value`.
#[verifier::external_type_specification]
#[verifier::external_body]
pub struct ExValue(mlua::Value);

/// `mlua::MultiValue`: a list of values.
#[verifier::external_type_specification]
#[verifier::external_body]
pub struct ExMultiValue(mlua::MultiValue);

/// `mlua::Function`.
#[verifier::external_type_specification]
#[verifier::external_body]
pub struct ExFunction(mlua::Function);

/// `mlua::Table`.
#[verifier::external_type_specification]
#[verifier::external_body]
pub struct ExTable(mlua::Table);

/// `mlua::RegistryKey`.
#[verifier::external_type_specification]
#[verifier::external_body]
pub struct ExRegistryKey(mlua::RegistryKey);

/// `serde_json::Value`.
#[verifier::external_type_specification]
#[verifier::external_body]
pub struct ExJson(serde_json::Value);

/// What an error is made of.  The text of the last six is what the error
/// prints; it can come from code of the host.
pub enum ErrorTree {
    Callback { traceback: Seq<char>, cause: Box<ErrorTree> },
    WithContext { context: Seq<char>, cause: Box<ErrorTree> },
    Runtime(Seq<char>),
    Syntax(Seq<char>),
    Memory(Seq<char>),
    External(Seq<char>),
    FromLuaConversion(Seq<char>),
    BadArgument(Seq<char>),
    Serialize(Seq<char>),
    Deserialize(Seq<char>),
    Other(Seq<char>),
}

/// An error that is made of `e` has printed `text`.
pub uninterp spec fn prints(e: ErrorTree, text: Seq<char>) -> bool;

/// `a` is the error `b` as it was read: the same, with the texts that it
/// printed when it was read.
pub open spec fn alike(a: ErrorTree, b: ErrorTree) -> bool
    decreases a,
{
    match a {
        ErrorTree::Callback { traceback, cause } => match b {
            ErrorTree::Callback { traceback: other, cause: below } => traceback == other && alike(
                *cause,
                *below,
            ),
            _ => false,
        },
        ErrorTree::WithContext { context, cause } => match b {
            ErrorTree::WithContext { context: other, cause: below } => context == other && alike(
                *cause,
                *below,
            ),
            _ => false,
        },
        ErrorTree::Runtime(_) => a == b,
        ErrorTree::Syntax(_) => a == b,
        ErrorTree::Memory(_) => a == b,
        ErrorTree::External(text) => b is External && prints(b, text),
        ErrorTree::FromLuaConversion(text) => b is FromLuaConversion && prints(b, text),
        ErrorTree::BadArgument(text) => b is BadArgument && prints(b, text),
        ErrorTree::Serialize(text) => b is Serialize && prints(b, text),
        ErrorTree::Deserialize(text) => b is Deserialize && prints(b, text),
        ErrorTree::Other(text) => b is Other && prints(b, text),
    }
}

/// What an `mlua::Error` is made of: its variant, and for the variants that
/// wrap an error or hold a message of Lua's, those.
pub uninterp spec fn error_tree(e: mlua::Error) -> ErrorTree;

/// What the outermost variant of an error holds.
pub(crate) enum Layer<'a> {
    Callback { traceback: &'a str, cause: &'a mlua::Error },
    WithContext { context: &'a str, cause: &'a mlua::Error },
    Runtime(&'a str),
    Syntax(&'a str),
    Memory(&'a str),
    External,
    FromLuaConversion,
    BadArgument,
    Serialize,
    Deserialize,
    Other,
}

/// The variant of an `mlua::Error`, with the fields that are read here.
#[verifier::external_body]
pub(crate) fn layer(e: &mlua::Error) -> (r: Layer<'_>)
    ensures
        match r {
            Layer::Callback { traceback, cause } => error_tree(*e) == (ErrorTree::Callback {
                traceback: traceback@,
                cause: Box::new(error_tree(*cause)),
            }),
            Layer::WithContext { context, cause } => error_tree(*e) == (ErrorTree::WithContext {
                context: context@,
                cause: Box::new(error_tree(*cause)),
            }),
            Layer::Runtime(m) => error_tree(*e) == ErrorTree::Runtime(m@),
            Layer::Syntax(m) => error_tree(*e) == ErrorTree::Syntax(m@),
            Layer::Memory(m) => error_tree(*e) == ErrorTree::Memory(m@),
            Layer::External => error_tree(*e) is External,
            Layer::FromLuaConversion => error_tree(*e) is FromLuaConversion,
            Layer::BadArgument => error_tree(*e) is BadArgument,
            Layer::Serialize => error_tree(*e) is Serialize,
            Layer::Deserialize => error_tree(*e) is Deserialize,
            Layer::Other => error_tree(*e) is Other,
        },
{
    match e {
        mlua::Error::CallbackError { traceback, cause } => Layer::Callback { traceback, cause },
        mlua::Error::WithContext { context, cause } => Layer::WithContext { context, cause },
        mlua::Error::RuntimeError(message) => Layer::Runtime(message),
        mlua::Error::SyntaxError { message, .. } => Layer::Syntax(message),
        mlua::Error::MemoryError(message) => Layer::Memory(message),
        mlua::Error::ExternalError(_) => Layer::External,
        mlua::Error::FromLuaConversionError { .. } => Layer::FromLuaConversion,
        mlua::Error::BadArgument { .. } => Layer::BadArgument,
        mlua::Error::SerializeError(_) => Layer::Serialize,
        mlua::Error::DeserializeError(_) => Layer::Deserialize,
        _ => Layer::Other,
    }
}

/// What an `mlua::Error` prints (its `Display`).  Nothing is said of the
/// text: an external error prints what the host's code makes it print.
#[verifier::external_body]
pub(crate) fn error_text(e: &mlua::Error) -> (r: String)
    ensures
        prints(error_tree(*e), r@),
{
    e.to_string()
}

/// What can be told of a Lua value without running Lua.
pub enum ValueView {
    Nil,
    Boolean(bool),
    Integer(i64),
    /// A float, as Rust prints it.
    Number(Seq<char>),
    /// A string: its text, invalid UTF-8 replaced, and whether there was
    /// none to replace.
    Text { text: Seq<char>, valid: bool },
    Table,
    Function,
    /// A Rust error that passed through Lua.
    Error(ErrorTree),
    /// Anything else: userdata, threads.
    Other,
}

/// The value `v` can be used with the VM `lua`: it is plain data, or a value
/// of this VM.
pub uninterp spec fn lives(lua: mlua::Lua, v: mlua::Value) -> bool;

/// All of the values can be used with the VM `lua`.
pub open spec fn all_live(lua: mlua::Lua, values: Seq<mlua::Value>) -> bool {
    forall|i: int| 0 <= i < values.len() ==> lives(lua, #[trigger] values[i])
}

/// What an `mlua::Value` is.  (A value stands for the Lua value that it
/// refers to: two handles of one Lua value are one value here.)
pub uninterp spec fn value_view(v: mlua::Value) -> ValueView;

/// The kinds of Lua values that are told apart.
#[derive(Clone, Copy, Debug, PartialEq, Eq, Structural)]
pub enum Shape {
    Nil,
    Boolean(bool),
    Integer(i64),
    Number,
    Text,
    Table,
    Function,
    Error,
    Other,
}

/// The shape of a value.
pub open spec fn shape(v: ValueView) -> Shape {
    match v {
        ValueView::Nil => Shape::Nil,
        ValueView::Boolean(b) => Shape::Boolean(b),
        ValueView::Integer(n) => Shape::Integer(n),
        ValueView::Number(_) => Shape::Number,
        ValueView::Text { .. } => Shape::Text,
        ValueView::Table => Shape::Table,
        ValueView::Function => Shape::Function,
        ValueView::Error(_) => Shape::Error,
        ValueView::Other => Shape::Other,
    }
}

/// The variant of an `mlua::Value`.
#[verifier::external_body]
pub(crate) fn shape_of(v: &mlua::Value) -> (r: Shape)
    ensures
        r == shape(value_view(*v)),
{
    match v {
        mlua::Value::Nil => Shape::Nil,
        mlua::Value::Boolean(b) => Shape::Boolean(*b),
        mlua::Value::Integer(n) => Shape::Integer(*n),
        mlua::Value::Number(_) => Shape::Number,
        mlua::Value::String(_) => Shape::Text,
        mlua::Value::Table(_) => Shape::Table,
        mlua::Value::Function(_) => Shape::Function,
        mlua::Value::Error(_) => Shape::Error,
        _ => Shape::Other,
    }
}

/// The value that a function is.
pub uninterp spec fn function_as_value(f: mlua::Function) -> mlua::Value;

/// `Value::as_function`: the function that a value is.
#[verifier::external_body]
pub(crate) fn function_of(v: &mlua::Value) -> (r: Option<mlua::Function>)
    ensures
        match r {
            Some(f) => value_view(*v) is Function && function_as_value(f) == *v,
            None => !(value_view(*v) is Function),
        },
{
    v.as_function().cloned()
}

/// `Value::as_error`: the Rust error that a value is.
#[verifier::external_body]
pub(crate) fn error_of(v: &mlua::Value) -> (r: Option<mlua::Error>)
    ensures
        match value_view(*v) {
            ValueView::Error(tree) => r matches Some(e) && error_tree(e) == tree,
            _ => r is None,
        },
{
    v.as_error().cloned()
}

/// `LuaString::to_string_lossy`: the text of a string value, with invalid
/// UTF-8 replaced.
#[verifier::external_body]
#[allow(unused_variables)]
pub(crate) fn lossy_text(lua: &mlua::Lua, v: &mlua::Value) -> (r: Option<String>)
    requires
        lives(*lua, *v),
    ensures
        match value_view(*v) {
            ValueView::Text { text, .. } => r matches Some(s) && s@ == text,
            _ => r is None,
        },
{
    v.as_string().map(|s| s.to_string_lossy())
}

/// A value was to be read as an optional string, and this came of it.
pub uninterp spec fn reads_as(
    v: mlua::Value,
    outcome: Result<Option<Seq<char>>, ErrorTree>,
) -> bool;

/// `FromLua` for an optional `LuaString`, with invalid UTF-8 replaced: `nil`
/// is none, a string is itself, and a number is coerced as Lua does it (the
/// text is not said).  It is an error if the value is anything else.
#[verifier::external_body]
pub(crate) fn optional_text(lua: &mlua::Lua, v: mlua::Value) -> (r: Result<
    Option<String>,
    mlua::Error,
>)
    requires
        lives(*lua, v),
    ensures
        match r {
            Ok(Some(s)) => reads_as(v, Ok(Some(s@))),
            Ok(None) => reads_as(v, Ok(None)),
            Err(e) => reads_as(v, Err(error_tree(e))),
        },
        match value_view(v) {
            ValueView::Nil => r matches Ok(None),
            ValueView::Text { text, .. } => r matches Ok(Some(s)) && s@ == text,
            ValueView::Integer(_) => !(r matches Ok(None)),
            ValueView::Number(_) => !(r matches Ok(None)),
            _ => r is Err,
        },
{
    Ok(Option::<mlua::LuaString>::from_lua(v, lua)?.map(|s| s.to_string_lossy()))
}

/// A float value as Rust prints it.
#[verifier::external_body]
pub(crate) fn number_text(v: &mlua::Value) -> (r: Option<String>)
    ensures
        match value_view(*v) {
            ValueView::Number(text) => r matches Some(s) && s@ == text,
            _ => r is None,
        },
{
    v.as_number().map(|n| n.to_string())
}

/// `Value::to_string` of `v` has come to this.
pub uninterp spec fn tells(v: mlua::Value, outcome: Result<Seq<char>, ErrorTree>) -> bool;

/// `Value::to_string`.  A value that Lua does not have to be asked about
/// prints as stated, and a string only when it is valid UTF-8; a table,
/// function or other object may run a `__tostring` metamethod, and a Rust
/// error prints what the host makes it print.
#[verifier::external_body]
#[allow(unused_variables)]
pub(crate) fn to_text(lua: &mlua::Lua, v: &mlua::Value) -> (r: Result<String, mlua::Error>)
    requires
        lives(*lua, *v),
    ensures
        match r {
            Ok(s) => tells(*v, Ok(s@)),
            Err(e) => tells(*v, Err(error_tree(e))),
        },
        match value_view(*v) {
            ValueView::Nil => r matches Ok(s) && s@ == "nil"@,
            ValueView::Boolean(b) => r matches Ok(s) && s@ == if b {
                "true"@
            } else {
                "false"@
            },
            ValueView::Integer(n) => r matches Ok(s) && s@ == signed_decimal(n as int),
            ValueView::Number(text) => r matches Ok(s) && s@ == text,
            ValueView::Text { text, valid } => match r {
                Ok(s) => valid && s@ == text,
                Err(_) => !valid,
            },
            _ => true,
        },
{
    v.to_string()
}

/// The `Debug` text of `v` has been `text`.
pub uninterp spec fn shows(v: mlua::Value, text: Seq<char>) -> bool;

/// A value as `Debug` prints it (an address, for objects).
#[verifier::external_body]
#[allow(unused_variables)]
pub(crate) fn debug_text(lua: &mlua::Lua, v: &mlua::Value) -> (r: String)
    requires
        lives(*lua, *v),
    ensures
        shows(*v, r@),
{
    format!("{v:?}")
}

/// The value `v` has been `json` in JSON; `None`, when it did not convert.
pub uninterp spec fn converts(v: mlua::Value, json: Option<serde_json::Value>) -> bool;

/// `LuaSerdeExt::from_value`: the value as JSON, when it converts.  Reads
/// the tables of the VM.
#[verifier::external_body]
pub(crate) fn to_json(lua: &mlua::Lua, v: mlua::Value) -> (r: Option<serde_json::Value>)
    requires
        lives(*lua, v),
    ensures
        converts(v, r),
{
    lua.from_value(v).ok()
}

/// A second handle to the same value.
#[verifier::external_body]
pub(crate) fn same_value(v: &mlua::Value) -> (r: mlua::Value)
    ensures
        r == *v,
{
    v.clone()
}

/// A second handle to the same function.
#[verifier::external_body]
pub(crate) fn same_function(f: &mlua::Function) -> (r: mlua::Function)
    ensures
        function_as_value(r) == function_as_value(*f),
{
    f.clone()
}

/// `Value::Nil`.
#[verifier::external_body]
pub(crate) fn nil_value() -> (r: mlua::Value)
    ensures
        value_view(r) == ValueView::Nil,
        forall|lua: mlua::Lua| #[trigger] lives(lua, r),
{
    mlua::Value::Nil
}

/// `Value::Boolean`.
#[verifier::external_body]
pub(crate) fn boolean_value(b: bool) -> (r: mlua::Value)
    ensures
        value_view(r) == ValueView::Boolean(b),
        forall|lua: mlua::Lua| #[trigger] lives(lua, r),
{
    mlua::Value::Boolean(b)
}

/// `Value::Function`.
#[verifier::external_body]
pub(crate) fn function_value(f: mlua::Function) -> (r: mlua::Value)
    ensures
        r == function_as_value(f),
        value_view(r) == ValueView::Function,
{
    mlua::Value::Function(f)
}

/// The value that a table is.
pub uninterp spec fn table_as_value(t: mlua::Table) -> mlua::Value;

/// `Value::Table`.
#[verifier::external_body]
pub(crate) fn table_value(t: mlua::Table) -> (r: mlua::Value)
    ensures
        r == table_as_value(t),
        value_view(r) == ValueView::Table,
{
    mlua::Value::Table(t)
}

/// `Value::Error`.
#[verifier::external_body]
pub(crate) fn error_value(e: mlua::Error) -> (r: mlua::Value)
    ensures
        value_view(r) == ValueView::Error(error_tree(e)),
        forall|lua: mlua::Lua| #[trigger] lives(lua, r),
{
    mlua::Value::Error(Box::new(e))
}

/// `mlua::Error::runtime`: a runtime error with a message.
#[verifier::external_body]
pub(crate) fn runtime_error(message: &str) -> (r: mlua::Error)
    ensures
        error_tree(r) == ErrorTree::Runtime(message@),
{
    mlua::Error::runtime(message)
}

/// A string value was to be created from `text`, and this came of it.
pub uninterp spec fn made_text(
    lua: mlua::Lua,
    text: Seq<char>,
    outcome: Result<mlua::Value, ErrorTree>,
) -> bool;

/// `Lua::create_string`: a string value.  Fails when the VM has no memory
/// or no room on its stack left.
#[verifier::external_body]
pub(crate) fn text_value(lua: &mlua::Lua, s: &str) -> (r: Result<mlua::Value, mlua::Error>)
    ensures
        match r {
            Ok(v) => {
                &&& made_text(*lua, s@, Ok(v))
                &&& value_view(v) == (ValueView::Text { text: s@, valid: true })
                &&& lives(*lua, v)
            },
            Err(e) => made_text(*lua, s@, Err(error_tree(e))),
        },
{
    lua.create_string(s).map(mlua::Value::String)
}

/// The values of an `mlua::MultiValue`, in order.
pub uninterp spec fn values_of(m: mlua::MultiValue) -> Seq<mlua::Value>;

/// `MultiValue::into_vec`.
#[verifier::external_body]
pub(crate) fn into_values(m: mlua::MultiValue) -> (r: Vec<mlua::Value>)
    ensures
        r@ == values_of(m),
{
    m.into_vec()
}

/// `MultiValue::from_vec`.
#[verifier::external_body]
pub(crate) fn from_values(v: Vec<mlua::Value>) -> (r: mlua::MultiValue)
    ensures
        values_of(r) == v@,
{
    mlua::MultiValue::from_vec(v)
}

/// How a call of a Lua function ended.
pub enum Outcome {
    /// It returned these values.
    Returned(Seq<mlua::Value>),
    /// It, or the reading of what it returned, failed with this error.
    Failed(ErrorTree),
}

/// A call of a Lua function.
pub struct Call {
    pub f: mlua::Value,
    pub args: Seq<mlua::Value>,
    pub outcome: Outcome,
}

/// The calls of Lua functions that were made on a VM, in order.  Nothing is
/// kept at run time; the functions that make a call add to it, and nothing
/// else can.
pub struct Calls {
    made: Ghost<Seq<Call>>,
}

impl Calls {
    /// The calls, oldest first.
    pub closed spec fn made(&self) -> Seq<Call> {
        self.made@
    }

    /// No call was made yet.  A log is begun by the host, who has a handle of
    /// the VM to give; the functions of the library are only lent the VM, so
    /// none of them can begin a log of its own and make a call that the log
    /// it was given does not hold.
    pub fn new(_vm: mlua::Lua) -> (r: Self)
        ensures
            r.made() == Seq::<Call>::empty(),
    {
        Calls { made: Ghost(Seq::empty()) }
    }
}

/// After the calls `before`, one more was made: that of `f` with `args`.
pub open spec fn one_more(
    before: Seq<Call>,
    after: Seq<Call>,
    f: mlua::Value,
    args: Seq<mlua::Value>,
) -> bool {
    &&& after.len() == before.len() + 1
    &&& after.drop_last() == before
    &&& after.last().f == f
    &&& after.last().args == args
}

/// After the calls `before`, exactly the calls `made` were made.
pub open spec fn were_made(before: Seq<Call>, made: Seq<Call>, after: Seq<Call>) -> bool {
    after == before + made
}

/// One call more is this call.
pub(crate) proof fn lemma_one_more(
    before: Seq<Call>,
    after: Seq<Call>,
    f: mlua::Value,
    args: Seq<mlua::Value>,
)
    requires
        one_more(before, after, f, args),
    ensures
        were_made(before, seq![after.last()], after),
{
    assert(after == before + seq![after.last()]);
}

/// `Function::call`: runs Lua.
#[verifier::external_body]
#[allow(unused_variables)]
pub(crate) fn call_function(
    lua: &mlua::Lua,
    f: &mlua::Function,
    args: mlua::MultiValue,
    calls: &mut Calls,
) -> (r: Result<mlua::MultiValue, mlua::Error>)
    requires
        lives(*lua, function_as_value(*f)),
        all_live(*lua, values_of(args)),
    ensures
        one_more(
            old(calls).made(),
            final(calls).made(),
            function_as_value(*f),
            values_of(args),
        ),
        match r {
            Ok(out) => {
                &&& final(calls).made().last().outcome == Outcome::Returned(values_of(out))
                &&& all_live(*lua, values_of(out))
            },
            Err(e) => final(calls).made().last().outcome == Outcome::Failed(error_tree(e)),
        },
{
    f.call(args)
}

/// `Function::call` for a function: runs Lua.  The function is the first of
/// the returned values; it is an error if that is not a function.
#[verifier::external_body]
#[allow(unused_variables)]
pub(crate) fn call_for_function(
    lua: &mlua::Lua,
    f: &mlua::Function,
    args: mlua::MultiValue,
    calls: &mut Calls,
) -> (r: Result<mlua::Function, mlua::Error>)
    requires
        lives(*lua, function_as_value(*f)),
        all_live(*lua, values_of(args)),
    ensures
        one_more(
            old(calls).made(),
            final(calls).made(),
            function_as_value(*f),
            values_of(args),
        ),
        match r {
            Ok(g) => {
                &&& final(calls).made().last().outcome matches Outcome::Returned(out)
                &&& out.len() > 0
                &&& out[0] == function_as_value(g)
                &&& lives(*lua, function_as_value(g))
            },
            Err(e) => final(calls).made().last().outcome == Outcome::Failed(error_tree(e)),
        },
{
    f.call(args)
}

/// `Function::call` for a table: runs Lua.  The table is the first of the
/// returned values; it is an error if that is not a table.
#[verifier::external_body]
#[allow(unused_variables)]
pub(crate) fn call_for_table(
    lua: &mlua::Lua,
    f: &mlua::Function,
    args: mlua::MultiValue,
    calls: &mut Calls,
) -> (r: Result<mlua::Table, mlua::Error>)
    requires
        lives(*lua, function_as_value(*f)),
        all_live(*lua, values_of(args)),
    ensures
        one_more(
            old(calls).made(),
            final(calls).made(),
            function_as_value(*f),
            values_of(args),
        ),
        match r {
            Ok(t) => {
                &&& final(calls).made().last().outcome matches Outcome::Returned(out)
                &&& out.len() > 0
                &&& out[0] == table_as_value(t)
                &&& lives(*lua, table_as_value(t))
            },
            Err(e) => final(calls).made().last().outcome == Outcome::Failed(error_tree(e)),
        },
{
    f.call(args)
}

/// `Function::call` for a string: runs Lua.  A string that is returned
/// first is the result; what else counts as a string is not said.
#[verifier::external_body]
#[allow(unused_variables)]
pub(crate) fn call_for_text(
    lua: &mlua::Lua,
    f: &mlua::Function,
    args: mlua::MultiValue,
    calls: &mut Calls,
) -> (r: Result<String, mlua::Error>)
    requires
        lives(*lua, function_as_value(*f)),
        all_live(*lua, values_of(args)),
    ensures
        one_more(
            old(calls).made(),
            final(calls).made(),
            function_as_value(*f),
            values_of(args),
        ),
        match r {
            Ok(s) => {
                &&& final(calls).made().last().outcome matches Outcome::Returned(out)
                &&& reads(out, s@)
            },
            Err(e) => final(calls).made().last().outcome == Outcome::Failed(error_tree(e)),
        },
{
    f.call(args)
}

/// `text` is what the first of the values `out` says, if it is a string.
pub open spec fn reads(out: Seq<mlua::Value>, text: Seq<char>) -> bool {
    out.len() > 0 && (value_view(out[0]) matches ValueView::Text { text: t, valid } ==> valid && t
        == text)
}

/// The global `name` was read, and was this.
pub uninterp spec fn read_global(
    lua: mlua::Lua,
    name: Seq<char>,
    outcome: Result<mlua::Value, ErrorTree>,
) -> bool;

/// `Table::get` on the globals: the global `name`.  A metatable of the
/// globals can make it run Lua, and fail.
#[verifier::external_body]
pub(crate) fn global(lua: &mlua::Lua, name: &str) -> (r: Result<mlua::Value, mlua::Error>)
    ensures
        match r {
            Ok(v) => read_global(*lua, name@, Ok(v)) && lives(*lua, v),
            Err(e) => read_global(*lua, name@, Err(error_tree(e))),
        },
{
    lua.globals().get(name)
}

/// The global `name` could not be read as a function, with the error `e`:
/// the reading failed, or what was read is not a function.
pub open spec fn not_a_function(lua: mlua::Lua, name: Seq<char>, e: ErrorTree) -> bool {
    ||| read_global(lua, name, Err(e))
    ||| exists|v: mlua::Value| #[trigger]
        read_global(lua, name, Ok(v)) && !(value_view(v) is Function)
}

/// `Table::get` on the globals, for a function: it is an error if the
/// global `name` is not a function.
#[verifier::external_body]
pub(crate) fn function_global(lua: &mlua::Lua, name: &str) -> (r: Result<
    mlua::Function,
    mlua::Error,
>)
    ensures
        match r {
            Ok(f) => {
                &&& read_global(*lua, name@, Ok(function_as_value(f)))
                &&& lives(*lua, function_as_value(f))
            },
            Err(e) => not_a_function(*lua, name@, error_tree(e)),
        },
{
    lua.globals().get(name)
}

/// A chunk of Lua code, and the name it goes by in messages, if it was given
/// one.
pub struct Source {
    pub code: Seq<char>,
    pub name: Option<Seq<char>>,
}

/// The chunk `source` was compiled, to a function or with an error.
pub uninterp spec fn compiles(
    source: Source,
    outcome: Result<mlua::Function, ErrorTree>,
) -> bool;

/// `Chunk::into_function`: the chunk `code`, compiled under `name`.  Fails
/// when the code does not compile or the VM has no memory left.
#[verifier::external_body]
pub(crate) fn compile(lua: &mlua::Lua, code: &str, name: &str) -> (r: Result<
    mlua::Function,
    mlua::Error,
>)
    ensures
        match r {
            Ok(f) => {
                &&& compiles(Source { code: code@, name: Some(name@) }, Ok(f))
                &&& lives(*lua, function_as_value(f))
            },
            Err(e) => compiles(Source { code: code@, name: Some(name@) }, Err(error_tree(e))),
        },
{
    lua.load(code).set_name(name).into_function()
}

/// `Chunk::into_function` of a chunk that is given no name.
#[verifier::external_body]
pub(crate) fn compile_unnamed(lua: &mlua::Lua, code: &str) -> (r: Result<
    mlua::Function,
    mlua::Error,
>)
    ensures
        match r {
            Ok(f) => {
                &&& compiles(Source { code: code@, name: None }, Ok(f))
                &&& lives(*lua, function_as_value(f))
            },
            Err(e) => compiles(Source { code: code@, name: None }, Err(error_tree(e))),
        },
{
    lua.load(code).into_function()
}

/// A table was to be created in `lua`, and this came of it.
pub uninterp spec fn made_table(lua: mlua::Lua, outcome: Result<mlua::Table, ErrorTree>) -> bool;

/// `Lua::create_table`: a new table.  Fails when the VM has no memory or no
/// room on its stack left.
#[verifier::external_body]
pub(crate) fn new_table(lua: &mlua::Lua) -> (r: Result<mlua::Table, mlua::Error>)
    ensures
        match r {
            Ok(t) => made_table(*lua, Ok(t)) && lives(*lua, table_as_value(t)),
            Err(e) => made_table(*lua, Err(error_tree(e))),
        },
{
    lua.create_table()
}

/// The string `value` was to be put into the table `t` under `key`, and
/// this came of it.
pub uninterp spec fn was_set(
    t: mlua::Table,
    key: Seq<char>,
    value: Seq<char>,
    outcome: Result<(), ErrorTree>,
) -> bool;

/// `Table::raw_set` of a string under a string.  Fails when the VM has no
/// memory or no room on its stack left.
#[verifier::external_body]
#[allow(unused_variables)]
pub(crate) fn set_text(lua: &mlua::Lua, t: &mlua::Table, key: &str, value: &str) -> (r: Result<
    (),
    mlua::Error,
>)
    requires
        lives(*lua, table_as_value(*t)),
    ensures
        match r {
            Ok(()) => was_set(*t, key@, value@, Ok(())),
            Err(e) => was_set(*t, key@, value@, Err(error_tree(e))),
        },
{
    t.raw_set(key, value)
}

/// The table `t` was given the metatable `meta`.
pub uninterp spec fn was_given(t: mlua::Table, meta: mlua::Table) -> bool;

/// `Table::set_metatable`.  Does not fail (in a Lua that has no read-only
/// tables).
#[verifier::external_body]
#[allow(unused_variables)]
pub(crate) fn set_metatable(lua: &mlua::Lua, t: &mlua::Table, meta: mlua::Table) -> (r: Result<
    (),
    mlua::Error,
>)
    requires
        lives(*lua, table_as_value(*t)),
        lives(*lua, table_as_value(meta)),
    ensures
        r is Ok,
        r is Ok ==> was_given(*t, meta),
{
    t.set_metatable(Some(meta))
}

/// The table `t` was to be put into the registry under `name`, and this
/// came of it.
pub uninterp spec fn was_registered(
    lua: mlua::Lua,
    name: Seq<char>,
    t: mlua::Table,
    outcome: Result<(), ErrorTree>,
) -> bool;

/// `Lua::set_named_registry_value` of a table.  Fails when the VM has no
/// memory or no room on its stack left.
#[verifier::external_body]
pub(crate) fn set_registry(lua: &mlua::Lua, name: &str, t: &mlua::Table) -> (r: Result<
    (),
    mlua::Error,
>)
    requires
        lives(*lua, table_as_value(*t)),
    ensures
        match r {
            Ok(()) => was_registered(*lua, name@, *t, Ok(())),
            Err(e) => was_registered(*lua, name@, *t, Err(error_tree(e))),
        },
{
    lua.set_named_registry_value(name, t)
}

/// The value that is kept in the registry under a key.  (A key keeps its
/// value until it is handed out to be changed.)
pub uninterp spec fn kept_value(key: mlua::RegistryKey) -> mlua::Value;

/// The value `v` could not be put into the registry, with the error `e`.
pub uninterp spec fn not_kept(lua: mlua::Lua, v: mlua::Value, e: ErrorTree) -> bool;

/// `Lua::create_registry_value` of a function: keeps it under a new key.
/// Fails when the VM has no memory or no room on its stack left.
#[verifier::external_body]
pub(crate) fn keep_function(lua: &mlua::Lua, f: mlua::Function) -> (r: Result<
    mlua::RegistryKey,
    mlua::Error,
>)
    requires
        lives(*lua, function_as_value(f)),
    ensures
        match r {
            Ok(key) => kept_value(key) == function_as_value(f),
            Err(e) => not_kept(*lua, function_as_value(f), error_tree(e)),
        },
{
    lua.create_registry_value(f)
}

/// The value `v` that is kept in a registry could not be read, with the
/// error `e`.
pub uninterp spec fn not_read(lua: mlua::Lua, v: mlua::Value, e: ErrorTree) -> bool;

/// `Lua::registry_value`: the function that is kept under a key.  Fails for
/// a key of another VM, or when the VM has no room on its stack left.
#[verifier::external_body]
pub(crate) fn kept_function(lua: &mlua::Lua, key: &mlua::RegistryKey) -> (r: Result<
    mlua::Function,
    mlua::Error,
>)
    ensures
        match r {
            Ok(f) => {
                &&& function_as_value(f) == kept_value(*key)
                &&& lives(*lua, function_as_value(f))
            },
            Err(e) => not_read(*lua, kept_value(*key), error_tree(e)),
        },
{
    lua.registry_value(key)
}

/// What a hook callback may answer: the answers, by the VM and what the
/// callback is told.
pub type Acts = spec_fn(mlua::Lua, mlua::debug::Debug<'static>, Result<
    mlua::VmState,
    mlua::Error,
>) -> bool;

/// What `callback` may answer.
pub open spec fn acts_of<
    F: Fn(&mlua::Lua, &mlua::debug::Debug<'_>) -> Result<mlua::VmState, mlua::Error>,
>(callback: F) -> Acts {
    |
        lua: mlua::Lua,
        info: mlua::debug::Debug<'static>,
        answer: Result<mlua::VmState, mlua::Error>,
    |
        call_ensures(callback, (&lua, &info), answer)
}

/// How a global hook is set.
pub struct HookSet {
    pub lua: mlua::Lua,
    /// When the callback is called.
    pub triggers: Triggers,
    /// What the callback may answer.
    pub acts: Acts,
}

/// The global hook of a VM, as the library set it last (the host may set
/// another one over it).  Nothing is kept at run time; [`set_global_hook`]
/// changes it, and nothing else can.
pub struct HookSlot {
    set: Ghost<Option<HookSet>>,
}

impl HookSlot {
    /// How the hook was set last, `None` if it never was.
    pub closed spec fn set_to(&self) -> Option<HookSet> {
        self.set@
    }

    /// The hook was not set yet.  Like a log ([`Calls::new`]), this comes
    /// from the host.
    pub fn new(_vm: mlua::Lua) -> (r: Self)
        ensures
            r.set_to() is None,
    {
        HookSlot { set: Ghost(None) }
    }
}

/// `Lua::set_global_hook`: from now on `callback` is called as `t` says, in
/// the running coroutine and in those created later.  Does not fail: unlike
/// the hook of one coroutine, this one takes no room in the VM.
#[verifier::external_body]
#[allow(unused_variables)]
pub(crate) fn set_global_hook<F>(
    lua: &mlua::Lua,
    t: &Triggers,
    callback: F,
    slot: &mut HookSlot,
) -> (r: Result<(), mlua::Error>) where
    F: Fn(&mlua::Lua, &mlua::debug::Debug<'_>) -> Result<mlua::VmState, mlua::Error> + 'static,

    ensures
        r is Ok,
        final(slot).set_to() == Some(
            HookSet { lua: *lua, triggers: *t, acts: acts_of(callback) },
        ),
{
    let mut triggers = mlua::HookTriggers::new();
    triggers.on_calls = t.on_calls;
    triggers.on_returns = t.on_returns;
    triggers.every_line = t.every_line;
    triggers.every_nth_instruction = t.every_nth_instruction;
    lua.set_global_hook(triggers, callback)
}

} // verus!
