//! Calling Lua under `xpcall`, so that a raised value comes back to Rust as
//! a value.
//!
//! A raw value that reaches Rust through mlua's own error path is flattened
//! to its text.  Called through `xpcall`, the value is returned instead,
//! still in hand on the VM thread when the [`LuaFailure`] is built.
//!
//! The pieces are created once per VM, before the init closure runs:
//! `xpcall` is captured then, so an init closure that removes it does not
//! break requests.  The message handler stores the traceback and the error
//! it saw for the running coroutine; `take(err)` reads and clears that
//! entry, and tells whether the handler ran for `err`.  Lua does not call
//! the handler for a memory error or for an error in error handling; such
//! an error is classified by its message.

use crate::error::{
    failure_of, plain, reports, text_of, Fault, FailureView, IsleError, IsleErrorView, LuaErrorKind,
    LuaFailure,
};
use crate::lua::{
    self, alike, all_live, compiles, converts, error_tree, function_as_value, kept_value, lives,
    made_table, not_kept, not_read, one_more, read_global, reads_as, shows, tells, value_view,
    values_of, was_given, was_registered, was_set, were_made, Call, Calls, ErrorTree, Outcome,
    Shape, Source, ValueView,
};
use crate::text::{self, occurs, signed_decimal};
use mlua::{Function, Lua, MultiValue, RegistryKey, Table, Value};
use vstd::prelude::*;

verus! {

/// Registry field of the per-coroutine traceback table.
pub const TRACES: &'static str = "__mlua_isle_traces";

/// The root coroutine wrapper: marks the coroutine, then calls `f` under
/// `xpcall` and returns `true, ...` or `false, err, handled, traceback`.
pub const WRAP_CALL: &'static str =
    "local mark, f, xpcall, handler, take = ...
local function finish(ok, ...)
  if ok then return true, ... end
  local e = ...
  return false, e, take(e)
end
return function(...)
  mark()
  take()
  return finish(xpcall(f, handler, ...))
end";

/// The task wrapper: marks the coroutine, then calls `f` under `pcall`, so
/// that the raw error value survives.
pub const WRAP_PCALL: &'static str =
    "local mark, f = ... return function(...) mark() return pcall(f, ...) end";

/// What an init failure says when `xpcall` is not a function.
pub const NO_XPCALL: &'static str =
    "the `xpcall` global is not a function; attach the VM before sandboxing its globals";

/// How the message starts when the root wrapper returned something that it
/// does not return.
pub const UNEXPECTED: &'static str = "unexpected protected-call result: ";

/// The pieces of a VM, as kept in its registry.
pub struct Protect {
    xpcall: RegistryKey,
    handler: RegistryKey,
    take: RegistryKey,
}

/// The pieces of a VM: `xpcall`, the message handler, `take`.
pub struct Parts {
    pub xpcall: Function,
    pub handler: Function,
    pub take: Function,
}

/// The pieces can be used with the VM `lua`.
pub open spec fn parts_live(lua: Lua, parts: Parts) -> bool {
    &&& lives(lua, function_as_value(parts.xpcall))
    &&& lives(lua, function_as_value(parts.handler))
    &&& lives(lua, function_as_value(parts.take))
}

impl Protect {
    /// The captured `xpcall`.
    pub closed spec fn xpcall(&self) -> Value {
        kept_value(self.xpcall)
    }

    /// The message handler.
    pub closed spec fn handler(&self) -> Value {
        kept_value(self.handler)
    }

    /// The function that reads and clears an entry.
    pub closed spec fn take(&self) -> Value {
        kept_value(self.take)
    }
}

/// The captured `xpcall`, or the init error when `global` is not a
/// function.
pub fn captured_xpcall(global: &Value) -> (r: Result<Function, IsleError>)
    ensures
        match r {
            Ok(f) => value_view(*global) is Function && function_as_value(f) == *global,
            Err(e) => {
                &&& !(value_view(*global) is Function)
                &&& e@ == IsleErrorView::Init(plain(LuaErrorKind::External, NO_XPCALL@))
            },
        },
{
    match lua::function_of(global) {
        Some(f) => Ok(f),
        None => Err(
            IsleError::Init(LuaFailure::new(LuaErrorKind::External, NO_XPCALL.to_owned())),
        ),
    }
}

/// `traces` was created, and made weak in its keys.
pub open spec fn weak_keyed(lua: Lua, traces: Table) -> bool {
    &&& made_table(lua, Ok(traces))
    &&& exists|meta: Table|
        {
            &&& made_table(lua, Ok(meta))
            &&& was_set(meta, "__mode"@, "k"@, Ok(()))
            &&& #[trigger] was_given(traces, meta)
        }
}

/// A traceback table was put into the registry, weak in its keys.
pub open spec fn traces_made(lua: Lua) -> bool {
    exists|traces: Table| #[trigger]
        weak_keyed(lua, traces) && was_registered(lua, TRACES@, traces, Ok(()))
}

/// The traceback table could not be made, for `e`: a table could not be
/// created, it could not be made weak, or it did not get into the registry.
pub open spec fn traces_failed(lua: Lua, e: ErrorTree) -> bool {
    ||| made_table(lua, Err(e))
    ||| exists|meta: Table| #[trigger]
        made_table(lua, Ok(meta)) && was_set(meta, "__mode"@, "k"@, Err(e))
    ||| exists|traces: Table| #[trigger]
        weak_keyed(lua, traces) && was_registered(lua, TRACES@, traces, Err(e))
}

/// The global `xpcall` was read, and was not a function.
pub open spec fn no_xpcall(lua: Lua) -> bool {
    exists|v: Value| #[trigger]
        read_global(lua, "xpcall"@, Ok(v)) && !(value_view(v) is Function)
}

/// `p` holds the pieces of `lua`: its `xpcall`, and the two functions.
pub open spec fn is_made(p: Protect, lua: Lua, handler: Function, take: Function) -> bool {
    &&& value_view(p.xpcall()) is Function
    &&& read_global(lua, "xpcall"@, Ok(p.xpcall()))
    &&& p.handler() == function_as_value(handler)
    &&& p.take() == function_as_value(take)
    &&& traces_made(lua)
}

/// The pieces could not be made, for `e`: `xpcall` could not be read, there
/// is no traceback table, or a function could not be kept.
pub open spec fn install_failed(lua: Lua, handler: Function, take: Function, e: ErrorTree) -> bool {
    ||| read_global(lua, "xpcall"@, Err(e))
    ||| traces_failed(lua, e)
    ||| exists|f: Value| #[trigger] read_global(lua, "xpcall"@, Ok(f)) && not_kept(lua, f, e)
    ||| not_kept(lua, function_as_value(handler), e)
    ||| not_kept(lua, function_as_value(take), e)
}

/// `e` is the error of an installation: that `xpcall` is not a function, or
/// what failed in it.
pub open spec fn is_install_error(
    lua: Lua,
    handler: Function,
    take: Function,
    e: IsleErrorView,
) -> bool {
    ||| no_xpcall(lua) && e == IsleErrorView::Init(plain(LuaErrorKind::External, NO_XPCALL@))
    ||| exists|tree: ErrorTree, cause: ErrorTree|
        {
            &&& #[trigger] alike(tree, cause)
            &&& install_failed(lua, handler, take, cause)
            &&& e == IsleErrorView::Init(failure_of(tree))
        }
}

fn install_inner(lua: &Lua, handler: Function, take: Function) -> (r: Result<Protect, Fault>)
    requires
        lives(*lua, function_as_value(handler)),
        lives(*lua, function_as_value(take)),
    ensures
        match r {
            Ok(p) => is_made(p, *lua, handler, take),
            Err(Fault::Isle(e)) => {
                &&& no_xpcall(*lua)
                &&& e@ == IsleErrorView::Init(plain(LuaErrorKind::External, NO_XPCALL@))
            },
            Err(Fault::Lua { error, traceback }) => {
                &&& traceback is None
                &&& install_failed(*lua, handler, take, error_tree(error))
            },
        },
{
    let global: Value = match lua::global(lua, "xpcall") {
        Ok(v) => v,
        Err(e) => return Err(Fault::lua(e)),
    };
    let xpcall: Function = match captured_xpcall(&global) {
        Ok(f) => f,
        Err(e) => return Err(Fault::Isle(e)),
    };
    match make_traces(lua) {
        Ok(()) => {},
        Err(e) => return Err(Fault::lua(e)),
    }
    let xpcall: RegistryKey = match lua::keep_function(lua, xpcall) {
        Ok(k) => k,
        Err(e) => return Err(Fault::lua(e)),
    };
    let handler: RegistryKey = match lua::keep_function(lua, handler) {
        Ok(k) => k,
        Err(e) => return Err(Fault::lua(e)),
    };
    let take: RegistryKey = match lua::keep_function(lua, take) {
        Ok(k) => k,
        Err(e) => return Err(Fault::lua(e)),
    };
    Ok(Protect { xpcall, handler, take })
}

/// Create the traceback table, weak in its keys, and put it in the
/// registry.
fn make_traces(lua: &Lua) -> (r: Result<(), mlua::Error>)
    ensures
        match r {
            Ok(()) => traces_made(*lua),
            Err(e) => traces_failed(*lua, error_tree(e)),
        },
{
    let traces: Table = match lua::new_table(lua) {
        Ok(t) => t,
        Err(e) => return Err(e),
    };
    let meta: Table = match lua::new_table(lua) {
        Ok(t) => t,
        Err(e) => return Err(e),
    };
    match lua::set_text(lua, &meta, "__mode", "k") {
        Ok(()) => {},
        Err(e) => return Err(e),
    }
    match lua::set_metatable(lua, &traces, meta) {
        Ok(()) => {},
        Err(e) => return Err(e),
    }
    assert(weak_keyed(*lua, traces));
    lua::set_registry(lua, TRACES, &traces)
}

/// Create the pieces of `lua`, from the two C functions.  Captures the
/// `xpcall` global, so call it before the globals are sandboxed.
///
/// A failure is a setup failure: of kind External when `xpcall` is not a
/// function, else built from the `mlua::Error`.
pub fn install(lua: &Lua, handler: Function, take: Function) -> (r: Result<Protect, IsleError>)
    requires
        lives(*lua, function_as_value(handler)),
        lives(*lua, function_as_value(take)),
    ensures
        match r {
            Ok(p) => is_made(p, *lua, handler, take),
            Err(e) => is_install_error(*lua, handler, take, e@),
        },
{
    match install_inner(lua, handler, take) {
        Ok(p) => Ok(p),
        Err(fault) => Err(fault.into_init()),
    }
}

/// The pieces of `lua`, out of its registry.
pub fn parts(lua: &Lua, protect: &Protect) -> (r: Result<Parts, Fault>)
    ensures
        match r {
            Ok(p) => {
                &&& function_as_value(p.xpcall) == protect.xpcall()
                &&& function_as_value(p.handler) == protect.handler()
                &&& function_as_value(p.take) == protect.take()
                &&& parts_live(*lua, p)
            },
            Err(fault) => {
                &&& fault matches Fault::Lua { error, traceback: None }
                &&& {
                    ||| not_read(*lua, protect.xpcall(), error_tree(error))
                    ||| not_read(*lua, protect.handler(), error_tree(error))
                    ||| not_read(*lua, protect.take(), error_tree(error))
                }
            },
        },
{
    let xpcall: Function = match lua::kept_function(lua, &protect.xpcall) {
        Ok(f) => f,
        Err(e) => return Err(Fault::lua(e)),
    };
    let handler: Function = match lua::kept_function(lua, &protect.handler) {
        Ok(f) => f,
        Err(e) => return Err(Fault::lua(e)),
    };
    let take: Function = match lua::kept_function(lua, &protect.take) {
        Ok(f) => f,
        Err(e) => return Err(Fault::lua(e)),
    };
    Ok(Parts { xpcall, handler, take })
}

/// Whether a value counts as true in Lua.
pub open spec fn truthy(v: ValueView) -> bool {
    v != ValueView::Nil && v != ValueView::Boolean(false)
}

/// The text of a value, if it is a string.
pub open spec fn string_text(v: ValueView) -> Option<Seq<char>> {
    match v {
        ValueView::Text { text, .. } => Some(text),
        _ => None,
    }
}

/// The value at `i`, `nil` beyond the end.
pub open spec fn value_at(values: Seq<Value>, i: int) -> ValueView {
    if 0 <= i < values.len() {
        value_view(values[i])
    } else {
        ValueView::Nil
    }
}

/// `trace` is the traceback in a reply of `take`: its second value, read as
/// an optional string.
pub open spec fn trace_in(reply: Seq<Value>, trace: Option<Seq<char>>) -> bool {
    if reply.len() <= 1 {
        trace is None
    } else {
        &&& reads_as(reply[1], Ok(trace))
        &&& match value_view(reply[1]) {
            ValueView::Nil => trace is None,
            ValueView::Text { text, .. } => trace == Some(text),
            ValueView::Integer(_) => trace is Some,
            ValueView::Number(_) => trace is Some,
            _ => false,
        }
    }
}

/// The traceback in a reply of `take` could not be read, with the error `e`.
pub open spec fn trace_refused(reply: Seq<Value>, e: ErrorTree) -> bool {
    &&& reply.len() > 1
    &&& reads_as(reply[1], Err(e))
    &&& !(value_view(reply[1]) is Nil)
    &&& !(value_view(reply[1]) is Text)
}

/// What `take` replied: whether the message handler ran for the error, and
/// the traceback it took.
pub fn trace_of(lua: &Lua, reply: Vec<Value>) -> (r: Result<(bool, Option<String>), mlua::Error>)
    requires
        all_live(*lua, reply@),
    ensures
        match r {
            Ok((handled, trace)) => {
                &&& handled == truthy(value_at(reply@, 0))
                &&& trace_in(reply@, text_of(trace))
            },
            Err(e) => trace_refused(reply@, error_tree(e)),
        },
{
    let handled: bool = if reply.len() > 0 {
        match lua::shape_of(&reply[0]) {
            Shape::Nil => false,
            Shape::Boolean(b) => b,
            _ => true,
        }
    } else {
        false
    };
    if reply.len() > 1 {
        match lua::optional_text(lua, lua::same_value(&reply[1])) {
            Ok(trace) => Ok((handled, trace)),
            Err(e) => Err(e),
        }
    } else {
        Ok((handled, None))
    }
}

/// `fault` is the error that a call which ended like this failed with.
pub open spec fn escaped(outcome: Outcome, fault: Fault) -> bool {
    &&& fault matches Fault::Lua { error, traceback: None }
    &&& outcome == Outcome::Failed(error_tree(error))
}

/// `fault` is the error of a call of `take` that ended like this, or of
/// reading its reply.
pub open spec fn take_failed(outcome: Outcome, fault: Fault) -> bool {
    ||| escaped(outcome, fault)
    ||| {
        &&& fault matches Fault::Lua { error, traceback: None }
        &&& outcome matches Outcome::Returned(reply)
        &&& trace_refused(reply, error_tree(error))
    }
}

/// A call of `take` that ended like this says whether the message handler
/// ran, and its traceback.
pub open spec fn take_said(outcome: Outcome, handled: bool, trace: Option<Seq<char>>) -> bool {
    &&& outcome matches Outcome::Returned(reply)
    &&& handled == truthy(value_at(reply, 0))
    &&& trace_in(reply, trace)
}

/// Call `take(err)`: whether the message handler ran for `err`, and its
/// traceback.  `err` nil only clears.
fn take_trace(lua: &Lua, take: &Function, err: Value, calls: &mut Calls) -> (r: Result<
    (bool, Option<String>),
    Fault,
>)
    requires
        lives(*lua, function_as_value(*take)),
        lives(*lua, err),
    ensures
        one_more(old(calls).made(), final(calls).made(), function_as_value(*take), seq![err]),
        match r {
            Ok((handled, trace)) => take_said(
                final(calls).made().last().outcome,
                handled,
                text_of(trace),
            ),
            Err(fault) => take_failed(final(calls).made().last().outcome, fault),
        },
{
    let mut args: Vec<Value> = Vec::new();
    args.push(err);
    assert(args@ == seq![err]);
    match lua::call_function(lua, take, lua::from_values(args), calls) {
        Ok(reply) => match trace_of(lua, lua::into_values(reply)) {
            Ok(read) => Ok(read),
            Err(e) => Err(Fault::lua(e)),
        },
        Err(e) => Err(Fault::lua(e)),
    }
}

/// The arguments of `xpcall`: the function, the handler, the function's
/// arguments.
pub fn call_args(func: Function, handler: Function, args: MultiValue) -> (r: MultiValue)
    ensures
        values_of(r) == seq![function_as_value(func), function_as_value(handler)] + values_of(args),
{
    let mut rest: Vec<Value> = lua::into_values(args);
    let mut out: Vec<Value> = Vec::new();
    out.push(lua::function_value(func));
    out.push(lua::function_value(handler));
    out.append(&mut rest);
    lua::from_values(out)
}

/// What `xpcall` returned.
pub enum CallResult {
    /// The call returned these values.
    Returned(Vec<Value>),
    /// The call raised this value.
    Raised(Value),
}

/// Tell a returned call from a raised one: `true, ...` or anything else,
/// where what was raised is the second value (`nil` if there is none).
pub fn call_result(out: MultiValue) -> (r: CallResult)
    ensures
        match r {
            CallResult::Returned(values) => {
                &&& values_of(out).len() > 0
                &&& value_view(values_of(out)[0]) == ValueView::Boolean(true)
                &&& values@ == values_of(out).skip(1)
            },
            CallResult::Raised(err) => {
                &&& value_at(values_of(out), 0) != ValueView::Boolean(true)
                &&& second(values_of(out), err)
                &&& forall|lua: Lua| #[trigger]
                    all_live(lua, values_of(out)) ==> lives(lua, err)
            },
        },
{
    let mut values: Vec<Value> = lua::into_values(out);
    if values.len() == 0 {
        return CallResult::Raised(lua::nil_value());
    }
    let first: Value = values.remove(0);
    assert(values@ == values_of(out).skip(1));
    match lua::shape_of(&first) {
        Shape::Boolean(true) => CallResult::Returned(values),
        _ => {
            if values.len() == 0 {
                CallResult::Raised(lua::nil_value())
            } else {
                CallResult::Raised(values.remove(0))
            }
        },
    }
}

/// `err` is the second of the values `out`, `nil` if there is none.
pub open spec fn second(out: Seq<Value>, err: Value) -> bool {
    &&& value_view(err) == value_at(out, 1)
    &&& out.len() > 1 ==> err == out[1]
}

/// `fault` is what the raised value `err` becomes, when the call of
/// `take(err)` ended like this.
pub open spec fn taken(outcome: Outcome, err: Value, fault: Fault) -> bool {
    ||| take_failed(outcome, fault)
    ||| exists|handled: bool, trace: Option<Seq<char>>| #[trigger]
        take_said(outcome, handled, trace) && is_fault_of(fault, err, handled, trace)
}

/// The call `c` is `take(nil)`: it clears the entry of the running
/// coroutine, so that what the handler stores next is of the call that
/// follows.
pub open spec fn clears(take: Value, c: Call) -> bool {
    &&& c.f == take
    &&& c.args.len() == 1
    &&& value_view(c.args[0]) == ValueView::Nil
}

/// `r` is what a call of `func` with `args` under `xpcall` came to, for
/// which the calls `made` were made, in this order: the entry is cleared;
/// `xpcall` is called; and what it raised, if anything, is handed to `take`.
pub open spec fn is_call(
    parts: Parts,
    func: Function,
    args: Seq<Value>,
    made: Seq<Call>,
    r: Result<MultiValue, Fault>,
) -> bool {
    let take = function_as_value(parts.take);
    &&& made.len() >= 1
    &&& clears(take, made[0])
    &&& if made.len() == 1 {
        r matches Err(fault) && take_failed(made[0].outcome, fault)
    } else {
        &&& exists|handled: bool, trace: Option<Seq<char>>| #[trigger]
            take_said(made[0].outcome, handled, trace)
        &&& made[1].f == function_as_value(parts.xpcall)
        &&& made[1].args == seq![function_as_value(func), function_as_value(parts.handler)] + args
        &&& match made[1].outcome {
            Outcome::Failed(_) => {
                &&& made.len() == 2
                &&& r matches Err(fault) && escaped(made[1].outcome, fault)
            },
            Outcome::Returned(out) => if value_at(out, 0) == ValueView::Boolean(true) {
                &&& made.len() == 2
                &&& r matches Ok(values) && values_of(values) == out.skip(1)
            } else {
                &&& made.len() == 3
                &&& made[2].f == take
                &&& made[2].args.len() == 1
                &&& second(out, made[2].args[0])
                &&& r matches Err(fault) && taken(made[2].outcome, made[2].args[0], fault)
            },
        }
    }
}

/// Call `func(args)` under `xpcall` on this thread: the values it returned,
/// or the error built from what it raised.
pub fn call(
    lua: &Lua,
    parts: &Parts,
    func: Function,
    args: MultiValue,
    calls: &mut Calls,
) -> (r: Result<MultiValue, Fault>)
    requires
        parts_live(*lua, *parts),
        lives(*lua, function_as_value(func)),
        all_live(*lua, values_of(args)),
    ensures
        exists|made: Seq<Call>| #[trigger]
            were_made(old(calls).made(), made, final(calls).made()) && is_call(
                *parts,
                func,
                values_of(args),
                made,
                r,
            ),
        r matches Ok(values) ==> all_live(*lua, values_of(values)),
{
    let ghost start = calls.made();
    let given: MultiValue = call_args(func, lua::same_function(&parts.handler), args);
    let clearing: Result<(bool, Option<String>), Fault> = take_trace(
        lua,
        &parts.take,
        lua::nil_value(),
        calls,
    );
    let ghost first = calls.made().last();
    assert(were_made(start, seq![first], calls.made())) by {
        assert(calls.made() == start + seq![first]);
    }
    match clearing {
        Ok((handled, trace)) => {
            assert(take_said(first.outcome, handled, text_of(trace)));
        },
        Err(f) => return Err(f),
    }
    let answer: Result<MultiValue, mlua::Error> = lua::call_function(
        lua,
        &parts.xpcall,
        given,
        calls,
    );
    let ghost middle = calls.made().last();
    assert(were_made(start, seq![first, middle], calls.made())) by {
        assert(calls.made() == start + seq![first, middle]);
    }
    let out: MultiValue = match answer {
        Ok(out) => out,
        Err(e) => return Err(Fault::lua(e)),
    };
    match call_result(out) {
        CallResult::Returned(values) => Ok(lua::from_values(values)),
        CallResult::Raised(err) => {
            assert(second(values_of(out), err));
            let taking: Result<(bool, Option<String>), Fault> = take_trace(
                lua,
                &parts.take,
                lua::same_value(&err),
                calls,
            );
            let ghost last = calls.made().last();
            assert(were_made(start, seq![first, middle, last], calls.made())) by {
                assert(calls.made() == start + seq![first, middle, last]);
            }
            match taking {
                Ok((handled, trace)) => {
                    assert(take_said(last.outcome, handled, text_of(trace)));
                    Err(error_from_value(lua, err, handled, trace))
                },
                Err(f) => Err(f),
            }
        },
    }
}

/// What the root wrapper returned.
pub enum RootResult {
    /// The root returned these values.
    Returned(Vec<Value>),
    /// The root raised `err`.
    Raised { err: Value, handled: bool, trace: Option<String> },
    /// Not produced by the wrapper.
    Unexpected(Option<Value>),
}

/// Tell what the root wrapper returned: `true, ...`, or
/// `false, err, handled, traceback`.
pub fn root_result(lua: &Lua, out: MultiValue) -> (r: RootResult)
    requires
        all_live(*lua, values_of(out)),
    ensures
        ({
            let v = values_of(out);
            match r {
                RootResult::Returned(values) => {
                    &&& v.len() > 0
                    &&& value_view(v[0]) == ValueView::Boolean(true)
                    &&& values@ == v.skip(1)
                },
                RootResult::Raised { err, handled, trace } => {
                    &&& v.len() > 0
                    &&& value_view(v[0]) == ValueView::Boolean(false)
                    &&& second(v, err)
                    &&& lives(*lua, err)
                    &&& handled == (value_at(v, 2) == ValueView::Boolean(true))
                    &&& text_of(trace) == string_text(value_at(v, 3))
                },
                RootResult::Unexpected(first) => {
                    &&& !(value_at(v, 0) is Boolean)
                    &&& match first {
                        Some(f) => v.len() > 0 && f == v[0],
                        None => v.len() == 0,
                    }
                },
            }
        }),
{
    let mut values: Vec<Value> = lua::into_values(out);
    if values.len() == 0 {
        return RootResult::Unexpected(None);
    }
    let first: Value = values.remove(0);
    assert(values@ == values_of(out).skip(1));
    match lua::shape_of(&first) {
        Shape::Boolean(true) => RootResult::Returned(values),
        Shape::Boolean(false) => {
            let handled: bool = values.len() > 1 && match lua::shape_of(&values[1]) {
                Shape::Boolean(b) => b,
                _ => false,
            };
            let trace: Option<String> = if values.len() > 2 {
                lua::lossy_text(lua, &values[2])
            } else {
                None
            };
            let err: Value = if values.len() > 0 {
                values.remove(0)
            } else {
                lua::nil_value()
            };
            RootResult::Raised { err, handled, trace }
        },
        _ => RootResult::Unexpected(Some(first)),
    }
}

/// `r` is what the values `v` that the root wrapper returned stand for.
pub open spec fn is_root_result(v: Seq<Value>, r: Result<MultiValue, Fault>) -> bool {
    match r {
        Ok(values) => {
            &&& value_at(v, 0) == ValueView::Boolean(true)
            &&& values_of(values) == v.skip(1)
        },
        Err(fault) => {
            &&& value_at(v, 0) != ValueView::Boolean(true)
            &&& value_at(v, 0) == ValueView::Boolean(false) ==> exists|err: Value| #[trigger]
                second(v, err) && is_fault_of(
                    fault,
                    err,
                    value_at(v, 2) == ValueView::Boolean(true),
                    string_text(value_at(v, 3)),
                )
            &&& value_at(v, 0) != ValueView::Boolean(false) ==> {
                &&& fault matches Fault::Isle(e)
                &&& exists|text: Seq<char>|
                    {
                        &&& #[trigger] first_shows(v, text)
                        &&& e@ == IsleErrorView::Lua(
                            plain(LuaErrorKind::Other, UNEXPECTED@ + text),
                        )
                    }
            }
        },
    }
}

/// `text` shows the first of the values `v`, and whether there is one.
pub open spec fn first_shows(v: Seq<Value>, text: Seq<char>) -> bool {
    if v.len() == 0 {
        text == "None"@
    } else {
        exists|shown: Seq<char>| #[trigger]
            shows(v[0], shown) && text == "Some("@ + shown + ")"@
    }
}

/// Turn what the root wrapper returned into a `Result`.
pub fn unwrap_root(lua: &Lua, out: MultiValue) -> (r: Result<MultiValue, Fault>)
    requires
        all_live(*lua, values_of(out)),
    ensures
        is_root_result(values_of(out), r),
        r matches Ok(values) ==> all_live(*lua, values_of(values)),
{
    match root_result(lua, out) {
        RootResult::Returned(values) => Ok(lua::from_values(values)),
        RootResult::Raised { err, handled, trace } => {
            Err(error_from_value(lua, err, handled, trace))
        },
        RootResult::Unexpected(first) => {
            let shown: String = match &first {
                Some(v) => {
                    let head: String = text::joined("Some(", lua::debug_text(lua, v).as_str());
                    text::joined(head.as_str(), ")")
                },
                None => "None".to_owned(),
            };
            let message: String = text::joined(UNEXPECTED, shown.as_str());
            assert(first_shows(values_of(out), shown@));
            Err(Fault::Isle(IsleError::Lua(LuaFailure::new(LuaErrorKind::Other, message))))
        },
    }
}

/// How a raised value prints.  A string that is not valid UTF-8 prints with
/// the invalid bytes replaced, and an object that Lua cannot print as
/// `Debug` shows it.
pub open spec fn prints_as(v: Value, message: Seq<char>) -> bool {
    match value_view(v) {
        ValueView::Nil => message == "nil"@,
        ValueView::Boolean(true) => message == "true"@,
        ValueView::Boolean(false) => message == "false"@,
        ValueView::Integer(n) => message == signed_decimal(n as int),
        ValueView::Number(text) => message == text,
        ValueView::Text { text, .. } => message == text,
        _ => {
            ||| tells(v, Ok(message))
            ||| (exists|e: ErrorTree| #[trigger] tells(v, Err(e))) && shows(v, message)
        },
    }
}

/// The kind of an error for which the message handler did not run, by its
/// message.
pub open spec fn unhandled_kind(message: Seq<char>) -> LuaErrorKind {
    if occurs(message, "not enough memory"@) {
        LuaErrorKind::Memory
    } else if occurs(message, "error in error handling"@) {
        LuaErrorKind::Other
    } else {
        LuaErrorKind::Runtime
    }
}

/// The failure for a raised value that prints as `message`.
pub open spec fn raised_failure(
    message: Seq<char>,
    handled: bool,
    trace: Option<Seq<char>>,
    value: Option<serde_json::Value>,
) -> FailureView {
    if handled {
        FailureView { kind: LuaErrorKind::Runtime, message, traceback: trace, value }
    } else {
        plain(unhandled_kind(message), message)
    }
}

/// `fault` is what a raised value becomes: a Rust error is carried on, with
/// `trace` for a missing traceback; any other value is a failure.
pub open spec fn is_fault_of(
    fault: Fault,
    v: Value,
    handled: bool,
    trace: Option<Seq<char>>,
) -> bool {
    match value_view(v) {
        ValueView::Error(tree) => {
            &&& fault matches Fault::Lua { error, traceback }
            &&& error_tree(error) == tree
            &&& text_of(traceback) == trace
        },
        _ => {
            &&& fault matches Fault::Isle(e)
            &&& e@ matches IsleErrorView::Lua(f)
            &&& prints_as(v, f.message)
            &&& f == raised_failure(f.message, handled, trace, f.value)
            &&& handled ==> converts(v, f.value)
        },
    }
}

/// A raised value as Lua prints it.
fn message_of(lua: &Lua, value: &Value) -> (r: String)
    requires
        lives(*lua, *value),
    ensures
        prints_as(*value, r@),
{
    match lua::to_text(lua, value) {
        Ok(s) => s,
        Err(_) => match lua::lossy_text(lua, value) {
            Some(s) => s,
            None => lua::debug_text(lua, value),
        },
    }
}

/// The failure for a raised value that prints as `message` and is `value`
/// in JSON.
///
/// An error for which the message handler did not run is a memory error or
/// an error in error handling: it is told by its message, and has no
/// traceback and no value.
pub fn raised(
    message: String,
    handled: bool,
    trace: Option<String>,
    value: Option<serde_json::Value>,
) -> (r: LuaFailure)
    ensures
        r@ == raised_failure(message@, handled, text_of(trace), value),
{
    if !handled {
        let kind: LuaErrorKind = if text::contains(message.as_str(), "not enough memory") {
            LuaErrorKind::Memory
        } else if text::contains(message.as_str(), "error in error handling") {
            LuaErrorKind::Other
        } else {
            LuaErrorKind::Runtime
        };
        return LuaFailure::new(kind, message);
    }
    let mut f: LuaFailure = LuaFailure::new(LuaErrorKind::Runtime, message);
    f.traceback = trace;
    f.value = value;
    f
}

/// Build the error for a raised Lua value, on the VM thread.
pub fn error_from_value(lua: &Lua, value: Value, handled: bool, trace: Option<String>) -> (r: Fault)
    requires
        lives(*lua, value),
    ensures
        is_fault_of(r, value, handled, text_of(trace)),
{
    match lua::error_of(&value) {
        Some(error) => Fault::Lua { error, traceback: trace },
        None => {
            let message: String = message_of(lua, &value);
            let json: Option<serde_json::Value> = if handled {
                lua::to_json(lua, value)
            } else {
                None
            };
            Fault::Isle(IsleError::Lua(raised(message, handled, trace, json)))
        },
    }
}

/// How a Lua body is wrapped by [`lua_body`].
pub enum Wrap {
    /// A root: under `xpcall` with the traceback handler.
    Call(Parts),
    /// A task: `false, err` is the task's result.
    PCall,
}

/// The chunk that wraps a body.
pub open spec fn wrapper_source(wrap: Wrap) -> Source {
    match wrap {
        Wrap::Call(_) => Source { code: WRAP_CALL@, name: Some("=mlua_isle.root"@) },
        Wrap::PCall => Source { code: WRAP_PCALL@, name: None },
    }
}

/// The arguments of the chunk that wraps a body.
pub open spec fn wrapper_args(wrap: Wrap, func: Function, mark: Function) -> Seq<Value> {
    match wrap {
        Wrap::Call(parts) => seq![
            function_as_value(mark),
            function_as_value(func),
            function_as_value(parts.xpcall),
            function_as_value(parts.handler),
            function_as_value(parts.take),
        ],
        Wrap::PCall => seq![function_as_value(mark), function_as_value(func)],
    }
}

/// The chunk that wraps a body, compiled, and its arguments.
pub fn body_chunk(lua: &Lua, wrap: Wrap, func: Function, mark: Function) -> (r: Result<
    (Function, MultiValue),
    Fault,
>)
    ensures
        match r {
            Ok((chunk, args)) => {
                &&& lives(*lua, function_as_value(chunk))
                &&& compiles(wrapper_source(wrap), Ok(chunk))
                &&& values_of(args) == wrapper_args(wrap, func, mark)
            },
            Err(fault) => {
                &&& fault matches Fault::Lua { error, traceback: None }
                &&& compiles(wrapper_source(wrap), Err(error_tree(error)))
            },
        },
{
    let mut args: Vec<Value> = Vec::new();
    args.push(lua::function_value(mark));
    args.push(lua::function_value(func));
    let chunk: Result<Function, mlua::Error> = match wrap {
        Wrap::Call(parts) => {
            args.push(lua::function_value(parts.xpcall));
            args.push(lua::function_value(parts.handler));
            args.push(lua::function_value(parts.take));
            lua::compile(lua, WRAP_CALL, "=mlua_isle.root")
        },
        Wrap::PCall => lua::compile_unnamed(lua, WRAP_PCALL),
    };
    match chunk {
        Ok(f) => Ok((f, lua::from_values(args))),
        Err(e) => Err(Fault::lua(e)),
    }
}

/// `r` is the error of a chunk `source` that does not compile, or what the
/// one call in `made` came to: of the compiled chunk, with `args`.
pub open spec fn is_body(
    source: Source,
    args: Seq<Value>,
    made: Seq<Call>,
    r: Result<Function, Fault>,
) -> bool {
    ||| {
        &&& made.len() == 0
        &&& r matches Err(Fault::Lua { error, traceback: None })
        &&& compiles(source, Err(error_tree(error)))
    }
    ||| {
        &&& made.len() == 1
        &&& was_called(source, args, made[0])
        &&& match r {
            Ok(f) => {
                &&& made[0].outcome matches Outcome::Returned(out)
                &&& out.len() > 0
                &&& out[0] == function_as_value(f)
            },
            Err(fault) => escaped(made[0].outcome, fault),
        }
    }
}

/// The call `c` is of the chunk `source`, compiled, with `args`.
pub open spec fn was_called(source: Source, args: Seq<Value>, c: Call) -> bool {
    &&& c.args == args
    &&& exists|chunk: Function| #[trigger]
        compiles(source, Ok(chunk)) && c.f == function_as_value(chunk)
}

/// The body of a coroutine: `func` wrapped per `wrap`, which calls `mark`
/// once the coroutine has started.
pub fn lua_body(lua: &Lua, wrap: Wrap, func: Function, mark: Function, calls: &mut Calls) -> (r:
    Result<Function, Fault>)
    requires
        all_live(*lua, wrapper_args(wrap, func, mark)),
    ensures
        exists|made: Seq<Call>| #[trigger]
            were_made(old(calls).made(), made, final(calls).made()) && is_body(
                wrapper_source(wrap),
                wrapper_args(wrap, func, mark),
                made,
                r,
            ),
        r matches Ok(f) ==> lives(*lua, function_as_value(f)),
{
    let ghost start = calls.made();
    match body_chunk(lua, wrap, func, mark) {
        Ok((chunk, args)) => {
            let answer: Result<Function, mlua::Error> = lua::call_for_function(
                lua,
                &chunk,
                args,
                calls,
            );
            proof {
                lua::lemma_one_more(start, calls.made(), function_as_value(chunk), values_of(args));
            }
            match answer {
                Ok(f) => Ok(f),
                Err(e) => Err(Fault::lua(e)),
            }
        },
        Err(f) => {
            assert(were_made(start, Seq::empty(), calls.made()));
            Err(f)
        },
    }
}

/// The result of a root: [`IsleError::Cancelled`] when its token was
/// cancelled or its body was dropped, whatever it returned; else what the
/// root wrapper returned, or the error that escaped it.
pub fn root_outcome(
    lua: &Lua,
    cancelled: bool,
    out: Option<Result<MultiValue, mlua::Error>>,
) -> (r: Result<MultiValue, Fault>)
    requires
        out matches Some(Ok(values)) ==> all_live(*lua, values_of(values)),
    ensures
        if cancelled || out is None {
            r matches Err(Fault::Isle(e)) && e@ == IsleErrorView::Cancelled
        } else {
            match out->0 {
                Err(e) => r == Err::<MultiValue, Fault>(
                    Fault::Lua { error: e, traceback: None },
                ),
                Ok(values) => is_root_result(values_of(values), r),
            }
        },
{
    if cancelled {
        return Err(Fault::Isle(IsleError::Cancelled));
    }
    match out {
        Some(Ok(values)) => unwrap_root(lua, values),
        Some(Err(e)) => Err(Fault::lua(e)),
        None => Err(Fault::Isle(IsleError::Cancelled)),
    }
}

/// What is captured as `xpcall` is the global itself, and the capture fails
/// exactly if that is not a function.
pub proof fn law_xpcall_is_captured_as_it_is(global: Value)
    ensures
        forall|r: Result<Function, IsleError>| #[trigger]
            call_ensures(captured_xpcall, (&global,), r) ==> {
                &&& r is Ok <==> value_view(global) is Function
                &&& r matches Ok(f) ==> function_as_value(f) == global
                &&& r matches Err(e) ==> (e@ matches IsleErrorView::Init(f) && {
                    &&& f.kind == LuaErrorKind::External
                    &&& f.message
                        == "the `xpcall` global is not a function; attach the VM before sandboxing its globals"@
                    &&& f.traceback is None && f.value is None
                })
            },
{
}

/// `p` holds the `xpcall` of `lua`, which is a function, the handler and
/// `take`, each in its place.
pub open spec fn holds_the_pieces(p: Protect, lua: Lua, handler: Function, take: Function) -> bool {
    &&& value_view(p.xpcall()) is Function
    &&& read_global(lua, "xpcall"@, Ok(p.xpcall()))
    &&& p.handler() == function_as_value(handler)
    &&& p.take() == function_as_value(take)
}

/// The pieces of a VM are its own `xpcall`, read as a function, and the two
/// functions that are given, and its registry has a table for tracebacks
/// whose keys are weak.  Where one of these steps fails, that is what is
/// reported, as a failure of the setup.
pub proof fn law_the_pieces_are_those_of_the_vm(lua: Lua, handler: Function, take: Function)
    ensures
        forall|r: Result<Protect, IsleError>| #[trigger]
            call_ensures(install, (&lua, handler, take), r) ==> {
                &&& r matches Ok(p) ==> {
                    &&& holds_the_pieces(p, lua, handler, take)
                    &&& exists|traces: Table, meta: Table|
                        {
                            &&& made_table(lua, Ok(traces))
                            &&& made_table(lua, Ok(meta))
                            &&& was_set(meta, "__mode"@, "k"@, Ok(()))
                            &&& #[trigger] was_given(traces, meta)
                            &&& was_registered(lua, "__mlua_isle_traces"@, traces, Ok(()))
                        }
                }
                &&& r matches Err(e) ==> e@ is Init
                &&& r matches Err(e) ==> {
                    ||| e@->Init_0 == (FailureView {
                        kind: LuaErrorKind::External,
                        message:
                            "the `xpcall` global is not a function; attach the VM before sandboxing its globals"@,
                        traceback: None,
                        value: None,
                    }) && exists|v: Value| #[trigger]
                        read_global(lua, "xpcall"@, Ok(v)) && !(value_view(v) is Function)
                    ||| exists|cause: ErrorTree| #[trigger]
                        reports(cause, e@->Init_0) && {
                            ||| read_global(lua, "xpcall"@, Err(cause))
                            ||| traces_failed(lua, cause)
                            ||| exists|f: Value| #[trigger]
                                read_global(lua, "xpcall"@, Ok(f)) && not_kept(lua, f, cause)
                            ||| not_kept(lua, function_as_value(handler), cause)
                            ||| not_kept(lua, function_as_value(take), cause)
                        }
                }
            },
{
    assert forall|r: Result<Protect, IsleError>| #[trigger]
        call_ensures(install, (&lua, handler, take), r) && r is Ok implies exists|
        traces: Table,
        meta: Table,
    |
        {
            &&& made_table(lua, Ok(traces))
            &&& made_table(lua, Ok(meta))
            &&& was_set(meta, "__mode"@, "k"@, Ok(()))
            &&& #[trigger] was_given(traces, meta)
            &&& was_registered(lua, "__mlua_isle_traces"@, traces, Ok(()))
        } by {
        let traces = choose|traces: Table| #[trigger]
            weak_keyed(lua, traces) && was_registered(lua, TRACES@, traces, Ok(()));
        let meta = choose|meta: Table|
            {
                &&& made_table(lua, Ok(meta))
                &&& was_set(meta, "__mode"@, "k"@, Ok(()))
                &&& #[trigger] was_given(traces, meta)
            };
        assert(was_given(traces, meta));
    }
    assert forall|tree: ErrorTree, cause: ErrorTree| #[trigger]
        alike(tree, cause) implies crate::error::reports(cause, failure_of(tree)) by {
        crate::error::lemma_reports(tree, cause);
    }
}

/// The pieces that are read are those that were kept, each in its place.
pub proof fn law_the_kept_pieces_are_read(lua: Lua, protect: Protect)
    ensures
        forall|r: Result<Parts, Fault>| #[trigger]
            call_ensures(parts, (&lua, &protect), r) ==> {
                &&& r matches Ok(p) ==> {
                    &&& function_as_value(p.xpcall) == protect.xpcall()
                    &&& function_as_value(p.handler) == protect.handler()
                    &&& function_as_value(p.take) == protect.take()
                }
                &&& r matches Err(fault) ==> (fault matches Fault::Lua { error, traceback: None } && {
                    ||| not_read(lua, protect.xpcall(), error_tree(error))
                    ||| not_read(lua, protect.handler(), error_tree(error))
                    ||| not_read(lua, protect.take(), error_tree(error))
                })
            },
{
}

/// In a reply of `take` the first value tells whether the handler ran: it is
/// there, and neither `nil` nor `false`.  The second is the traceback: a
/// string is read as it is, none or `nil` as no traceback, and what is
/// neither `nil`, a string nor a number is refused.
pub proof fn law_a_reply_tells_the_traceback(lua: Lua, reply: Vec<Value>)
    ensures
        forall|r: Result<(bool, Option<String>), mlua::Error>| #[trigger]
            call_ensures(trace_of, (&lua, reply), r) ==> {
                &&& r matches Ok((handled, trace)) ==> {
                    &&& handled <==> {
                        &&& reply@.len() > 0
                        &&& value_view(reply@[0]) != ValueView::Nil
                        &&& value_view(reply@[0]) != ValueView::Boolean(false)
                    }
                    &&& reply@.len() <= 1 ==> trace is None
                    &&& reply@.len() > 1 ==> {
                        &&& trace is None <==> value_view(reply@[1]) is Nil
                        &&& value_view(reply@[1]) matches ValueView::Text { text, .. }
                            ==> trace matches Some(t) && t@ == text
                    }
                }
                &&& reply@.len() <= 1 ==> r is Ok
                &&& reply@.len() > 1 ==> {
                    &&& value_view(reply@[1]) is Nil || value_view(reply@[1]) is Text ==> r is Ok
                    &&& r is Ok ==> {
                        ||| value_view(reply@[1]) is Nil
                        ||| value_view(reply@[1]) is Text
                        ||| value_view(reply@[1]) is Integer
                        ||| value_view(reply@[1]) is Number
                    }
                }
            },
{
}

/// `xpcall` is called with the function, the handler and the function's own
/// arguments in their order.
pub proof fn law_xpcall_takes_the_function_and_the_handler(
    func: Function,
    handler: Function,
    args: MultiValue,
    i: int,
)
    requires
        0 <= i < values_of(args).len(),
    ensures
        forall|r: MultiValue| #[trigger]
            call_ensures(call_args, (func, handler, args), r) ==> {
                &&& values_of(r).len() == values_of(args).len() + 2
                &&& values_of(r)[0] == function_as_value(func)
                &&& values_of(r)[1] == function_as_value(handler)
                &&& values_of(r)[i + 2] == values_of(args)[i]
            },
{
}

/// A call returned exactly if the first value is `true`, and then with the
/// rest of them; else it raised the second, or `nil` if there is none.
pub proof fn law_true_tells_a_returned_call(out: MultiValue)
    ensures
        forall|r: CallResult| #[trigger]
            call_ensures(call_result, (out,), r) ==> {
                &&& r is Returned <==> values_of(out).len() > 0 && value_view(values_of(out)[0])
                    == ValueView::Boolean(true)
                &&& r matches CallResult::Returned(values) ==> values@ == values_of(out).skip(1)
                &&& r matches CallResult::Raised(err) ==> {
                    &&& values_of(out).len() > 1 ==> err == values_of(out)[1]
                    &&& values_of(out).len() <= 1 ==> value_view(err) == ValueView::Nil
                }
            },
{
}

/// A raised error is carried on as the error it is, with the traceback that
/// was taken.  Any other raised value is a failure with the value's text:
/// where the handler ran, a runtime failure with the traceback and the value;
/// where it did not, one without either, whose kind is told by its message.
pub proof fn law_a_raised_value_becomes_its_error(
    lua: Lua,
    value: Value,
    handled: bool,
    trace: Option<String>,
)
    ensures
        forall|r: Fault| #[trigger]
            call_ensures(error_from_value, (&lua, value, handled, trace), r) ==> {
                &&& value_view(value) matches ValueView::Error(tree) ==> (
                r matches Fault::Lua { error, traceback } && {
                    &&& error_tree(error) == tree
                    &&& traceback is Some <==> trace is Some
                    &&& traceback matches Some(t) ==> t@ == trace->0@
                })
                &&& !(value_view(value) is Error) ==> (r matches Fault::Isle(e)
                    && e@ matches IsleErrorView::Lua(f) && {
                    &&& value_view(value) matches ValueView::Text { text, .. } ==> f.message == text
                    &&& value_view(value) matches ValueView::Number(text) ==> f.message == text
                    &&& value_view(value) matches ValueView::Integer(n) ==> f.message
                        == signed_decimal(n as int)
                    &&& value_view(value) is Nil ==> f.message == "nil"@
                    &&& value_view(value) matches ValueView::Boolean(b) ==> f.message == if b {
                        "true"@
                    } else {
                        "false"@
                    }
                    &&& {
                        ||| value_view(value) is Table
                        ||| value_view(value) is Function
                        ||| value_view(value) is Other
                    } ==> {
                        ||| tells(value, Ok(f.message))
                        ||| shows(value, f.message) && exists|e: ErrorTree| #[trigger]
                            tells(value, Err(e))
                    }
                    &&& handled ==> {
                        &&& f.kind == LuaErrorKind::Runtime
                        &&& f.traceback == (match trace {
                            Some(t) => Some(t@),
                            None => None,
                        })
                        &&& converts(value, f.value)
                    }
                    &&& !handled ==> {
                        &&& f.traceback is None && f.value is None
                        &&& f.kind == LuaErrorKind::Memory <==> occurs(
                            f.message,
                            "not enough memory"@,
                        )
                        &&& f.kind == LuaErrorKind::Other <==> !occurs(
                            f.message,
                            "not enough memory"@,
                        ) && occurs(f.message, "error in error handling"@)
                        &&& f.kind == LuaErrorKind::Memory || f.kind == LuaErrorKind::Other
                            || f.kind == LuaErrorKind::Runtime
                    }
                })
            },
{
}

/// The failure for a raised value keeps its text.  Where the handler ran, it
/// is a runtime failure that keeps the traceback and the value too; where it
/// did not, it has neither, and its kind is told by the text.
pub proof fn law_a_raised_failure_is_told_by_its_message(
    message: String,
    handled: bool,
    trace: Option<String>,
    value: Option<serde_json::Value>,
)
    ensures
        forall|r: LuaFailure| #[trigger]
            call_ensures(raised, (message, handled, trace, value), r) ==> {
                &&& r@.message == message@
                &&& handled ==> {
                    &&& r@.kind == LuaErrorKind::Runtime
                    &&& r@.traceback is Some <==> trace is Some
                    &&& trace matches Some(t) ==> r@.traceback == Some(t@)
                    &&& r@.value == value
                }
                &&& !handled ==> {
                    &&& r@.traceback is None && r@.value is None
                    &&& r@.kind == LuaErrorKind::Memory <==> occurs(message@, "not enough memory"@)
                    &&& r@.kind == LuaErrorKind::Other <==> !occurs(
                        message@,
                        "not enough memory"@,
                    ) && occurs(message@, "error in error handling"@)
                    &&& r@.kind == LuaErrorKind::Memory || r@.kind == LuaErrorKind::Other || r@.kind
                        == LuaErrorKind::Runtime
                }
            },
{
}

/// A protected call first clears what the handler stored, with `take(nil)`;
/// then it calls `xpcall`, once, with the function, the handler and the
/// arguments; and it hands what that raised, if anything, to `take`.  It
/// stops at the first of these calls that fails, with its error.  It gives
/// what the function returned, or else the error of what it raised.
#[verifier::rlimit(60)]
pub proof fn law_a_protected_call_clears_then_calls_then_takes(
    lua: Lua,
    parts: Parts,
    func: Function,
    args: MultiValue,
)
    ensures
        forall|calls: &mut Calls, r: Result<MultiValue, Fault>| #[trigger]
            call_ensures(call, (&lua, &parts, func, args, calls), r) ==> {
                let before = calls.made();
                let after = final(calls).made();
                let n = before.len() as int;
                &&& after.len() >= n + 1
                &&& after.take(n) == before
                &&& after[n].f == function_as_value(parts.take)
                &&& after[n].args.len() == 1
                &&& value_view(after[n].args[0]) == ValueView::Nil
                &&& after[n].outcome matches Outcome::Failed(tree) ==> {
                    &&& after.len() == n + 1
                    &&& r matches Err(Fault::Lua { error, traceback: None })
                    &&& error_tree(error) == tree
                }
                &&& after.len() == n + 1 ==> r is Err
                &&& after[n].outcome matches Outcome::Returned(reply) ==> (reply.len() <= 1
                    || value_view(reply[1]) is Nil || value_view(reply[1]) is Text ==> after.len()
                    >= n + 2)
                &&& after.len() >= n + 2 ==> {
                    &&& after[n + 1].f == function_as_value(parts.xpcall)
                    &&& after[n + 1].args == seq![
                        function_as_value(func),
                        function_as_value(parts.handler),
                    ] + values_of(args)
                    &&& match after[n + 1].outcome {
                        Outcome::Failed(tree) => {
                            &&& after.len() == n + 2
                            &&& r matches Err(Fault::Lua { error, traceback: None })
                            &&& error_tree(error) == tree
                        },
                        Outcome::Returned(out) => {
                            &&& out.len() > 0 && value_view(out[0]) == ValueView::Boolean(true) ==> {
                                &&& after.len() == n + 2
                                &&& r matches Ok(values) && values_of(values) == out.skip(1)
                            }
                            &&& !(out.len() > 0 && value_view(out[0]) == ValueView::Boolean(true))
                                ==> {
                                &&& after.len() == n + 3
                                &&& after[n + 2].f == function_as_value(parts.take)
                                &&& after[n + 2].args.len() == 1
                                &&& out.len() > 1 ==> after[n + 2].args[0] == out[1]
                                &&& out.len() <= 1 ==> value_view(after[n + 2].args[0])
                                    == ValueView::Nil
                                &&& r is Err
                                &&& after[n + 2].outcome matches Outcome::Failed(tree) ==> {
                                    &&& r matches Err(Fault::Lua { error, traceback: None })
                                    &&& error_tree(error) == tree
                                }
                                &&& after[n + 2].outcome matches Outcome::Returned(reply) ==> (
                                reply.len() <= 1 || value_view(reply[1]) is Nil || value_view(
                                    reply[1]) is Text ==> is_fault_of(
                                    r->Err_0,
                                    after[n + 2].args[0],
                                    reply.len() > 0 && value_view(reply[0]) != ValueView::Nil
                                        && value_view(reply[0]) != ValueView::Boolean(false),
                                    if reply.len() > 1 && value_view(reply[1]) is Text {
                                        Some(value_view(reply[1])->Text_text)
                                    } else {
                                        None
                                    },
                                ))
                            }
                        },
                    }
                }
            },
{
}

/// What the root wrapper returned is told by its first value: `true` stands
/// before the values that the root returned, `false` before what it raised,
/// whether the handler ran and the traceback.  Anything else is unexpected.
pub proof fn law_the_first_value_tells_how_a_root_ended(lua: Lua, out: MultiValue)
    ensures
        forall|r: RootResult| #[trigger]
            call_ensures(root_result, (&lua, out), r) ==> {
                let v = values_of(out);
                &&& r is Returned <==> v.len() > 0 && value_view(v[0]) == ValueView::Boolean(true)
                &&& r is Raised <==> v.len() > 0 && value_view(v[0]) == ValueView::Boolean(false)
                &&& r matches RootResult::Returned(values) ==> values@ == v.skip(1)
                &&& r matches RootResult::Raised { err, handled, trace } ==> {
                    &&& v.len() > 1 ==> err == v[1]
                    &&& v.len() <= 1 ==> value_view(err) == ValueView::Nil
                    &&& handled <==> v.len() > 2 && value_view(v[2]) == ValueView::Boolean(true)
                    &&& trace is Some <==> v.len() > 3 && value_view(v[3]) is Text
                    &&& trace matches Some(t) ==> t@ == value_view(v[3])->Text_text
                }
                &&& r matches RootResult::Unexpected(first) ==> {
                    &&& first is Some <==> v.len() > 0
                    &&& first matches Some(f) ==> f == v[0]
                }
            },
{
}

/// A root that returned gives its values, one that raised the error of what
/// it raised, and what the wrapper does not return is reported as such.  A
/// root whose token was cancelled, or whose body was dropped, is cancelled
/// whatever it returned; an error that escaped the wrapper is carried on.
pub proof fn law_a_root_gives_what_its_wrapper_returned(
    lua: Lua,
    out: MultiValue,
    cancelled: bool,
    escaped: mlua::Error,
)
    ensures
        forall|r: Result<MultiValue, Fault>| #[trigger]
            call_ensures(unwrap_root, (&lua, out), r) ==> root_gives(values_of(out), r),
        forall|r: Result<MultiValue, Fault>| #[trigger]
            call_ensures(
                root_outcome,
                (&lua, cancelled, Some(Ok::<MultiValue, mlua::Error>(out))),
                r,
            ) ==> {
                &&& cancelled ==> (r matches Err(Fault::Isle(e)) && e@
                    == IsleErrorView::Cancelled)
                &&& !cancelled ==> root_gives(values_of(out), r)
            },
        forall|r: Result<MultiValue, Fault>| #[trigger]
            call_ensures(
                root_outcome,
                (&lua, cancelled, Some(Err::<MultiValue, mlua::Error>(escaped))),
                r,
            ) ==> {
                &&& cancelled ==> (r matches Err(Fault::Isle(e)) && e@
                    == IsleErrorView::Cancelled)
                &&& !cancelled ==> r == Err::<MultiValue, Fault>(
                    Fault::Lua { error: escaped, traceback: None },
                )
            },
        forall|r: Result<MultiValue, Fault>| #[trigger]
            call_ensures(
                root_outcome,
                (&lua, cancelled, None::<Result<MultiValue, mlua::Error>>),
                r,
            ) ==> (r matches Err(Fault::Isle(e)) && e@ == IsleErrorView::Cancelled),
{
    assert forall|r: Result<MultiValue, Fault>|
        is_root_result(values_of(out), r) implies #[trigger] root_gives(values_of(out), r) by {
        let v = values_of(out);
        if value_at(v, 0) == ValueView::Boolean(false) {
            let err = choose|err: Value| #[trigger]
                second(v, err) && is_fault_of(
                    r->Err_0,
                    err,
                    value_at(v, 2) == ValueView::Boolean(true),
                    string_text(value_at(v, 3)),
                );
            let handled = v.len() > 2 && value_view(v[2]) == ValueView::Boolean(true);
            let trace = if v.len() > 3 && value_view(v[3]) is Text {
                Some(value_view(v[3])->Text_text)
            } else {
                None
            };
            assert(is_fault_of(r->Err_0, err, handled, trace));
        }
    }
}

/// `r` is what a root gives whose wrapper returned the values `v`.
pub open spec fn root_gives(v: Seq<Value>, r: Result<MultiValue, Fault>) -> bool {
    &&& r is Ok <==> v.len() > 0 && value_view(v[0]) == ValueView::Boolean(true)
    &&& r matches Ok(values) ==> values_of(values) == v.skip(1)
    &&& v.len() > 0 && value_view(v[0]) == ValueView::Boolean(false) ==> exists|err: Value|
        is_fault_of(
            r->Err_0,
            err,
            v.len() > 2 && value_view(v[2]) == ValueView::Boolean(true),
            if v.len() > 3 && value_view(v[3]) is Text {
                Some(value_view(v[3])->Text_text)
            } else {
                None
            },
        ) && (v.len() > 1 ==> err == v[1]) && (v.len() <= 1 ==> #[trigger] value_view(err)
            == ValueView::Nil)
    &&& v.len() == 0 ==> {
        &&& r matches Err(Fault::Isle(e))
        &&& e@ matches IsleErrorView::Lua(f)
        &&& f.kind == LuaErrorKind::Other
        &&& f.message == "unexpected protected-call result: "@ + "None"@
        &&& f.traceback is None && f.value is None
    }
    &&& v.len() > 0 && !(value_view(v[0]) is Boolean) ==> {
        &&& r matches Err(Fault::Isle(e))
        &&& e@ matches IsleErrorView::Lua(f)
        &&& f.kind == LuaErrorKind::Other
        &&& f.traceback is None && f.value is None
        &&& exists|shown: Seq<char>| #[trigger]
            shows(v[0], shown) && f.message == "unexpected protected-call result: "@ + ("Some("@
                + shown + ")"@)
    }
}

/// A root is wrapped by the root wrapper, which is given what marks the
/// coroutine, the function and the pieces; a task by its own wrapper, which
/// is given the first two.
pub proof fn law_a_body_is_wrapped_for_its_use(lua: Lua, wrap: Wrap, func: Function, mark: Function)
    ensures
        forall|r: Result<(Function, MultiValue), Fault>| #[trigger]
            call_ensures(body_chunk, (&lua, wrap, func, mark), r) ==> {
                &&& r matches Ok((chunk, args)) ==> match wrap {
                    Wrap::Call(parts) => {
                        &&& compiles(
                            Source { code: WRAP_CALL@, name: Some("=mlua_isle.root"@) },
                            Ok(chunk),
                        )
                        &&& values_of(args) == seq![
                            function_as_value(mark),
                            function_as_value(func),
                            function_as_value(parts.xpcall),
                            function_as_value(parts.handler),
                            function_as_value(parts.take),
                        ]
                    },
                    Wrap::PCall => {
                        &&& compiles(Source { code: WRAP_PCALL@, name: None }, Ok(chunk))
                        &&& values_of(args) == seq![
                            function_as_value(mark),
                            function_as_value(func),
                        ]
                    },
                }
                &&& r matches Err(fault) ==> (fault matches Fault::Lua { error, traceback: None }
                    && compiles(
                    Source {
                        code: if wrap is PCall {
                            WRAP_PCALL@
                        } else {
                            WRAP_CALL@
                        },
                        name: if wrap is PCall {
                            None
                        } else {
                            Some("=mlua_isle.root"@)
                        },
                    },
                    Err(error_tree(error)),
                ))
            },
{
}

/// The body of a coroutine is what its wrapper returned, called once; where
/// the wrapper does not compile nothing is called, and where the call fails
/// its error is carried on.
pub proof fn law_a_body_is_what_its_wrapper_returns(
    lua: Lua,
    wrap: Wrap,
    func: Function,
    mark: Function,
)
    ensures
        forall|calls: &mut Calls, r: Result<Function, Fault>| #[trigger]
            call_ensures(lua_body, (&lua, wrap, func, mark, calls), r) ==> {
                let before = calls.made();
                let after = final(calls).made();
                let n = before.len() as int;
                &&& after.len() == n || after.len() == n + 1
                &&& after.take(n) == before
                &&& after.len() == n ==> (r matches Err(Fault::Lua { error, traceback: None })
                    && compiles(wrapper_source(wrap), Err(error_tree(error))))
                &&& after.len() == n + 1 ==> {
                    &&& after[n].args == wrapper_args(wrap, func, mark)
                    &&& r matches Ok(f) ==> (after[n].outcome matches Outcome::Returned(out)
                        && out.len() > 0 && out[0] == function_as_value(f))
                    &&& r matches Err(fault) ==> (after[n].outcome matches Outcome::Failed(tree)
                        && fault matches Fault::Lua { error, traceback: None } && error_tree(error)
                        == tree)
                }
            },
{
}

} // verus!
