//! Running a request on the VM thread.

use crate::error::{Fault, IsleError, IsleErrorView};
use crate::lua::{
    self, all_live, compiles, error_tree, function_as_value, lives, made_text, not_a_function,
    read_global, reads, tells, value_view, values_of, were_made, Call, Calls, ErrorTree, Outcome,
    Shape, Source, ValueView,
};
use crate::protect::{self, escaped, is_call, parts_live, Parts};
use crate::text::{self, signed_decimal};
use mlua::{Function, Lua, MultiValue, Value};
use vstd::prelude::*;

verus! {

/// Chunk name of a sync `eval` (error positions read `eval:<line>:`).
pub const EVAL_CHUNK: &'static str = "=eval";

/// Chunk name of a coroutine `eval`.
pub const COROUTINE_CHUNK: &'static str = "=coroutine_eval";

/// `code` as an expression: what it is compiled as first.
pub open spec fn expression(code: Seq<char>, name: Seq<char>) -> Source {
    Source { code: "return "@ + code, name: Some(name) }
}

/// `code` as a block: what it is compiled as when it is no expression.
pub open spec fn block(code: Seq<char>, name: Seq<char>) -> Source {
    Source { code, name: Some(name) }
}

/// The chunk `source` did not compile.
pub open spec fn refused(source: Source) -> bool {
    exists|e: ErrorTree| #[trigger] compiles(source, Err(e))
}

/// `code` was compiled to this: as an expression, or, where that did not
/// compile, as a block.
pub open spec fn loads(
    code: Seq<char>,
    name: Seq<char>,
    outcome: Result<Function, ErrorTree>,
) -> bool {
    ||| outcome is Ok && compiles(expression(code, name), outcome)
    ||| refused(expression(code, name)) && compiles(block(code, name), outcome)
}

/// What a compilation came to.
pub open spec fn compiled(r: Result<Function, mlua::Error>) -> Result<Function, ErrorTree> {
    match r {
        Ok(f) => Ok(f),
        Err(e) => Err(error_tree(e)),
    }
}

/// Compile `code` as an expression (`return <code>`) if that compiles, else
/// as a block, under the chunk name `name`.
pub fn load_chunk(lua: &Lua, code: &str, name: &str) -> (r: Result<Function, mlua::Error>)
    ensures
        loads(code@, name@, compiled(r)),
        // The expression, or, only once that was refused, the block.
        ({
            let expression = Source { code: "return "@ + code@, name: Some(name@) };
            let block = Source { code: code@, name: Some(name@) };
            ||| r is Ok && compiles(expression, compiled(r))
            ||| (exists|e: ErrorTree| #[trigger] compiles(expression, Err(e))) && compiles(
                block,
                compiled(r),
            )
        }),
        r matches Ok(f) ==> lives(*lua, function_as_value(f)),
{
    let returned: String = text::joined("return ", code);
    match lua::compile(lua, returned.as_str(), name) {
        Ok(f) => Ok(f),
        Err(_) => lua::compile(lua, code, name),
    }
}

/// Compile the code of a sync `eval`.
pub fn load_eval(lua: &Lua, code: &str) -> (r: Result<Function, mlua::Error>)
    ensures
        loads(code@, EVAL_CHUNK@, compiled(r)),
        r matches Ok(f) ==> lives(*lua, function_as_value(f)),
{
    load_chunk(lua, code, EVAL_CHUNK)
}

/// Compile the code of a coroutine `eval`.
pub fn load_coroutine(lua: &Lua, code: &str) -> (r: Result<Function, mlua::Error>)
    ensures
        loads(code@, COROUTINE_CHUNK@, compiled(r)),
        r matches Ok(f) ==> lives(*lua, function_as_value(f)),
{
    load_chunk(lua, code, COROUTINE_CHUNK)
}

/// `r` is what an evaluation of `code` under `xpcall` came to, for which the
/// calls `made` were made: the error of code that does not compile, or what
/// the call of it came to.
pub open spec fn is_eval(
    parts: Parts,
    code: Seq<char>,
    made: Seq<Call>,
    r: Result<MultiValue, Fault>,
) -> bool {
    ||| {
        &&& made.len() == 0
        &&& r matches Err(Fault::Lua { error, traceback: None })
        &&& loads(code, EVAL_CHUNK@, Err(error_tree(error)))
    }
    ||| exists|f: Function| #[trigger]
        loads(code, EVAL_CHUNK@, Ok(f)) && is_call(parts, f, Seq::empty(), made, r)
}

/// Evaluate `code` under `xpcall`.
pub fn eval(lua: &Lua, parts: &Parts, code: &str, calls: &mut Calls) -> (r: Result<
    MultiValue,
    Fault,
>)
    requires
        parts_live(*lua, *parts),
    ensures
        exists|made: Seq<Call>| #[trigger]
            were_made(old(calls).made(), made, final(calls).made()) && is_eval(
                *parts,
                code@,
                made,
                r,
            ),
        r matches Ok(values) ==> all_live(*lua, values_of(values)),
{
    let ghost start = calls.made();
    match load_eval(lua, code) {
        Ok(f) => {
            let none: Vec<Value> = Vec::new();
            assert(none@ == Seq::<Value>::empty());
            protect::call(lua, parts, f, lua::from_values(none), calls)
        },
        Err(e) => {
            assert(were_made(start, Seq::empty(), calls.made()));
            Err(Fault::lua(e))
        },
    }
}

/// An error of a request whose token was cancelled is
/// [`IsleError::Cancelled`], whatever the Lua code made of the cancel.
pub fn cancelled_wins<T>(result: Result<T, IsleError>, cancelled: bool) -> (r: Result<
    T,
    IsleError,
>)
    ensures
        match result {
            Ok(v) => r == Ok::<T, IsleError>(v),
            Err(e) => if cancelled {
                r matches Err(c) && c@ == IsleErrorView::Cancelled
            } else {
                r == Err::<T, IsleError>(e)
            },
        },
{
    match result {
        Ok(v) => Ok(v),
        Err(e) => if cancelled {
            Err(IsleError::Cancelled)
        } else {
            Err(e)
        },
    }
}

/// The function that the global `name` is, or [`IsleError::NotFound`] when
/// it is not a function.
pub fn named_function(global: &Value, name: &str) -> (r: Result<Function, IsleError>)
    ensures
        match r {
            Ok(f) => value_view(*global) is Function && function_as_value(f) == *global,
            Err(e) => !(value_view(*global) is Function) && e@ == IsleErrorView::NotFound(name@),
        },
{
    match lua::function_of(global) {
        Some(f) => Ok(f),
        None => Err(IsleError::NotFound(name.to_owned())),
    }
}

/// `r` is what the global `name` was read as: a function, a value that is
/// none, or an error of the reading.
pub open spec fn is_lookup(lua: Lua, name: Seq<char>, r: Result<Function, Fault>) -> bool {
    match r {
        Ok(f) => {
            &&& value_view(function_as_value(f)) is Function
            &&& read_global(lua, name, Ok(function_as_value(f)))
        },
        Err(Fault::Isle(e)) => {
            &&& e@ == IsleErrorView::NotFound(name)
            &&& exists|v: Value| #[trigger]
                read_global(lua, name, Ok(v)) && !(value_view(v) is Function)
        },
        Err(Fault::Lua { error, traceback }) => {
            &&& traceback is None
            &&& read_global(lua, name, Err(error_tree(error)))
        },
    }
}

/// The global function `name`, or [`IsleError::NotFound`] when the global
/// is not a function.
pub fn global_function(lua: &Lua, name: &str) -> (r: Result<Function, Fault>)
    ensures
        is_lookup(*lua, name@, r),
        r matches Ok(f) ==> lives(*lua, function_as_value(f)),
{
    match lua::global(lua, name) {
        Ok(v) => match named_function(&v, name) {
            Ok(f) => Ok(f),
            Err(e) => Err(Fault::Isle(e)),
        },
        Err(e) => Err(Fault::lua(e)),
    }
}

/// A string value was created from `text`.
pub open spec fn text_made(lua: Lua, text: Seq<char>) -> bool {
    exists|v: Value| #[trigger] made_text(lua, text, Ok(v))
}

/// The string arguments of a `call` as Lua values.
pub fn string_args(lua: &Lua, args: &Vec<String>) -> (r: Result<MultiValue, mlua::Error>)
    ensures
        match r {
            Ok(m) => {
                &&& values_of(m).len() == args@.len()
                &&& forall|i: int|
                    0 <= i < args@.len() ==> value_view(#[trigger] values_of(m)[i]) == (
                    ValueView::Text { text: args@[i]@, valid: true })
                &&& all_live(*lua, values_of(m))
            },
            // The first argument that no string could be created from.
            Err(e) => exists|i: int|
                {
                    &&& 0 <= i < args@.len()
                    &&& made_text(*lua, #[trigger] args@[i]@, Err(error_tree(e)))
                    &&& forall|j: int| 0 <= j < i ==> text_made(*lua, #[trigger] args@[j]@)
                },
        },
{
    let mut out: Vec<Value> = Vec::new();
    let mut i: usize = 0;
    while i < args.len()
        invariant
            i <= args@.len(),
            out@.len() == i,
            all_live(*lua, out@),
            forall|j: int| 0 <= j < i ==> text_made(*lua, #[trigger] args@[j]@),
            forall|j: int|
                0 <= j < i ==> value_view(#[trigger] out@[j]) == (ValueView::Text {
                    text: args@[j]@,
                    valid: true,
                }),
        decreases args@.len() - i,
    {
        match lua::text_value(lua, args[i].as_str()) {
            Ok(v) => {
                assert(text_made(*lua, args@[i as int]@));
                out.push(v)
            },
            Err(e) => return Err(e),
        }
        i += 1;
    }
    Ok(lua::from_values(out))
}

/// `r` is what a call of the global function `name` under `xpcall` came to,
/// for which the calls `made` were made: the error of a global that is no
/// function, or what the call of it came to.
pub open spec fn is_named_call(
    lua: Lua,
    parts: Parts,
    name: Seq<char>,
    args: Seq<Value>,
    made: Seq<Call>,
    r: Result<MultiValue, Fault>,
) -> bool {
    ||| made.len() == 0 && (r matches Err(fault) && is_lookup(lua, name, Err(fault)))
    ||| exists|f: Function| #[trigger]
        is_lookup(lua, name, Ok(f)) && is_call(parts, f, args, made, r)
}

/// Call the global function `name` under `xpcall`.
pub fn call(lua: &Lua, parts: &Parts, name: &str, args: MultiValue, calls: &mut Calls) -> (r:
    Result<MultiValue, Fault>)
    requires
        parts_live(*lua, *parts),
        all_live(*lua, values_of(args)),
    ensures
        exists|made: Seq<Call>| #[trigger]
            were_made(old(calls).made(), made, final(calls).made()) && is_named_call(
                *lua,
                *parts,
                name@,
                values_of(args),
                made,
                r,
            ),
        r matches Ok(values) ==> all_live(*lua, values_of(values)),
{
    let ghost start = calls.made();
    match global_function(lua, name) {
        Ok(f) => protect::call(lua, parts, f, args, calls),
        Err(f) => {
            assert(were_made(start, Seq::empty(), calls.made()));
            Err(f)
        },
    }
}

/// The first of the returned values, `nil` if there is none.
pub fn first_value(values: MultiValue) -> (r: Value)
    ensures
        if values_of(values).len() > 0 {
            r == values_of(values)[0]
        } else {
            value_view(r) == ValueView::Nil
        },
{
    let mut values: Vec<Value> = lua::into_values(values);
    if values.len() > 0 {
        values.remove(0)
    } else {
        lua::nil_value()
    }
}

/// `r` is what the global `tostring` made of `v`, for which the calls `made`
/// were made: the error of a global that is no function, or what the one
/// call of it came to.
pub open spec fn printed_by_lua(
    lua: Lua,
    v: Value,
    made: Seq<Call>,
    r: Result<String, Fault>,
) -> bool {
    ||| {
        &&& made.len() == 0
        &&& r matches Err(Fault::Lua { error, traceback: None })
        &&& not_a_function(lua, "tostring"@, error_tree(error))
    }
    ||| {
        &&& made.len() == 1
        &&& read_global(lua, "tostring"@, Ok(made[0].f))
        &&& made[0].args == seq![v]
        &&& match r {
            Ok(s) => made[0].outcome matches Outcome::Returned(out) && reads(out, s@),
            Err(fault) => escaped(made[0].outcome, fault),
        }
    }
}

/// Convert a Lua value to text: `nil` is empty, a string is itself,
/// numbers and booleans print as Rust prints them, anything else as Lua's
/// `tostring` prints it.  A string that is not valid UTF-8 is an error.
pub fn lua_value_to_string(lua: &Lua, val: Value, calls: &mut Calls) -> (r: Result<String, Fault>)
    requires
        lives(*lua, val),
    ensures
        match value_view(val) {
            ValueView::Nil => r matches Ok(s) && s@ == ""@,
            ValueView::Text { text, valid } => match r {
                Ok(s) => valid && s@ == text,
                Err(fault) => {
                    &&& !valid
                    &&& fault matches Fault::Lua { error, traceback: None }
                    &&& tells(val, Err(error_tree(error)))
                },
            },
            ValueView::Integer(n) => r matches Ok(s) && s@ == signed_decimal(n as int),
            ValueView::Number(text) => r matches Ok(s) && s@ == text,
            ValueView::Boolean(b) => r matches Ok(s) && s@ == if b {
                "true"@
            } else {
                "false"@
            },
            _ => exists|made: Seq<Call>| #[trigger]
                were_made(old(calls).made(), made, final(calls).made()) && printed_by_lua(
                    *lua,
                    val,
                    made,
                    r,
                ),
        },
        match value_view(val) {
            ValueView::Table => true,
            ValueView::Function => true,
            ValueView::Error(_) => true,
            ValueView::Other => true,
            _ => final(calls).made() == old(calls).made(),
        },
{
    let ghost start = calls.made();
    match lua::shape_of(&val) {
        Shape::Nil => Ok("".to_owned()),
        Shape::Text => match lua::to_text(lua, &val) {
            Ok(s) => Ok(s),
            Err(e) => Err(Fault::lua(e)),
        },
        Shape::Integer(n) => Ok(text::signed_decimal_text(n)),
        Shape::Number => match lua::number_text(&val) {
            Some(s) => Ok(s),
            None => Ok("".to_owned()),
        },
        Shape::Boolean(b) => Ok(
            if b {
                "true".to_owned()
            } else {
                "false".to_owned()
            },
        ),
        _ => {
            let tostring: Function = match lua::function_global(lua, "tostring") {
                Ok(f) => f,
                Err(e) => {
                    assert(were_made(start, Seq::empty(), calls.made()));
                    return Err(Fault::lua(e));
                },
            };
            let mut args: Vec<Value> = Vec::new();
            args.push(val);
            assert(args@ == seq![val]);
            let answer: Result<String, mlua::Error> = lua::call_for_text(
                lua,
                &tostring,
                lua::from_values(args),
                calls,
            );
            proof {
                lua::lemma_one_more(start, calls.made(), function_as_value(tostring), seq![val]);
            }
            match answer {
                Ok(s) => Ok(s),
                Err(e) => Err(Fault::lua(e)),
            }
        },
    }
}

/// Code that compiles as an expression is the expression: unless `return
/// <code>` was refused, what is loaded is what it was compiled to.  Only code
/// that was refused as an expression is compiled as a block, and what comes
/// of that, an error too, is the result.
pub proof fn law_code_is_an_expression_first(lua: Lua, code: &str, name: &str)
    ensures
        forall|r: Result<Function, mlua::Error>| #[trigger]
            call_ensures(load_chunk, (&lua, code, name), r) ==> {
                let expression = Source { code: "return "@ + code@, name: Some(name@) };
                let block = Source { code: code@, name: Some(name@) };
                let was_refused = exists|e: ErrorTree| #[trigger] compiles(expression, Err(e));
                &&& !was_refused ==> (r matches Ok(f) && compiles(expression, Ok(f)))
                &&& r matches Ok(f) ==> compiles(expression, Ok(f)) || was_refused && compiles(
                    block,
                    Ok(f),
                )
                &&& r matches Err(e) ==> was_refused && compiles(block, Err(error_tree(e)))
            },
{
}

/// The code of an `eval` goes by the name `eval` in messages, that of a
/// coroutine `eval` by `coroutine_eval`; both are expressions first.
pub proof fn law_eval_code_goes_by_its_name(lua: Lua, code: &str)
    ensures
        forall|r: Result<Function, mlua::Error>| #[trigger]
            call_ensures(load_eval, (&lua, code), r) ==> {
                let expression = Source { code: "return "@ + code@, name: Some("=eval"@) };
                let block = Source { code: code@, name: Some("=eval"@) };
                let was_refused = exists|e: ErrorTree| #[trigger] compiles(expression, Err(e));
                &&& !was_refused ==> (r matches Ok(f) && compiles(expression, Ok(f)))
                &&& r matches Ok(f) ==> compiles(expression, Ok(f)) || was_refused && compiles(
                    block,
                    Ok(f),
                )
                &&& r matches Err(e) ==> was_refused && compiles(block, Err(error_tree(e)))
            },
        forall|r: Result<Function, mlua::Error>| #[trigger]
            call_ensures(load_coroutine, (&lua, code), r) ==> {
                let name = "=coroutine_eval"@;
                let expression = Source { code: "return "@ + code@, name: Some(name) };
                let block = Source { code: code@, name: Some(name) };
                let was_refused = exists|e: ErrorTree| #[trigger] compiles(expression, Err(e));
                &&& !was_refused ==> (r matches Ok(f) && compiles(expression, Ok(f)))
                &&& r matches Ok(f) ==> compiles(expression, Ok(f)) || was_refused && compiles(
                    block,
                    Ok(f),
                )
                &&& r matches Err(e) ==> was_refused && compiles(block, Err(error_tree(e)))
            },
{
}

/// What an `eval` runs is its code, without arguments, once, under the
/// captured `xpcall`; and the values it gives are all that this call
/// returned.  Code that does not compile runs nothing.
pub proof fn law_eval_runs_its_code_once(lua: Lua, parts: Parts, code: &str)
    ensures
        forall|calls: &mut Calls, r: Result<MultiValue, Fault>| #[trigger]
            call_ensures(eval, (&lua, &parts, code, calls), r) ==> {
                let n = calls.made().len() as int;
                let made = final(calls).made();
                &&& made.len() >= n && made.take(n) == calls.made()
                &&& made.len() == n ==> {
                    &&& r matches Err(Fault::Lua { error, traceback: None })
                    &&& exists|e: ErrorTree| #[trigger]
                        compiles(Source { code: "return "@ + code@, name: Some("=eval"@) }, Err(e))
                    &&& compiles(
                        Source { code: code@, name: Some("=eval"@) },
                        Err(error_tree(error)),
                    )
                }
                &&& made.len() > n ==> exists|f: Function| #[trigger]
                    is_call(parts, f, Seq::empty(), made.skip(n), r)
                &&& made.len() >= n + 2 ==> exists|f: Function|
                    made[n + 1].args == seq![
                        #[trigger] function_as_value(f),
                        function_as_value(parts.handler),
                    ] && made[n + 1].f == function_as_value(parts.xpcall) && {
                        ||| compiles(
                            Source { code: "return "@ + code@, name: Some("=eval"@) },
                            Ok(f),
                        )
                        ||| compiles(Source { code: code@, name: Some("=eval"@) }, Ok(f))
                            && exists|e: ErrorTree| #[trigger]
                            compiles(
                                Source { code: "return "@ + code@, name: Some("=eval"@) },
                                Err(e),
                            )
                    }
                &&& r matches Ok(values) ==> {
                    &&& made.len() == n + 2
                    &&& made[n + 1].outcome matches Outcome::Returned(out)
                    &&& out.len() > 0
                    &&& value_view(out[0]) == ValueView::Boolean(true)
                    &&& out == seq![out[0]] + values_of(values)
                }
            },
{
    assert forall|calls: &mut Calls, r: Result<MultiValue, Fault>| #[trigger]
        call_ensures(eval, (&lua, &parts, code, calls), r) implies {
        let n = calls.made().len() as int;
        let made = final(calls).made();
        &&& made.len() >= n && made.take(n) == calls.made()
        &&& made.len() == n ==> {
            &&& r matches Err(Fault::Lua { error, traceback: None })
            &&& exists|e: ErrorTree| #[trigger]
                compiles(Source { code: "return "@ + code@, name: Some("=eval"@) }, Err(e))
            &&& compiles(Source { code: code@, name: Some("=eval"@) }, Err(error_tree(error)))
        }
        &&& made.len() > n ==> exists|f: Function| #[trigger]
            is_call(parts, f, Seq::empty(), made.skip(n), r)
        &&& made.len() >= n + 2 ==> exists|f: Function|
            made[n + 1].args == seq![#[trigger] function_as_value(f), function_as_value(parts.handler)]
                && made[n + 1].f == function_as_value(parts.xpcall) && {
                ||| compiles(Source { code: "return "@ + code@, name: Some("=eval"@) }, Ok(f))
                ||| compiles(Source { code: code@, name: Some("=eval"@) }, Ok(f)) && exists|
                    e: ErrorTree,
                | #[trigger]
                    compiles(Source { code: "return "@ + code@, name: Some("=eval"@) }, Err(e))
            }
        &&& r matches Ok(values) ==> {
            &&& made.len() == n + 2
            &&& made[n + 1].outcome matches Outcome::Returned(out)
            &&& out.len() > 0
            &&& value_view(out[0]) == ValueView::Boolean(true)
            &&& out == seq![out[0]] + values_of(values)
        }
    } by {
        let before = calls.made();
        let n = before.len() as int;
        let all = final(calls).made();
        let made = choose|made: Seq<Call>| #[trigger]
            were_made(before, made, all) && is_eval(parts, code@, made, r);
        assert(all.take(n) == before);
        assert(all.skip(n) == made);
        if made.len() > 0 {
            let f = choose|f: Function| #[trigger]
                loads(code@, EVAL_CHUNK@, Ok(f)) && is_call(parts, f, Seq::empty(), made, r);
            assert(all[n] == made[0]);
            if made.len() >= 2 {
                assert(all[n + 1] == made[1]);
                assert(made[1].args == seq![
                    function_as_value(f),
                    function_as_value(parts.handler),
                ]);
                match made[1].outcome {
                    Outcome::Returned(out) => {
                        assert(out.len() > 0 ==> out == seq![out[0]] + out.skip(1));
                    },
                    _ => {},
                }
            }
        }
    }
}

/// A named call calls the global of that name with the arguments given, once,
/// under the captured `xpcall`; a global that is no function is reported by
/// its name, and nothing is called.
pub proof fn law_a_named_call_calls_the_global(
    lua: Lua,
    parts: Parts,
    name: &str,
    args: MultiValue,
)
    ensures
        forall|calls: &mut Calls, r: Result<MultiValue, Fault>| #[trigger]
            call_ensures(call, (&lua, &parts, name, args, calls), r) ==> {
                let n = calls.made().len() as int;
                let made = final(calls).made();
                &&& made.len() >= n && made.take(n) == calls.made()
                &&& made.len() == n ==> match r {
                    Ok(_) => false,
                    Err(Fault::Isle(e)) => {
                        &&& e@ == IsleErrorView::NotFound(name@)
                        &&& exists|v: Value| #[trigger]
                            read_global(lua, name@, Ok(v)) && !(value_view(v) is Function)
                    },
                    Err(Fault::Lua { error, traceback }) => traceback is None && read_global(
                        lua,
                        name@,
                        Err(error_tree(error)),
                    ),
                }
                &&& made.len() > n ==> exists|f: Function| #[trigger]
                    is_call(parts, f, values_of(args), made.skip(n), r)
                &&& made.len() >= n + 2 ==> {
                    &&& made[n + 1].f == function_as_value(parts.xpcall)
                    &&& made[n + 1].args.len() == values_of(args).len() + 2
                    &&& read_global(lua, name@, Ok(made[n + 1].args[0]))
                    &&& made[n + 1].args[1] == function_as_value(parts.handler)
                    &&& made[n + 1].args.skip(2) == values_of(args)
                }
                &&& r matches Ok(values) ==> {
                    &&& made.len() == n + 2
                    &&& made[n + 1].outcome matches Outcome::Returned(out)
                    &&& out.len() > 0
                    &&& value_view(out[0]) == ValueView::Boolean(true)
                    &&& out == seq![out[0]] + values_of(values)
                }
            },
{
    assert forall|calls: &mut Calls, r: Result<MultiValue, Fault>| #[trigger]
        call_ensures(call, (&lua, &parts, name, args, calls), r) implies {
        let n = calls.made().len() as int;
        let made = final(calls).made();
        &&& made.len() >= n && made.take(n) == calls.made()
        &&& made.len() == n ==> match r {
            Ok(_) => false,
            Err(Fault::Isle(e)) => {
                &&& e@ == IsleErrorView::NotFound(name@)
                &&& exists|v: Value| #[trigger]
                    read_global(lua, name@, Ok(v)) && !(value_view(v) is Function)
            },
            Err(Fault::Lua { error, traceback }) => traceback is None && read_global(
                lua,
                name@,
                Err(error_tree(error)),
            ),
        }
        &&& made.len() > n ==> exists|f: Function| #[trigger]
            is_call(parts, f, values_of(args), made.skip(n), r)
        &&& made.len() >= n + 2 ==> {
            &&& made[n + 1].f == function_as_value(parts.xpcall)
            &&& made[n + 1].args.len() == values_of(args).len() + 2
            &&& read_global(lua, name@, Ok(made[n + 1].args[0]))
            &&& made[n + 1].args[1] == function_as_value(parts.handler)
            &&& made[n + 1].args.skip(2) == values_of(args)
        }
        &&& r matches Ok(values) ==> {
            &&& made.len() == n + 2
            &&& made[n + 1].outcome matches Outcome::Returned(out)
            &&& out.len() > 0
            &&& value_view(out[0]) == ValueView::Boolean(true)
            &&& out == seq![out[0]] + values_of(values)
        }
    } by {
        let before = calls.made();
        let n = before.len() as int;
        let all = final(calls).made();
        let made = choose|made: Seq<Call>| #[trigger]
            were_made(before, made, all) && is_named_call(
                lua,
                parts,
                name@,
                values_of(args),
                made,
                r,
            );
        assert(all.take(n) == before);
        assert(all.skip(n) == made);
        if made.len() > 0 {
            let f = choose|f: Function| #[trigger]
                is_lookup(lua, name@, Ok(f)) && is_call(parts, f, values_of(args), made, r);
            assert(all[n] == made[0]);
            if made.len() >= 2 {
                assert(all[n + 1] == made[1]);
                assert(made[1].args.skip(2) == values_of(args));
                match made[1].outcome {
                    Outcome::Returned(out) => {
                        assert(out.len() > 0 ==> out == seq![out[0]] + out.skip(1));
                    },
                    _ => {},
                }
            }
        }
    }
}

/// A cancelled request that failed is cancelled, whatever it failed with; a
/// result that was had, and the error of a request that was not cancelled,
/// stay as they are.
pub proof fn law_a_cancel_wins_over_an_error_only<T>(
    result: Result<T, IsleError>,
    cancelled: bool,
)
    ensures
        forall|r: Result<T, IsleError>| #[trigger]
            call_ensures(cancelled_wins::<T>, (result, cancelled), r) ==> {
                &&& result is Ok || !cancelled ==> r == result
                &&& result is Err && cancelled ==> (r matches Err(e) && e@
                    == IsleErrorView::Cancelled)
            },
{
}

/// A global is found exactly if it is a function; else its name is reported.
pub proof fn law_a_function_is_found_by_name(global: Value, lua: Lua, name: &str)
    ensures
        forall|r: Result<Function, IsleError>| #[trigger]
            call_ensures(named_function, (&global, name), r) ==> {
                &&& r is Ok <==> value_view(global) is Function
                &&& r matches Ok(f) ==> function_as_value(f) == global
                &&& r matches Err(e) ==> e@ == IsleErrorView::NotFound(name@)
            },
        forall|r: Result<Function, Fault>| #[trigger]
            call_ensures(global_function, (&lua, name), r) ==> match r {
                Ok(f) => {
                    &&& read_global(lua, name@, Ok(function_as_value(f)))
                    &&& value_view(function_as_value(f)) is Function
                },
                Err(Fault::Isle(e)) => {
                    &&& e@ == IsleErrorView::NotFound(name@)
                    &&& exists|v: Value| #[trigger]
                        read_global(lua, name@, Ok(v)) && !(value_view(v) is Function)
                },
                Err(Fault::Lua { error, traceback }) => {
                    &&& read_global(lua, name@, Err(error_tree(error)))
                    &&& traceback is None
                },
            },
{
}

/// String arguments arrive as strings, each in its place; and the result of
/// several values is the first, `nil` of none.
pub proof fn law_arguments_and_results_keep_their_places(
    lua: Lua,
    args: Vec<String>,
    values: MultiValue,
)
    ensures
        forall|m: MultiValue| #[trigger]
            call_ensures(string_args, (&lua, &args), Ok::<MultiValue, mlua::Error>(m)) ==> {
                &&& values_of(m).len() == args@.len()
                &&& forall|i: int|
                    0 <= i < args@.len() ==> (value_view(
                        #[trigger] values_of(m)[i],
                    ) matches ValueView::Text { text, valid } && text == args@[i]@ && valid)
            },
        forall|e: mlua::Error| #[trigger]
            call_ensures(string_args, (&lua, &args), Err::<MultiValue, mlua::Error>(e)) ==> exists|
                i: int,
            |
                {
                    &&& 0 <= i < args@.len()
                    &&& made_text(lua, #[trigger] args@[i]@, Err(error_tree(e)))
                    &&& forall|j: int|
                        0 <= j < i ==> text_made(lua, #[trigger] args@[j]@)
                },
        forall|r: Value| #[trigger]
            call_ensures(first_value, (values,), r) ==> {
                &&& values_of(values).len() > 0 ==> r == values_of(values)[0]
                &&& values_of(values).len() == 0 ==> value_view(r) is Nil
            },
{
}

/// How a value reads as text: `nil` is nothing, a string is itself if it is
/// valid and an error otherwise, a whole number reads back as the number, and
/// Lua is asked, once, only about what is none of these.
pub proof fn law_a_value_reads_as_text(lua: Lua, val: Value)
    ensures
        forall|calls: &mut Calls, r: Result<String, Fault>| #[trigger]
            call_ensures(lua_value_to_string, (&lua, val, calls), r) ==> {
                &&& value_view(val) is Nil ==> (r matches Ok(s) && s@.len() == 0)
                &&& value_view(val) matches ValueView::Boolean(b) ==> (r matches Ok(s) && s@ == (
                if b {
                    "true"@
                } else {
                    "false"@
                }))
                &&& value_view(val) matches ValueView::Integer(n) ==> (r matches Ok(s)
                    && text::reads_back(s@, n as int))
                &&& value_view(val) matches ValueView::Number(t) ==> (r matches Ok(s) && s@ == t)
                &&& value_view(val) matches ValueView::Text { text, valid } ==> {
                    &&& r is Ok <==> valid
                    &&& r matches Ok(s) ==> s@ == text
                    &&& r matches Err(fault) ==> (fault matches Fault::Lua { error, traceback: None }
                        && tells(val, Err(error_tree(error))))
                }
                &&& match value_view(val) {
                    ValueView::Nil => final(calls).made() == calls.made(),
                    ValueView::Boolean(_) => final(calls).made() == calls.made(),
                    ValueView::Integer(_) => final(calls).made() == calls.made(),
                    ValueView::Number(_) => final(calls).made() == calls.made(),
                    ValueView::Text { .. } => final(calls).made() == calls.made(),
                    _ => {
                        let n = calls.made().len() as int;
                        let made = final(calls).made();
                        &&& made.len() == n || made.len() == n + 1
                        &&& made.take(n) == calls.made()
                        &&& r is Ok ==> made.len() == n + 1
                        &&& made.len() == n ==> (r matches Err(
                            Fault::Lua { error, traceback: None },
                        ) && not_a_function(lua, "tostring"@, error_tree(error)))
                        &&& made.len() == n + 1 && r is Err ==> (
                        made[n].outcome matches Outcome::Failed(tree) && r matches Err(
                            Fault::Lua { error, traceback: None },
                        ) && error_tree(error) == tree)
                        &&& made.len() == n + 1 ==> {
                            &&& read_global(lua, "tostring"@, Ok(made[n].f))
                            &&& made[n].args == seq![val]
                        }
                        &&& r matches Ok(s) ==> {
                            &&& made[n].outcome matches Outcome::Returned(out)
                            &&& out.len() > 0
                            &&& reads(out, s@)
                            &&& value_view(out[0]) matches ValueView::Text { text, .. } ==> s@
                                == text
                        }
                    },
                }
            },
{
    reveal_strlit("");
    assert forall|n: int| #[trigger] text::reads_back(signed_decimal(n), n) by {
        text::law_decimals_read_back(n);
    }
    assert forall|calls: &mut Calls, made: Seq<Call>, r: Result<String, Fault>|
        #[trigger] were_made(calls.made(), made, final(calls).made()) && #[trigger] printed_by_lua(
            lua,
            val,
            made,
            r,
        ) implies made.len() <= 1 && final(calls).made().len() == calls.made().len() + made.len()
        && (made.len() == 1 ==> final(calls).made()[calls.made().len() as int] == made[0]) by {}
}

} // verus!
