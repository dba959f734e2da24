//! Requests on a VM: compiling, calling, and converting results.

use mlua_isle::lua::Calls;
use mlua_isle::error::Fault;
use mlua_isle::protect::{self, Parts};
use mlua_isle::hook::TokenTree;
use mlua_isle::{thread, CancelToken, IsleError, LuaErrorKind, Task};

fn resolve(fault: Fault) -> IsleError {
    fault.resolve(false)
}

fn parts(lua: &mlua::Lua) -> Parts {
    let handler = lua.create_function(|_, e: mlua::Value| Ok(e)).unwrap();
    let take = lua.create_function(|_, _: mlua::Value| Ok(false)).unwrap();
    let protect = protect::install(lua, handler, take).unwrap();
    protect::parts(lua, &protect).map_err(resolve).unwrap()
}

fn eval<T: mlua::FromLuaMulti>(lua: &mlua::Lua, code: &str) -> Result<T, IsleError> {
    let values = thread::eval(lua, &parts(lua), code, &mut Calls::new(lua.clone())).map_err(resolve)?;
    T::from_lua_multi(values, lua).map_err(|e| IsleError::from_mlua(&e, false))
}

fn call<T: mlua::FromLuaMulti>(
    lua: &mlua::Lua,
    name: &str,
    args: impl mlua::IntoLuaMulti,
) -> Result<T, IsleError> {
    let args = args.into_lua_multi(lua).unwrap();
    let values = thread::call(lua, &parts(lua), name, args, &mut Calls::new(lua.clone())).map_err(resolve)?;
    T::from_lua_multi(values, lua).map_err(|e| IsleError::from_mlua(&e, false))
}

#[test]
fn eval_simple_expression() {
    let lua = mlua::Lua::new();
    let result: i64 = eval(&lua, "return 1 + 2").unwrap();
    assert_eq!(result, 3);
}

#[test]
fn eval_string_result() {
    let lua = mlua::Lua::new();
    let result: String = eval(&lua, "return 'hello world'").unwrap();
    assert_eq!(result, "hello world");
}

#[test]
fn eval_nil_is_none() {
    let lua = mlua::Lua::new();
    let result: Option<String> = eval(&lua, "return nil").unwrap();
    assert_eq!(result, None);
}

#[test]
fn init_sets_globals() {
    let lua = mlua::Lua::new();
    lua.globals().set("my_val", 42).unwrap();
    let result: i64 = eval(&lua, "return my_val").unwrap();
    assert_eq!(result, 42);
}

#[test]
fn call_global_function() {
    let lua = mlua::Lua::new();
    let f = lua
        .create_function(|_lua, args: mlua::MultiValue| {
            let mut parts = Vec::new();
            for v in args {
                match v {
                    mlua::Value::String(s) => parts.push(s.to_str().unwrap().to_string()),
                    _ => parts.push(format!("{v:?}")),
                }
            }
            Ok(parts.join(", "))
        })
        .unwrap();
    lua.globals().set("greet", f).unwrap();
    let result: String = call(&lua, "greet", ("hello", "world")).unwrap();
    assert_eq!(result, "hello, world");
}

#[test]
fn multiple_sequential_evals() {
    let lua = mlua::Lua::new();
    lua.globals().set("counter", 0).unwrap();
    for i in 1..=5 {
        let result: i64 = eval(&lua, "counter = counter + 1; return counter").unwrap();
        assert_eq!(result, i);
    }
}

#[test]
fn spawn_call_returns_correct_result_after_init() {
    let lua = mlua::Lua::new();
    lua.load("function add(a, b) return tostring(tonumber(a) + tonumber(b)) end")
        .exec()
        .unwrap();
    let result: String = call(&lua, "add", ("3", "4")).unwrap();
    assert_eq!(result, "7");
}

#[test]
fn eval_of_a_statement_chunk_as_unit() {
    let lua = mlua::Lua::new();
    eval::<()>(&lua, "x = 1").unwrap();
    assert_eq!(eval::<i64>(&lua, "return x").unwrap(), 1);
}

#[test]
fn typed_results_eval_converts_to_the_requested_type() {
    let lua = mlua::Lua::new();
    assert_eq!(eval::<i64>(&lua, "return 1 + 1").unwrap(), 2);
    assert_eq!(eval::<Option<String>>(&lua, "return nil").unwrap(), None);
    assert_eq!(
        eval::<Option<String>>(&lua, "return 'a'").unwrap().as_deref(),
        Some("a")
    );
    assert_eq!(eval::<String>(&lua, "return 'a'").unwrap(), "a");
    assert_eq!(eval::<f64>(&lua, "return 0.5").unwrap(), 0.5);
    assert!(eval::<bool>(&lua, "return true").unwrap());
    assert_eq!(
        eval::<(i64, String)>(&lua, "return 1, 'x'").unwrap(),
        (1, "x".to_string())
    );
}

#[test]
fn eval_of_a_value_that_does_not_convert_is_a_conversion_failure() {
    let lua = mlua::Lua::new();
    for code in ["return 'not a number'", "return {}"] {
        match eval::<i64>(&lua, code) {
            Err(IsleError::Lua(f)) => assert_eq!(f.kind, LuaErrorKind::Conversion, "got: {f:?}"),
            other => panic!("unexpected: {other:?}"),
        }
    }
    for code in ["return nil", "return true"] {
        match eval::<String>(&lua, code) {
            Err(IsleError::Lua(f)) => assert_eq!(f.kind, LuaErrorKind::Conversion, "got: {f:?}"),
            other => panic!("unexpected: {other:?}"),
        }
    }
    assert_eq!(eval::<String>(&lua, "return 42").unwrap(), "42");
    assert!(eval::<bool>(&lua, "return 0").unwrap());
    assert!(!eval::<bool>(&lua, "return nil").unwrap());
    assert_eq!(eval::<i64>(&lua, "return 1").unwrap(), 1);
}

/// `types(a, b, c)` returns the concatenated Lua types of its arguments;
/// `count(...)` returns how many arguments it got.
fn probes() -> mlua::Lua {
    let lua = mlua::Lua::new();
    lua.load(
        "function types(a, b, c) return type(a) .. type(b) .. type(c) end
         function count(...) return select('#', ...) end
         function pair() return 7, 'seven' end
         function noop() end",
    )
    .exec()
    .unwrap();
    lua
}

#[test]
fn typed_results_call_passes_typed_arguments() {
    let lua = probes();
    let r: String = call(&lua, "types", (1, true, "x")).unwrap();
    assert_eq!(r, "numberbooleanstring");
    call::<()>(&lua, "noop", ()).unwrap();
    let (n, s): (i64, String) = call(&lua, "pair", ()).unwrap();
    assert_eq!((n, s.as_str()), (7, "seven"));
}

#[test]
fn variadic_spreads_and_vec_is_one_table() {
    let lua = probes();
    let args = mlua::Variadic::from_iter(["a", "b", "c"].map(String::from));
    assert_eq!(call::<i64>(&lua, "count", args).unwrap(), 3);
    let r: String = call(&lua, "types", vec!["a", "b"]).unwrap();
    assert_eq!(r, "tablenilnil");
    assert_eq!(call::<i64>(&lua, "count", vec![1, 2, 3]).unwrap(), 1);
}

#[test]
fn bstring_holds_the_raw_bytes_of_a_string() {
    let lua = mlua::Lua::new();
    let b: mlua::BString = eval(&lua, "return 'a\\0b'").unwrap();
    assert_eq!(b, &b"a\0b"[..]);
    let b: mlua::BString = eval(&lua, "return 'a\\255'").unwrap();
    assert_eq!(b, &b"a\xff"[..]);
    match eval::<String>(&lua, "return 'a\\255'") {
        Err(IsleError::Lua(f)) => assert_eq!(f.kind, LuaErrorKind::Conversion, "got: {f:?}"),
        other => panic!("unexpected: {other:?}"),
    }
}

#[test]
fn string_arguments_arrive_as_strings() {
    let lua = probes();
    let args = thread::string_args(&lua, &vec!["a".to_string(), "7".to_string()]).unwrap();
    assert_eq!(call::<String>(&lua, "types", args).unwrap(), "stringstringnil");
    let none = thread::string_args(&lua, &Vec::new()).unwrap();
    assert_eq!(call::<i64>(&lua, "count", none).unwrap(), 0);
}

#[test]
fn lua_value_to_string_types() {
    let lua = mlua::Lua::new();
    let text = |v: mlua::Value| thread::lua_value_to_string(&lua, v, &mut Calls::new(lua.clone())).map_err(resolve).unwrap();
    assert_eq!(text(mlua::Value::Nil), "");
    assert_eq!(text(mlua::Value::Boolean(true)), "true");
    assert_eq!(text(mlua::Value::Integer(42)), "42");
}

#[test]
fn other_values_become_text_too() {
    let lua = mlua::Lua::new();
    let text = |v: mlua::Value| thread::lua_value_to_string(&lua, v, &mut Calls::new(lua.clone())).map_err(resolve).unwrap();
    assert_eq!(text(mlua::Value::Boolean(false)), "false");
    assert_eq!(text(mlua::Value::Integer(i64::MIN)), "-9223372036854775808");
    assert_eq!(text(mlua::Value::Number(1.5)), "1.5");
    assert_eq!(text(mlua::Value::Number(2.0)), "2");
    let s = lua.create_string("héllo").unwrap();
    assert_eq!(text(mlua::Value::String(s)), "héllo");
    let t: mlua::Value = lua
        .load("return setmetatable({}, { __tostring = function() return 'T' end })")
        .eval()
        .unwrap();
    assert_eq!(text(t), "T");
    let bad = lua.create_string(b"\xff").unwrap();
    assert!(thread::lua_value_to_string(&lua, mlua::Value::String(bad), &mut Calls::new(lua.clone())).is_err());
}

#[test]
fn expressions_need_no_return() {
    let lua = mlua::Lua::new();
    assert_eq!(eval::<i64>(&lua, "1 + 2").unwrap(), 3);
    let f = thread::load_eval(&lua, "local x = 1 return x").unwrap();
    assert_eq!(f.call::<i64>(()).unwrap(), 1);
    let f = thread::load_coroutine(&lua, "error('x')").unwrap();
    let err = f.call::<()>(()).unwrap_err().to_string();
    assert!(err.contains("coroutine_eval:1: x"), "got: {err}");
}

#[test]
fn the_first_value_is_the_result() {
    let two = mlua::MultiValue::from_vec(vec![mlua::Value::Integer(1), mlua::Value::Integer(2)]);
    assert_eq!(thread::first_value(two).as_integer(), Some(1));
    assert!(thread::first_value(mlua::MultiValue::new()).is_nil());
}

#[test]
fn a_cancelled_request_is_cancelled_whatever_lua_made_of_it() {
    let failed: Result<i64, IsleError> = Err(IsleError::RecvFailed);
    assert!(matches!(
        thread::cancelled_wins(failed, true),
        Err(IsleError::Cancelled)
    ));
    let failed: Result<i64, IsleError> = Err(IsleError::RecvFailed);
    assert!(matches!(
        thread::cancelled_wins(failed, false),
        Err(IsleError::RecvFailed)
    ));
    assert!(matches!(thread::cancelled_wins(Ok(3), true), Ok(3)));
}

#[test]
fn a_call_hands_over_its_arguments_in_order() {
    let lua = probes();
    let f: mlua::Function = lua.globals().get("count").unwrap();
    let h = lua.create_function(|_, ()| Ok(())).unwrap();
    let args = mlua::MultiValue::from_vec(vec![mlua::Value::Integer(9)]);
    let all = protect::call_args(f.clone(), h, args).into_vec();
    assert_eq!(all.len(), 3);
    assert_eq!(all[0], mlua::Value::Function(f));
    assert!(all[1].is_function());
    assert_eq!(all[2].as_integer(), Some(9));
}

#[test]
fn registry_key_is_a_send_result() {
    let lua = mlua::Lua::new();
    let key: mlua::RegistryKey = eval(&lua, "return { 1, 2, 3 }").unwrap();
    let t: mlua::Table = lua.registry_value(&key).unwrap();
    lua.remove_registry_value(key).unwrap();
    assert_eq!(t.raw_len(), 3);
}

#[test]
fn unit_ignores_the_values_and_option_takes_no_value() {
    let lua = mlua::Lua::new();
    eval::<()>(&lua, "return 1, 2").unwrap();
    assert_eq!(eval::<Option<i64>>(&lua, "x = 1").unwrap(), None);
}

/// An argument whose `IntoLua` fails, with a conversion error or with an
/// external one.
#[derive(Debug)]
enum BadArg {
    Conversion,
    External,
}

impl mlua::IntoLua for BadArg {
    fn into_lua(self, _: &mlua::Lua) -> mlua::Result<mlua::Value> {
        Err(match self {
            BadArg::Conversion => mlua::Error::FromLuaConversionError {
                from: "BadArg",
                to: "Value".into(),
                message: Some("refuses to convert".into()),
            },
            BadArg::External => mlua::Error::external(std::io::Error::other("no")),
        })
    }
}

/// A call whose arguments are converted once the function is found.
fn request(
    lua: &mlua::Lua,
    name: &str,
    args: impl mlua::IntoLuaMulti,
) -> Result<mlua::MultiValue, IsleError> {
    let func = thread::global_function(lua, name).map_err(resolve)?;
    let args = args
        .into_lua_multi(lua)
        .map_err(|e| IsleError::from_mlua(&e, false))?;
    protect::call(lua, &parts(lua), func, args, &mut Calls::new(lua.clone())).map_err(resolve)
}

#[test]
fn not_found_wins_over_an_argument_that_fails_to_convert() {
    let lua = probes();
    let r = request(&lua, "nope", BadArg::Conversion);
    assert!(
        matches!(&r, Err(IsleError::NotFound(n)) if n == "nope"),
        "got: {r:?}"
    );
}

#[test]
fn an_argument_that_fails_to_convert_keeps_its_kind() {
    let lua = probes();
    match request(&lua, "noop", BadArg::Conversion) {
        Err(IsleError::Lua(f)) => assert_eq!(f.kind, LuaErrorKind::Conversion, "got: {f:?}"),
        other => panic!("unexpected: {other:?}"),
    }
    match request(&lua, "noop", BadArg::External) {
        Err(IsleError::Lua(f)) => assert_eq!(f.kind, LuaErrorKind::External, "got: {f:?}"),
        other => panic!("unexpected: {other:?}"),
    }
}

/// A `FromLua` that reads field `x` of a table, so a `__index` metamethod
/// runs during the conversion.
#[derive(Debug)]
struct ViaIndex(#[allow(dead_code)] i64);

impl mlua::FromLua for ViaIndex {
    fn from_lua(v: mlua::Value, _: &mlua::Lua) -> mlua::Result<Self> {
        match v {
            mlua::Value::Table(t) => Ok(ViaIndex(t.get("x")?)),
            other => Err(mlua::Error::runtime(format!("got {other:?}"))),
        }
    }
}

#[test]
fn a_from_lua_that_raises_keeps_the_raised_kind() {
    let lua = mlua::Lua::new();
    let code = "return setmetatable({}, { __index = function() error('from __index') end })";
    match eval::<ViaIndex>(&lua, code) {
        Err(IsleError::Lua(f)) => {
            assert_eq!(f.kind, LuaErrorKind::Runtime, "got: {f:?}");
            assert!(f.message.ends_with("from __index"), "got: {}", f.message);
        }
        other => panic!("unexpected: {other:?}"),
    }
}

#[test]
fn what_does_not_compile_as_an_expression_is_compiled_as_a_block() {
    let lua = mlua::Lua::new();
    let err = thread::load_eval(&lua, "x = = 1").unwrap_err();
    assert!(err.to_string().contains("eval:1:"), "got: {err}");
    // The message is of the block, not of `return <code>`.
    let err = thread::load_eval(&lua, "local function").unwrap_err();
    assert!(!err.to_string().contains("return"), "got: {err}");
}

#[test]
fn a_global_whose_reading_fails_is_a_lua_error() {
    let lua = mlua::Lua::new();
    lua.load("setmetatable(_G, { __index = function(_, k) error('no ' .. k) end })")
        .exec()
        .unwrap();
    match thread::global_function(&lua, "nope").map_err(resolve) {
        Err(IsleError::Lua(f)) => assert!(f.message.ends_with("no nope"), "got: {}", f.message),
        other => panic!("unexpected: {other:?}"),
    }
}

/// Run a closure as a request that was not cancelled.
fn exec<T>(
    lua: &mlua::Lua,
    f: impl FnOnce(&mlua::Lua) -> mlua::Result<T>,
) -> Result<T, IsleError> {
    let result = f(lua).map_err(|e| IsleError::from_mlua(&e, false));
    thread::cancelled_wins(result, false)
}

#[test]
fn exec_closure() {
    let lua = mlua::Lua::new();
    let result: i64 = exec(&lua, |lua| lua.load("return 7 * 6").eval()).unwrap();
    assert_eq!(result, 42);
}

#[test]
fn typed_results_exec_returns_a_caller_chosen_type() {
    let lua = probes();
    let r: (i64, bool) = exec(&lua, |lua| {
        let n: i64 = lua.load("return 40 + 2").eval()?;
        Ok((n, true))
    })
    .unwrap();
    assert_eq!(r, (42, true));
}

#[test]
fn exec_converts_a_table_on_the_vm_thread() {
    let lua = probes();
    let v: Vec<i64> = exec(&lua, |lua| {
        let t: mlua::Table = lua.load("return { 1, 2, 3 }").eval()?;
        t.sequence_values::<i64>().collect::<mlua::Result<_>>()
    })
    .unwrap();
    assert_eq!(v, [1, 2, 3]);
}

#[test]
fn spawn_forms_carry_the_type() {
    let lua = probes();
    let mut tree = TokenTree::new();
    let mut task = || Task::new(CancelToken::new(&mut tree));
    assert_eq!(task().wait::<i64>(Some(eval(&lua, "return 6 * 7"))).unwrap(), 42);
    let r = call::<String>(&lua, "types", (1, "x", false));
    assert_eq!(task().wait(Some(r)).unwrap(), "numberstringboolean");
    let r = exec(&lua, |_| Ok((1u8, 'c')));
    assert_eq!(task().wait(Some(r)).unwrap(), (1, 'c'));
}
