//! Errors: what an `mlua::Error` or a raised Lua value becomes.

use mlua_isle::lua::Calls;
use mlua_isle::error::{panic_message, split_traceback, Fault, LuaError, PanicPayload};
use mlua_isle::protect::{self, Parts, Wrap};
use mlua_isle::{handle, thread, Cancelled, IsleError, LuaErrorKind, LuaFailure};
use std::sync::Arc;

/// A host error.
#[derive(Debug)]
struct MyErr(u32);

impl std::fmt::Display for MyErr {
    fn fmt(&self, f: &mut std::fmt::Formatter<'_>) -> std::fmt::Result {
        f.write_str(&format!("my error {}", self.0))
    }
}

impl std::error::Error for MyErr {}

/// What a cancel is raised as.
#[derive(Debug)]
struct CancelMark;

impl std::fmt::Display for CancelMark {
    fn fmt(&self, f: &mut std::fmt::Formatter<'_>) -> std::fmt::Result {
        f.write_str("cancelled")
    }
}

impl std::error::Error for CancelMark {}

fn is_cancel(e: &mlua::Error) -> bool {
    e.downcast_ref::<CancelMark>().is_some()
}

fn resolve(fault: Fault) -> IsleError {
    let cancel = fault.error().is_some_and(is_cancel);
    fault.resolve(cancel)
}

/// A message handler and its `take`, as host functions.
fn host_functions(lua: &mlua::Lua) -> (mlua::Function, mlua::Function) {
    let traces = lua.create_table().unwrap();
    let kept = traces.clone();
    let handler = lua
        .create_function(move |lua, err: mlua::Value| {
            kept.raw_set(1, err.clone())?;
            kept.raw_set(2, lua.traceback(None, 1)?)?;
            Ok(err)
        })
        .unwrap();
    let take = lua
        .create_function(move |_, err: mlua::Value| {
            let seen: mlua::Value = traces.raw_get(1)?;
            let trace: mlua::Value = traces.raw_get(2)?;
            traces.raw_set(1, mlua::Value::Nil)?;
            traces.raw_set(2, mlua::Value::Nil)?;
            if err.is_nil() || seen != err {
                return Ok((false, mlua::Value::Nil));
            }
            Ok((true, trace))
        })
        .unwrap();
    (handler, take)
}

/// A VM that requests are run on.
struct Vm {
    lua: mlua::Lua,
    protect: protect::Protect,
}

impl Vm {
    fn new(init: impl FnOnce(&mlua::Lua) -> mlua::Result<()>) -> Vm {
        let lua = mlua::Lua::new();
        let (handler, take) = host_functions(&lua);
        let protect = protect::install(&lua, handler, take).unwrap();
        init(&lua).unwrap();
        Vm { lua, protect }
    }

    fn parts(&self) -> Parts {
        protect::parts(&self.lua, &self.protect).map_err(resolve).unwrap()
    }

    fn eval<T: mlua::FromLuaMulti>(&self, code: &str) -> Result<T, IsleError> {
        let values = thread::eval(&self.lua, &self.parts(), code, &mut Calls::new(self.lua.clone())).map_err(resolve)?;
        T::from_lua_multi(values, &self.lua).map_err(|e| IsleError::from_mlua(&e, is_cancel(&e)))
    }

    fn call<T: mlua::FromLuaMulti>(
        &self,
        name: &str,
        args: impl mlua::IntoLuaMulti,
    ) -> Result<T, IsleError> {
        let args = args.into_lua_multi(&self.lua).unwrap();
        let values = thread::call(&self.lua, &self.parts(), name, args, &mut Calls::new(self.lua.clone())).map_err(resolve)?;
        T::from_lua_multi(values, &self.lua).map_err(|e| IsleError::from_mlua(&e, is_cancel(&e)))
    }

    /// Run `code` as a root, to its end.
    fn run(&self, code: &str, cancelled: bool) -> Result<mlua::MultiValue, IsleError> {
        let func = match self.lua.load(code).into_function() {
            Ok(f) => f,
            Err(e) => return Err(IsleError::from_mlua(&e, is_cancel(&e))),
        };
        let mark = self.lua.create_function(|_, ()| Ok(())).unwrap();
        let body = protect::lua_body(&self.lua, Wrap::Call(self.parts()), func, mark, &mut Calls::new(self.lua.clone()))
            .map_err(resolve)?;
        let out = body.call::<mlua::MultiValue>(());
        protect::root_outcome(&self.lua, cancelled, Some(out)).map_err(resolve)
    }
}

fn failure<T: std::fmt::Debug>(r: Result<T, IsleError>) -> LuaFailure {
    match r {
        Err(IsleError::Lua(f)) => f,
        other => panic!("expected IsleError::Lua, got: {other:?}"),
    }
}

fn assert_send_sync<T: Send + Sync + 'static>() {}

#[test]
fn error_types_are_send_sync() {
    assert_send_sync::<IsleError>();
    assert_send_sync::<LuaFailure>();
    assert_send_sync::<Cancelled>();
}

#[test]
fn cancel_is_found_through_callback_error() {
    let wrapped = mlua::Error::CallbackError {
        traceback: String::new(),
        cause: Arc::new(mlua::Error::external(CancelMark)),
    };
    assert!(matches!(
        IsleError::from_mlua(&wrapped, is_cancel(&wrapped)),
        IsleError::Cancelled
    ));
    let plain = mlua::Error::runtime("__isle_cancelled__");
    assert!(matches!(
        IsleError::from_mlua(&plain, is_cancel(&plain)),
        IsleError::Lua(_)
    ));
}

#[test]
fn nested_messages_carry_no_traceback() {
    let inner = mlua::Error::runtime("x:1: boom\nstack traceback:\n\t[C]: in ?");
    let cb = mlua::Error::CallbackError {
        traceback: "stack traceback:\n\t[C]: in f".into(),
        cause: Arc::new(inner.clone()),
    };
    let f = LuaFailure::from_mlua(&cb);
    assert_eq!(f.kind, LuaErrorKind::Callback);
    assert_eq!(f.message, "x:1: boom");
    assert_eq!(f.traceback.as_deref(), Some("stack traceback:\n\t[C]: in f"));

    let ctx = mlua::Error::WithContext {
        context: "while loading".into(),
        cause: Arc::new(inner),
    };
    let f = LuaFailure::from_mlua(&ctx);
    assert_eq!(f.kind, LuaErrorKind::Runtime);
    assert_eq!(f.message, "while loading\nx:1: boom");
    assert!(f.traceback.is_some());
}

#[test]
fn runtime_error_traceback_is_split() {
    let f = LuaFailure::from_mlua(&mlua::Error::runtime(
        "x:1: boom\nstack traceback:\n\t[C]: in ?",
    ));
    assert_eq!(f.kind, LuaErrorKind::Runtime);
    assert_eq!(f.message, "x:1: boom");
    assert_eq!(f.traceback.as_deref(), Some("stack traceback:\n\t[C]: in ?"));
}

#[test]
fn a_message_without_a_traceback_is_kept_whole() {
    assert_eq!(
        split_traceback("just text"),
        ("just text".to_string(), None)
    );
    // The first mark decides.
    assert_eq!(
        split_traceback("a\nstack traceback:\nb\nstack traceback:\nc"),
        (
            "a".to_string(),
            Some("stack traceback:\nb\nstack traceback:\nc".to_string())
        )
    );
    // Text beyond ASCII.
    assert_eq!(
        split_traceback("è\nstack traceback: ü"),
        ("è".to_string(), Some("stack traceback: ü".to_string()))
    );
}

#[test]
fn the_innermost_callback_error_decides() {
    let e = mlua::Error::CallbackError {
        traceback: "outer".into(),
        cause: Arc::new(mlua::Error::CallbackError {
            traceback: "inner".into(),
            cause: Arc::new(mlua::Error::external(MyErr(1))),
        }),
    };
    let f = LuaFailure::from_mlua(&e);
    assert_eq!(f.kind, LuaErrorKind::Callback);
    assert_eq!(f.message, "my error 1");
    assert_eq!(f.traceback.as_deref(), Some("inner"));

    // An empty traceback gives way to that of the cause.
    let e = mlua::Error::CallbackError {
        traceback: String::new(),
        cause: Arc::new(mlua::Error::runtime("m\nstack traceback:\nt")),
    };
    let f = LuaFailure::from_mlua(&e);
    assert_eq!(f.message, "m");
    assert_eq!(f.traceback.as_deref(), Some("stack traceback:\nt"));
}

#[test]
fn every_error_variant_has_its_kind() {
    let syntax = mlua::Error::SyntaxError {
        message: "bad chunk".into(),
        incomplete_input: false,
    };
    let conversion = mlua::Error::FromLuaConversionError {
        from: "nil",
        to: "String".into(),
        message: None,
    };
    let argument = mlua::Error::BadArgument {
        to: None,
        pos: 1,
        name: None,
        cause: Arc::new(mlua::Error::runtime("x")),
    };
    let cases = vec![
        (syntax, LuaErrorKind::Syntax),
        (mlua::Error::MemoryError("no memory".into()), LuaErrorKind::Memory),
        (mlua::Error::external(MyErr(2)), LuaErrorKind::External),
        (conversion, LuaErrorKind::Conversion),
        (argument, LuaErrorKind::Conversion),
        (mlua::Error::SerializeError("s".into()), LuaErrorKind::Conversion),
        (mlua::Error::DeserializeError("d".into()), LuaErrorKind::Conversion),
        (mlua::Error::CoroutineUnresumable, LuaErrorKind::Other),
    ];
    for (e, kind) in cases {
        let f = LuaFailure::from_mlua(&e);
        assert_eq!(f.kind, kind, "{e:?}");
        assert_eq!(f.traceback, None);
        assert_eq!(f.value, None);
        match e {
            mlua::Error::SyntaxError { message, .. } => assert_eq!(f.message, message),
            mlua::Error::MemoryError(message) => assert_eq!(f.message, message),
            other => assert_eq!(f.message, other.to_string()),
        }
    }
}

#[test]
fn plain_errors_become_the_same_failures() {
    let e = LuaError::WithContext {
        context: "ctx".to_string(),
        cause: Box::new(LuaError::Callback {
            traceback: "tb".to_string(),
            cause: Box::new(LuaError::Other("odd".to_string())),
        }),
    };
    let f = LuaFailure::from_lua_error(&e);
    assert_eq!(f.kind, LuaErrorKind::Callback);
    assert_eq!(f.message, "ctx\nodd");
    assert_eq!(f.traceback.as_deref(), Some("tb"));
}

#[test]
fn isle_error_display() {
    let f = LuaFailure::new(LuaErrorKind::Runtime, "boom".into());
    assert_eq!(IsleError::Lua(f.clone()).to_string(), "lua error: boom");
    assert_eq!(IsleError::Init(f).to_string(), "init error: boom");
    assert_eq!(
        IsleError::NotFound("f".into()).to_string(),
        "function 'f' not found"
    );
    assert_eq!(
        IsleError::ThreadPanic(Some("x".into())).to_string(),
        "lua thread panicked: x"
    );
    assert_eq!(
        IsleError::ThreadPanic(None).to_string(),
        "lua thread panicked"
    );
    assert_eq!(IsleError::RecvFailed.to_string(), "recv failed");
}

#[test]
fn the_other_errors_print_too() {
    assert_eq!(IsleError::Shutdown.to_string(), "isle shut down");
    assert_eq!(IsleError::Cancelled.to_string(), "cancelled");
    assert_eq!(
        IsleError::ChannelFull.to_string(),
        "channel full (backpressure)"
    );
    assert_eq!(
        IsleError::PoolExhausted(1024).to_string(),
        "pool exhausted (max_size=1024)"
    );
    assert_eq!(
        IsleError::PoolExhausted(0).to_string(),
        "pool exhausted (max_size=0)"
    );
    assert_eq!(
        IsleError::PoolPoisoned("p".into()).to_string(),
        "pool lock poisoned: p"
    );
    assert_eq!(Cancelled.to_string(), "cancelled");
    let f = LuaFailure::new(LuaErrorKind::Other, "m".into());
    assert_eq!(f.to_string(), "m");
}

#[test]
fn panic_payloads_have_a_message_when_they_are_text() {
    assert_eq!(
        panic_message(&PanicPayload::Str("lit")),
        Some("lit".to_string())
    );
    assert_eq!(
        panic_message(&PanicPayload::Text("made".into())),
        Some("made".to_string())
    );
    assert_eq!(panic_message(&PanicPayload::Other), None);
}

#[test]
fn eval_raised_table_is_a_lua_failure_with_its_value() {
    let vm = Vm::new(|_| Ok(()));
    let f = failure(vm.eval::<()>(
        "error(setmetatable({ code = 42 }, { __tostring = function() return 'E42' end }))",
    ));
    assert_eq!(f.kind, LuaErrorKind::Runtime);
    assert_eq!(f.message, "E42");
    assert_eq!(f.to_string(), "E42");
    assert!(
        f.traceback.as_deref().unwrap_or("").contains("stack traceback"),
        "traceback: {:?}",
        f.traceback
    );
    assert_eq!(f.value.as_ref().unwrap()["code"], 42);

    // Without `__tostring` the message is what `tostring` gives.
    let f = failure(vm.eval::<()>("error({ code = 42 })"));
    assert!(f.message.starts_with("table: "), "got: {}", f.message);
    assert_eq!(f.value.as_ref().unwrap()["code"], 42);
}

#[test]
fn eval_string_error_and_syntax_error_kinds() {
    let vm = Vm::new(|_| Ok(()));
    let f = failure(vm.eval::<()>("error('boom')"));
    assert_eq!(f.kind, LuaErrorKind::Runtime);
    assert!(f.message.ends_with(": boom"), "got: {}", f.message);
    assert_eq!(f.value, Some(serde_json::Value::String(f.message.clone())));

    let f = failure(vm.eval::<()>("x = = 1"));
    assert_eq!(f.kind, LuaErrorKind::Syntax);
    assert!(!f.message.is_empty());
}

#[test]
fn eval_host_function_error_is_a_callback_failure() {
    let vm = Vm::new(|lua| {
        let fail = lua.create_function(|_, ()| -> mlua::Result<()> {
            Err(mlua::Error::external(MyErr(7)))
        })?;
        lua.globals().set("fail", fail)
    });
    let f = failure(vm.eval::<()>("fail()"));
    assert_eq!(f.kind, LuaErrorKind::Callback);
    assert_eq!(f.message, "my error 7");
    assert!(f.traceback.is_some());
    assert_eq!(f.value, None);
}

#[test]
fn eval_error_with_the_old_sentinel_is_not_a_cancel() {
    let vm = Vm::new(|_| Ok(()));
    let f = failure(vm.eval::<()>("error('__isle_cancelled__')"));
    assert!(
        f.message.ends_with("__isle_cancelled__"),
        "got: {}",
        f.message
    );
}

#[test]
fn eval_lua_error_propagates() {
    let vm = Vm::new(|_| Ok(()));
    let result = vm.eval::<()>("error('boom')");
    assert!(result.is_err());
    let err = result.unwrap_err();
    assert!(
        err.to_string().contains("boom"),
        "expected 'boom' in error, got: {err:?}"
    );
}

#[test]
fn call_of_a_missing_global_is_not_found() {
    let vm = Vm::new(|lua| lua.globals().set("n", 1));
    assert!(matches!(vm.call::<()>("nope", ()), Err(IsleError::NotFound(n)) if n == "nope"));
    assert!(matches!(vm.call::<()>("n", ()), Err(IsleError::NotFound(n)) if n == "n"));
}

#[test]
fn init_error_is_a_lua_failure() {
    match handle::init_error(&mlua::Error::runtime("nope")) {
        IsleError::Init(f) => {
            assert_eq!(f.kind, LuaErrorKind::Runtime);
            assert_eq!(f.message, "nope");
        }
        other => panic!("expected Init, got: {other:?}"),
    }
}

#[test]
fn init_error_propagates() {
    let lua = mlua::Lua::new();
    let err = lua.load("this is not valid lua").exec().unwrap_err();
    match handle::init_error(&err) {
        IsleError::Init(f) => {
            assert_eq!(f.kind, LuaErrorKind::Syntax);
            assert!(
                !f.message.is_empty(),
                "init error message should not be empty"
            );
        }
        other => panic!("expected Init error, got: {other:?}"),
    }
}

#[test]
fn an_init_closure_error_is_external() {
    let message = IsleError::NotFound("x".into()).to_string();
    match handle::init_error(&mlua::Error::external(message)) {
        IsleError::Init(f) => {
            assert_eq!(f.kind, LuaErrorKind::External);
            assert_eq!(f.message, "function 'x' not found");
        }
        other => panic!("unexpected: {other:?}"),
    }
}

#[test]
fn sync_eval_survives_init_removing_xpcall() {
    let vm = Vm::new(|lua| lua.globals().set("xpcall", mlua::Value::Nil));
    assert_eq!(vm.eval::<String>("return 1 + 1").unwrap(), "2");
    let f = failure(vm.eval::<()>("error({ code = 1 })"));
    assert_eq!(f.kind, LuaErrorKind::Runtime);
    assert!(f.traceback.is_some());
}

/// Replace the globals with a whitelist that has no `xpcall` and no
/// `table`.
fn sandbox(lua: &mlua::Lua) -> mlua::Result<()> {
    let g = lua.globals();
    let white = lua.create_table()?;
    for name in ["error", "setmetatable", "tostring"] {
        white.set(name, g.get::<mlua::Value>(name)?)?;
    }
    lua.set_globals(white)
}

#[test]
fn sync_eval_survives_whitelisted_globals() {
    let vm = Vm::new(sandbox);
    assert_eq!(vm.eval::<String>("return 40 + 2").unwrap(), "42");
    let f = failure(vm.eval::<()>("error('x')"));
    assert_eq!(f.message, "eval:1: x");
    assert!(f.traceback.is_some(), "the message handler did not run");
}

#[test]
fn pieces_without_xpcall_are_an_init_error() {
    let lua = mlua::Lua::new();
    lua.globals().set("xpcall", mlua::Value::Nil).unwrap();
    let (handler, take) = host_functions(&lua);
    let err = match protect::install(&lua, handler, take) {
        Ok(_) => panic!("installed without xpcall"),
        Err(e) => e,
    };
    assert!(
        matches!(&err, IsleError::Init(f) if f.kind == LuaErrorKind::External),
        "got: {err:?}"
    );
}

#[test]
fn a_cyclic_table_has_no_value_and_keeps_its_message() {
    let vm = Vm::new(|_| Ok(()));
    let f = failure(vm.eval::<()>(
        "local t = setmetatable({}, { __tostring = function() return 'cyclic' end })
             t.self = t
             error(t)",
    ));
    assert_eq!(f.kind, LuaErrorKind::Runtime);
    assert_eq!(f.message, "cyclic");
    assert!(f.traceback.is_some());
    assert_eq!(f.value, None);
}

#[test]
fn a_host_error_through_isle_is_a_callback_failure() {
    let vm = Vm::new(|lua| {
        let fail = lua.create_function(|_, ()| -> mlua::Result<()> {
            Err(mlua::Error::external(MyErr(3)))
        })?;
        lua.globals().set("fail", fail)
    });
    let f = failure(vm.eval::<()>("fail()"));
    assert_eq!(f.kind, LuaErrorKind::Callback);
    assert_eq!(f.message, "my error 3");
}

#[test]
fn run_of_a_raised_table_keeps_its_message_and_value() {
    let vm = Vm::new(|_| Ok(()));
    let f = failure(vm.run("local t = { code = 42 } shown = tostring(t) error(t)", false));
    let shown: String = vm.lua.globals().get("shown").unwrap();
    assert_eq!(f.kind, LuaErrorKind::Runtime);
    assert_eq!(f.message, shown);
    assert!(
        f.traceback.as_deref().unwrap_or("").contains("stack traceback"),
        "traceback: {:?}",
        f.traceback
    );
    assert_eq!(f.value.unwrap()["code"], 42);
}

#[test]
fn run_of_a_table_with_tostring_uses_it() {
    let vm = Vm::new(|_| Ok(()));
    let f = failure(vm.run(
        "error(setmetatable({ code = 7 }, { __tostring = function() return 'custom E7' end }))",
        false,
    ));
    assert_eq!(f.kind, LuaErrorKind::Runtime);
    assert_eq!(f.message, "custom E7");
    assert_eq!(f.value.unwrap()["code"], 7);
}

#[test]
fn run_of_an_unconvertible_value_has_no_value() {
    let vm = Vm::new(|_| Ok(()));
    let f = failure(vm.run("error(function() end)", false));
    assert_eq!(f.kind, LuaErrorKind::Runtime);
    assert!(f.message.starts_with("function: "), "got: {}", f.message);
    assert_eq!(f.value, None);
}

#[test]
fn a_chunk_with_a_syntax_error_is_syntax() {
    let vm = Vm::new(|_| Ok(()));
    let f = failure(vm.run("x = = 1", false));
    assert_eq!(f.kind, LuaErrorKind::Syntax);
}

#[test]
fn a_host_error_is_a_callback_failure_with_its_message() {
    let vm = Vm::new(|lua| {
        let fail = lua.create_function(|_, ()| -> mlua::Result<()> {
            Err(mlua::Error::external(MyErr(7)))
        })?;
        lua.globals().set("fail", fail)
    });
    let f = failure(vm.run("fail()", false));
    assert_eq!(f.kind, LuaErrorKind::Callback);
    assert_eq!(f.message, "my error 7");
    assert!(f.traceback.is_some());
    assert_eq!(f.value, None);
}

#[test]
fn an_error_with_the_old_sentinel_is_not_a_cancel() {
    let vm = Vm::new(|_| Ok(()));
    let f = failure(vm.run("error('__isle_cancelled__')", false));
    assert!(
        f.message.ends_with("__isle_cancelled__"),
        "got: {}",
        f.message
    );
}

#[test]
fn a_root_returns_its_values_unless_it_was_cancelled() {
    let vm = Vm::new(|_| Ok(()));
    let out = vm.run("return 1, 'two'", false).unwrap().into_vec();
    assert_eq!(out.len(), 2);
    assert_eq!(out[0].as_integer(), Some(1));
    let r = vm.run("return 1", true);
    assert!(matches!(r, Err(IsleError::Cancelled)));
    let r = vm.run("error('x')", true);
    assert!(matches!(r, Err(IsleError::Cancelled)));
    let dropped = protect::root_outcome(&vm.lua, false, None).map_err(resolve);
    assert!(matches!(dropped, Err(IsleError::Cancelled)));
}

#[test]
fn what_the_root_wrapper_cannot_return_is_reported() {
    let vm = Vm::new(|_| Ok(()));
    let odd = mlua::MultiValue::from_vec(vec![mlua::Value::Integer(5)]);
    let f = failure(protect::unwrap_root(&vm.lua, odd).map_err(resolve));
    assert_eq!(f.kind, LuaErrorKind::Other);
    assert!(f.message.starts_with("unexpected protected-call result: Some("));
    let none = mlua::MultiValue::new();
    let f = failure(protect::unwrap_root(&vm.lua, none).map_err(resolve));
    assert_eq!(f.message, "unexpected protected-call result: None");
}

#[test]
fn an_error_that_was_not_handled_is_told_by_its_message() {
    let memory = protect::raised("not enough memory".into(), false, Some("t".into()), None);
    assert_eq!(memory.kind, LuaErrorKind::Memory);
    assert_eq!(memory.traceback, None);
    let nested = protect::raised("x error in error handling".into(), false, None, None);
    assert_eq!(nested.kind, LuaErrorKind::Other);
    let other = protect::raised("stack overflow".into(), false, None, None);
    assert_eq!(other.kind, LuaErrorKind::Runtime);
    let json = serde_json::Value::Bool(true);
    let handled = protect::raised("m".into(), true, Some("t".into()), Some(json.clone()));
    assert_eq!(handled.kind, LuaErrorKind::Runtime);
    assert_eq!(handled.traceback.as_deref(), Some("t"));
    assert_eq!(handled.value, Some(json));
}

#[test]
fn raised_values_print_as_lua_prints_them() {
    let lua = mlua::Lua::new();
    let cases = vec![
        (mlua::Value::Nil, "nil"),
        (mlua::Value::Boolean(false), "false"),
        (mlua::Value::Integer(-7), "-7"),
        (mlua::Value::Number(0.5), "0.5"),
    ];
    for (v, text) in cases {
        let fault = protect::error_from_value(&lua, v, false, None);
        assert_eq!(failure::<()>(Err(resolve(fault))).message, text);
    }
    // A string that is not UTF-8.
    let s = lua.create_string(b"a\xff").unwrap();
    let fault = protect::error_from_value(&lua, mlua::Value::String(s), true, None);
    assert_eq!(failure::<()>(Err(resolve(fault))).message, "a\u{fffd}");
}

#[test]
fn a_missing_traceback_is_filled_in() {
    let lua = mlua::Lua::new();
    let v = mlua::Value::Error(Box::new(mlua::Error::runtime("plain")));
    let fault = protect::error_from_value(&lua, v, true, Some("filled".into()));
    let f = failure::<()>(Err(resolve(fault)));
    assert_eq!(f.message, "plain");
    assert_eq!(f.traceback.as_deref(), Some("filled"));
}

#[test]
fn replies_of_take_are_read() {
    let lua = mlua::Lua::new();
    let read = |reply: Vec<mlua::Value>| protect::trace_of(&lua, reply);
    let text = mlua::Value::String(lua.create_string("trace").unwrap());
    assert_eq!(
        read(vec![mlua::Value::Boolean(true), text]).unwrap(),
        (true, Some("trace".to_string()))
    );
    assert_eq!(read(vec![mlua::Value::Boolean(false)]).unwrap(), (false, None));
    assert_eq!(read(Vec::new()).unwrap(), (false, None));
    assert_eq!(
        read(vec![mlua::Value::Integer(0), mlua::Value::Nil]).unwrap(),
        (true, None)
    );
    // A number is coerced, as Lua does it; anything else is an error.
    assert_eq!(
        read(vec![mlua::Value::Boolean(true), mlua::Value::Integer(7)]).unwrap(),
        (true, Some("7".to_string()))
    );
    let err = read(vec![mlua::Value::Boolean(true), mlua::Value::Boolean(true)]).unwrap_err();
    assert_eq!(
        LuaFailure::from_mlua(&err).kind,
        LuaErrorKind::Conversion,
        "got: {err}"
    );
}

/// Code that allocates until a 1 MiB memory limit is hit.
const ALLOC_LOOP: &str = "local t = {} for i = 1, 1e8 do t[i] = tostring(i) end";

/// Raises `E0`, then its `<close>` handler runs out of memory during the
/// unwind (a memory error does not go through the message handler).
const CLOSE_OOM: &str = "local c <close> = setmetatable({}, { __close = function()
  local t = {} for i = 1, 1e8 do t[i] = tostring(i) end
end })
error('E0')";

#[test]
fn sync_memory_error_is_memory() {
    let vm = Vm::new(|lua| lua.set_memory_limit(1 << 20).map(drop));
    let f = failure(vm.eval::<()>(ALLOC_LOOP));
    assert_eq!(f.kind, LuaErrorKind::Memory, "got: {f:?}");
    assert_eq!(f.traceback, None);
    // The VM still serves.
    assert_eq!(vm.eval::<String>("return 1").unwrap(), "1");
}

#[test]
fn sync_memory_error_in_close_after_an_error_is_memory() {
    let vm = Vm::new(|lua| lua.set_memory_limit(1 << 20).map(drop));
    let f = failure(vm.eval::<()>(CLOSE_OOM));
    assert_eq!(f.kind, LuaErrorKind::Memory, "got: {f:?}");
    assert_eq!(f.traceback, None);
    assert_eq!(vm.eval::<String>("return 1").unwrap(), "1");
}

/// An error of the library's, raised by a host function.
#[derive(Debug)]
struct Raised(IsleError);

impl std::fmt::Display for Raised {
    fn fmt(&self, f: &mut std::fmt::Formatter<'_>) -> std::fmt::Result {
        f.write_str(&self.0.to_string())
    }
}

impl std::error::Error for Raised {}

#[test]
fn a_host_function_error_round_trips_as_a_callback_failure() {
    let vm = Vm::new(|lua| {
        let fail = lua.create_function(|_, ()| -> mlua::Result<()> {
            Err(mlua::Error::external(Raised(IsleError::Lua(
                LuaFailure::new(LuaErrorKind::Runtime, "boom".into()),
            ))))
        })?;
        lua.globals().set("fail", fail)
    });
    let f = failure(vm.eval::<()>("fail()"));
    assert_eq!(f.kind, LuaErrorKind::Callback);
    assert_eq!(f.message, "lua error: boom");
}

const RAISE: &str =
    "error(setmetatable({ code = 42 }, { __tostring = function() return 'E42' end }))";

fn assert_e42(f: &LuaFailure) {
    assert_eq!(f.kind, LuaErrorKind::Runtime);
    assert_eq!(f.message, "E42");
    assert!(f.traceback.is_some());
    assert_eq!(f.value.as_ref().unwrap()["code"], 42);
}

#[test]
fn vm_run_carries_the_same_failure_as_the_actors() {
    let vm = Vm::new(|lua| lua.load(format!("function raise() {RAISE} end")).exec());
    assert_e42(&failure(vm.run(RAISE, false)));
    assert_e42(&failure(vm.eval::<()>(RAISE)));
    assert_e42(&failure(vm.call::<()>("raise", ())));
}

#[test]
fn a_protected_call_clears_then_calls_then_takes() {
    let lua = mlua::Lua::new();
    let log = Arc::new(std::sync::Mutex::new(Vec::new()));
    let (h, t) = (log.clone(), log.clone());
    let handler = lua
        .create_function(move |_, e: mlua::Value| {
            h.lock().unwrap().push("handler".to_string());
            Ok(e)
        })
        .unwrap();
    let take = lua
        .create_function(move |_, e: mlua::Value| {
            t.lock().unwrap().push(format!("take {}", e.to_string()?));
            Ok((!e.is_nil(), "trace"))
        })
        .unwrap();
    let pieces = protect::install(&lua, handler, take).unwrap();
    let parts = protect::parts(&lua, &pieces).map_err(resolve).unwrap();
    let mut calls = Calls::new(lua.clone());
    let fault = thread::eval(&lua, &parts, "error('x', 0)", &mut calls).unwrap_err();
    let f = failure::<()>(Err(resolve(fault)));
    assert_eq!(f.message, "x");
    assert_eq!(f.traceback.as_deref(), Some("trace"));
    assert_eq!(*log.lock().unwrap(), vec!["take nil", "handler", "take x"]);
    log.lock().unwrap().clear();
    assert!(thread::eval(&lua, &parts, "return 1", &mut calls).is_ok());
    assert_eq!(*log.lock().unwrap(), vec!["take nil"]);
}
