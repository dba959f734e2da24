//! The Lua `task` library over tasks that run when they are joined.

use mlua::{Function, Lua, MultiValue, Table, Value, Variadic};
use mlua_isle::lua::Calls;
use mlua_isle::error::Fault;
use mlua_isle::protect::{self, Wrap};
use mlua_isle::task_lib::{self, HostFunctions, Registry};
use mlua_isle::{thread, IsleError};
use std::cell::{Cell, RefCell};
use std::rc::Rc;

/// What a cancel is raised as.
#[derive(Debug)]
struct CancelMark;

impl std::fmt::Display for CancelMark {
    fn fmt(&self, f: &mut std::fmt::Formatter<'_>) -> std::fmt::Result {
        f.write_str("cancelled")
    }
}

impl std::error::Error for CancelMark {}

fn is_cancel(e: &mlua::Error) -> bool {
    e.downcast_ref::<CancelMark>().is_some()
}

fn resolve(fault: Fault) -> IsleError {
    let cancel = fault.error().is_some_and(is_cancel);
    fault.resolve(cancel)
}

/// A task that has not been run yet.
#[derive(Clone)]
struct Pending {
    body: Function,
    args: MultiValue,
    cancelled: Rc<Cell<bool>>,
}

/// Whether requests can spawn.
type InScope = Rc<Cell<bool>>;

fn spawn(
    lua: &Lua,
    tasks: &RefCell<Registry<Pending>>,
    in_scope: &InScope,
    f: Function,
    args: Variadic<Value>,
) -> mlua::Result<u64> {
    if !in_scope.get() {
        return Err(task_lib::not_in_a_scope());
    }
    let mark = lua.create_function(|_, ()| Ok(()))?;
    let body = match protect::lua_body(lua, Wrap::PCall, f, mark, &mut Calls::new(lua.clone())) {
        Ok(body) => body,
        Err(_) => return Err(mlua::Error::runtime("no body")),
    };
    Ok(tasks.borrow_mut().insert(Pending {
        body,
        args: MultiValue::from_iter(args),
        cancelled: Rc::new(Cell::new(false)),
    }))
}

fn join(tasks: &RefCell<Registry<Pending>>, marker: Table, id: u64) -> mlua::Result<MultiValue> {
    let task = tasks.borrow().get(id)?.clone();
    tasks.borrow_mut().remove(id);
    let out = if task.cancelled.get() {
        None
    } else {
        Some(task.body.call::<MultiValue>(task.args))
    };
    let result = task_lib::task_result(out, task.cancelled.get());
    Ok(task_lib::join_result(result, marker))
}

/// A VM with `task`, `sleep` (which does not), and `fail`.
fn vm() -> (Lua, InScope) {
    let lua = Lua::new();
    let in_scope: InScope = Rc::new(Cell::new(true));
    let tasks = Rc::new(RefCell::new(Registry::new()));
    let marker = lua.create_table().unwrap();
    let (s, scope) = (tasks.clone(), in_scope.clone());
    let (j, m) = (tasks.clone(), marker.clone());
    let (c, d, r) = (tasks.clone(), tasks.clone(), tasks);
    let host = HostFunctions {
        spawn: lua
            .create_function(move |lua, (f, args): (Function, Variadic<Value>)| {
                spawn(lua, &s, &scope, f, args)
            })
            .unwrap(),
        join: lua
            .create_function(move |_, id: u64| join(&j, m.clone(), id))
            .unwrap(),
        cancel: lua
            .create_function(move |_, id: u64| {
                c.borrow().get(id)?.cancelled.set(true);
                Ok(())
            })
            .unwrap(),
        done: lua
            .create_function(move |_, id: u64| d.borrow().get(id).map(|_| false))
            .unwrap(),
        release: lua
            .create_function(move |_, id: u64| {
                r.borrow_mut().remove(id);
                Ok(())
            })
            .unwrap(),
        is_cancel_error: lua
            .create_function(|_, v: Value| {
                Ok(task_lib::raised_error(&v).is_some_and(|e| is_cancel(&e)))
            })
            .unwrap(),
    };
    let table = task_lib::create(&lua, host, marker, &mut Calls::new(lua.clone())).map_err(resolve).unwrap();
    lua.globals().set("task", table).unwrap();
    let sleep = lua.create_function(|_, _: u64| Ok(())).unwrap();
    lua.globals().set("sleep", sleep).unwrap();
    let fail = lua
        .create_function(|_, ()| -> mlua::Result<()> { Err(mlua::Error::runtime("host")) })
        .unwrap();
    lua.globals().set("fail", fail).unwrap();
    let raise = lua
        .create_function(|_, ()| -> mlua::Result<()> { Err(mlua::Error::external(CancelMark)) })
        .unwrap();
    lua.globals().set("raise_cancel", raise).unwrap();
    (lua, in_scope)
}

/// Run `code` as a root, to its end.
fn run(lua: &Lua, code: &str) -> Result<MultiValue, IsleError> {
    let func = thread::load_coroutine(lua, code).map_err(|e| IsleError::from_mlua(&e, false))?;
    run_root(lua, func, MultiValue::new())
}

/// Run `func` as a root, to its end.
fn run_root(lua: &Lua, func: Function, args: MultiValue) -> Result<MultiValue, IsleError> {
    let handler = lua.create_function(|_, e: Value| Ok(e)).unwrap();
    let take = lua.create_function(|_, _: Value| Ok(true)).unwrap();
    let pieces = protect::install(lua, handler, take)?;
    let parts = protect::parts(lua, &pieces).map_err(resolve)?;
    let mark = lua.create_function(|_, ()| Ok(())).unwrap();
    let body = protect::lua_body(lua, Wrap::Call(parts), func, mark, &mut Calls::new(lua.clone())).map_err(resolve)?;
    protect::root_outcome(lua, false, Some(body.call(args))).map_err(resolve)
}

fn text(lua: &Lua, code: &str) -> String {
    let out = run(lua, code).unwrap();
    thread::lua_value_to_string(lua, thread::first_value(out), &mut Calls::new(lua.clone()))
        .map_err(resolve)
        .unwrap()
}

#[test]
fn join_returns_all_values() {
    let (lua, _) = vm();
    let r = text(
        &lua,
        "local h = task.spawn(function(a, b) sleep(5) return a + b, a * b end, 3, 4)
         local ok, s, p = h:join()
         return tostring(ok) .. ' ' .. s .. ' ' .. p",
    );
    assert_eq!(r, "true 7 12");
}

#[test]
fn join_keeps_the_raw_error_value() {
    let (lua, _) = vm();
    let r = text(
        &lua,
        "local h = task.spawn(function() error({ code = 42 }) end)
         local ok, err = h:join()
         return tostring(ok) .. ' ' .. type(err) .. ' ' .. err.code",
    );
    assert_eq!(r, "false table 42");
}

#[test]
fn a_task_error_value_is_unchanged() {
    let (lua, _) = vm();
    let out = run(
        &lua,
        "local h = task.spawn(function() error({ code = 42 }) end)
         local ok, e = h:join()
         return ok, e.code",
    )
    .unwrap();
    assert_eq!(out[0].as_boolean(), Some(false));
    assert_eq!(out[1].as_i64(), Some(42));
}

#[test]
fn second_join_is_an_error() {
    let (lua, _) = vm();
    let err = run(&lua, "local h = task.spawn(function() end) h:join() h:join()").unwrap_err();
    assert!(err.to_string().contains("already joined"), "got: {err:?}");
}

#[test]
fn cancelled_task_joins_as_cancelled() {
    let (lua, _) = vm();
    let r = text(
        &lua,
        "local h = task.spawn(function() sleep(5000) end)
         sleep(10)
         h:cancel()
         local ok, err = h:join()
         return tostring(ok) .. ' ' .. tostring(err == task.CANCELLED) .. ' ' .. tostring(h:done())",
    );
    assert_eq!(r, "false true true");
}

#[test]
fn spawn_in_a_sync_request_is_an_error() {
    let (lua, in_scope) = vm();
    in_scope.set(false);
    let err = run(&lua, "task.spawn(function() end)").unwrap_err();
    assert!(
        err.to_string()
            .contains("not inside a coroutine request or task"),
        "got: {err:?}"
    );
}

#[test]
fn join_of_a_cancelled_task_still_returns_task_cancelled() {
    let (lua, _) = vm();
    let out = run(
        &lua,
        "local h = task.spawn(function() sleep(5000) end)
         sleep(5)
         h:cancel()
         local ok, e = h:join()
         local _, host = pcall(fail)
         return ok, rawequal(e, task.CANCELLED), task.is_cancelled(e),
                task.is_cancelled(task.CANCELLED),
                task.is_cancelled('some string'), task.is_cancelled(nil),
                task.is_cancelled({}), task.is_cancelled(host)",
    )
    .unwrap();
    let got: Vec<Option<bool>> = out.iter().map(|v| v.as_boolean()).collect();
    assert_eq!(
        got,
        vec![
            Some(false),
            Some(true),
            Some(true),
            Some(true),
            Some(false),
            Some(false),
            Some(false),
            Some(false),
        ]
    );
}

#[test]
fn a_host_that_raises_cancelled_is_recognised_by_value() {
    let (lua, _) = vm();
    let r = run(&lua, "raise_cancel()");
    assert!(matches!(r, Err(IsleError::Cancelled)), "got: {r:?}");
    // And Lua sees it as a cancel too.
    let out = run(
        &lua,
        "local ok, e = pcall(raise_cancel) return task.is_cancelled(e)",
    )
    .unwrap();
    assert_eq!(out[0].as_boolean(), Some(true));
}

#[test]
fn a_task_wrapper_goes_by_no_name_of_its_own() {
    let (lua, _) = vm();
    let f = lua.create_function(|_, ()| Ok(())).unwrap();
    let mark = lua.create_function(|_, ()| Ok(())).unwrap();
    let body = protect::lua_body(&lua, Wrap::PCall, f, mark, &mut Calls::new(lua.clone()))
        .map_err(resolve)
        .unwrap();
    assert!(body.info().source.unwrap_or_default().starts_with('@'));
}

#[test]
fn run_root_drives_tasks_on_a_vm_you_own() {
    let (lua, _) = vm();
    let f: Function = lua
        .load(
            "return function(x)
               local h = task.spawn(function() return x * 2 end)
               local ok, v = h:join()
               return v
             end",
        )
        .eval()
        .unwrap();
    let out = run_root(&lua, f, MultiValue::from_vec(vec![Value::Integer(21)])).unwrap();
    let v: i64 = out
        .into_iter()
        .next()
        .and_then(|v| v.as_i64())
        .unwrap();
    assert_eq!(v, 42);
}

#[test]
fn root_run_root_runs_on_an_unattached_vm() {
    let (lua, _) = vm();
    let f: Function = lua
        .load("return function(x) local _, v = task.spawn(function() return x * 2 end):join() return v end")
        .eval()
        .unwrap();
    let out = run_root(&lua, f, MultiValue::from_vec(vec![Value::Integer(21)])).unwrap();
    assert_eq!(out[0].as_i64(), Some(42));
}
