//! The life of a VM thread, the builder, and the task library.

use mlua_isle::lua::Calls;
use mlua_isle::error::PanicPayload;
use mlua_isle::handle::{
    answer, is_alive, next_request, serve, setup_error, shutdown_outcome, spawn_outcome, try_send_to_isle_error,
    Join, Received, Refusal, Startup,
};
use mlua_isle::hook::TokenTree;
use mlua_isle::runtime::Config;
use mlua_isle::task_lib::{self, HostFunctions, Registry};
use mlua_isle::{AsyncIsleBuilder, CancelToken, IsleError, LuaErrorKind, Task};
use tokio::sync::mpsc::error::TrySendError;

#[test]
fn setup_steps_come_in_order() {
    let s = Startup::Protect.advance(Ok(()), false);
    assert!(matches!(s, Startup::Init));
    let s = s.advance(Ok(()), false);
    assert!(matches!(s, Startup::Attach));
    assert!(matches!(s.advance(Ok(()), false), Startup::Serving));
    let s = Startup::Attach.advance(Ok(()), true);
    assert!(matches!(s, Startup::Runtime));
    assert!(matches!(s.advance(Ok(()), true), Startup::Serving));
}

#[test]
fn the_first_failure_ends_the_setup() {
    let s = Startup::Init.advance(Err(setup_error("no thread".into())), false);
    let s = s.advance(Ok(()), false);
    match s {
        Startup::Failed(IsleError::Init(f)) => {
            assert_eq!(f.kind, LuaErrorKind::External);
            assert_eq!(f.message, "no thread");
        }
        _ => panic!("expected Failed"),
    }
    assert!(matches!(
        Startup::Serving.advance(Err(IsleError::Shutdown), false),
        Startup::Serving
    ));
}

#[test]
fn init_panic_is_thread_panic_with_the_message() {
    let err = spawn_outcome(None, Some(PanicPayload::Str("init boom"))).unwrap_err();
    assert!(
        matches!(&err, IsleError::ThreadPanic(Some(m)) if m == "init boom"),
        "got: {err:?}"
    );
    assert!(matches!(
        spawn_outcome(None, None),
        Err(IsleError::ThreadPanic(None))
    ));
    assert!(spawn_outcome(Some(Ok(())), None).is_ok());
}

#[test]
fn a_shutdown_reports_a_panic() {
    let p = Join::Panicked(PanicPayload::Text("request boom".into()));
    let err = shutdown_outcome(p).unwrap_err();
    assert!(
        matches!(&err, IsleError::ThreadPanic(Some(m)) if m == "request boom"),
        "got: {err:?}"
    );
    assert!(shutdown_outcome(Join::Ended).is_ok());
    assert!(shutdown_outcome(Join::Gone).is_ok());
    assert!(matches!(
        shutdown_outcome(Join::Poisoned),
        Err(IsleError::ThreadPanic(None))
    ));
}

#[test]
fn a_thread_is_alive_until_it_has_finished() {
    assert!(is_alive(Some(false)));
    assert!(!is_alive(Some(true)));
    assert!(!is_alive(None));
}

#[test]
fn refused_requests_have_their_error() {
    assert!(matches!(
        try_send_to_isle_error(Refusal::Full),
        IsleError::ChannelFull
    ));
    assert!(matches!(
        try_send_to_isle_error(Refusal::Closed),
        IsleError::Shutdown
    ));
}

#[test]
fn the_loop_ends_at_a_shutdown_or_a_disconnect() {
    assert_eq!(next_request(Received::Run(3)), Some(3));
    assert_eq!(next_request::<i32>(Received::Shutdown), None);
    assert_eq!(next_request::<i32>(Received::Disconnected), None);
}

#[test]
fn the_builder_keeps_what_it_is_given() {
    let (capacity, name, config) = AsyncIsleBuilder::default().build();
    assert_eq!((capacity, name.as_str()), (256, "mlua-isle-async"));
    assert!(config.is_none());
    let wanted = Config {
        preempt_every: Some(4),
        ..Config::default()
    };
    let (capacity, name, config) = AsyncIsleBuilder::default()
        .channel_capacity(64)
        .thread_name("my-lua-worker")
        .config(wanted)
        .build();
    assert_eq!((capacity, name.as_str()), (64, "my-lua-worker"));
    assert_eq!(config, Some(wanted));
}

#[test]
fn the_registry_gives_out_numbers_once() {
    let mut r: Registry<&str> = Registry::new();
    let a = r.insert("a");
    let b = r.insert("b");
    assert_eq!((a, b), (0, 1));
    assert_eq!(*r.get(a).unwrap(), "a");
    assert_eq!(r.remove(a), Some("a"));
    let err = r.get(a).unwrap_err();
    assert_eq!(err.to_string(), "runtime error: unknown task");
    assert_eq!(r.remove(a), None);
    assert_eq!(r.insert("c"), 2);
    assert!(!r.is_full());
}

fn values(v: Vec<mlua::Value>) -> mlua::MultiValue {
    mlua::MultiValue::from_vec(v)
}

#[test]
fn task_results() {
    let ok = || values(vec![mlua::Value::Boolean(true), mlua::Value::Integer(1)]);
    let failed = || values(vec![mlua::Value::Boolean(false), mlua::Value::Integer(1)]);
    assert!(task_lib::task_result(None, false).is_none());
    // A result that was reached counts, cancelled or not.
    let r = task_lib::task_result(Some(Ok(ok())), true).unwrap().into_vec();
    assert_eq!(r[1].as_integer(), Some(1));
    assert!(task_lib::task_result(Some(Ok(failed())), false).is_some());
    assert!(task_lib::task_result(Some(Ok(failed())), true).is_none());
    assert!(task_lib::task_result(Some(Ok(values(Vec::new()))), true).is_some());
    let e = || mlua::Error::runtime("x");
    assert!(task_lib::task_result(Some(Err(e())), true).is_none());
    let r = task_lib::task_result(Some(Err(e())), false).unwrap().into_vec();
    assert_eq!(r[0], mlua::Value::Boolean(false));
    assert!(r[1].is_error());
}

#[test]
fn a_cancelled_task_joins_as_the_marker() {
    let lua = mlua::Lua::new();
    let marker = lua.create_table().unwrap();
    let r = task_lib::join_result(None, marker.clone()).into_vec();
    assert_eq!(r, vec![mlua::Value::Boolean(false), mlua::Value::Table(marker.clone())]);
    let r = task_lib::join_result(Some(values(vec![mlua::Value::Integer(4)])), marker).into_vec();
    assert_eq!(r, vec![mlua::Value::Integer(4)]);
}

#[test]
fn only_rust_errors_are_asked_about() {
    let e = mlua::Value::Error(Box::new(mlua::Error::runtime("x")));
    assert!(task_lib::raised_error(&e).is_some());
    assert!(task_lib::raised_error(&mlua::Value::Nil).is_none());
    assert!(task_lib::not_in_a_scope()
        .to_string()
        .contains("not inside a coroutine request or task"));
}

/// The `task` table over host functions that record what they are asked.
fn task_table(lua: &mlua::Lua) -> mlua::Table {
    let log = lua.create_table().unwrap();
    lua.globals().set("log", &log).unwrap();
    let record = |name: &'static str, reply: mlua::Value| {
        let log = log.clone();
        lua.create_function(move |_, _: mlua::MultiValue| {
            log.push(name)?;
            Ok(reply.clone())
        })
        .unwrap()
    };
    let host = HostFunctions {
        spawn: record("spawn", mlua::Value::Integer(7)),
        join: record("join", mlua::Value::Boolean(true)),
        cancel: record("cancel", mlua::Value::Nil),
        done: record("done", mlua::Value::Boolean(false)),
        release: record("release", mlua::Value::Nil),
        is_cancel_error: record("is_cancel_error", mlua::Value::Boolean(false)),
    };
    match task_lib::create(lua, host, lua.create_table().unwrap(), &mut Calls::new(lua.clone())) {
        Ok(t) => t,
        Err(f) => panic!("{:?}", f.resolve(false)),
    }
}

#[test]
fn the_task_table_calls_its_host_functions() {
    let lua = mlua::Lua::new();
    lua.globals().set("task", task_table(&lua)).unwrap();
    lua.load(
        "local t = task.spawn(function() end)
         assert(t._id == 7)
         assert(t:done() == false)
         t:cancel()
         assert(t:join() == true)
         assert(t:done() == true)
         local ok, err = pcall(t.join, t)
         assert(not ok and err:find('task already joined'))
         assert(task.is_cancelled(task.CANCELLED))
         assert(not task.is_cancelled('some string'))
         assert(table.concat(log, ' ') == 'spawn done cancel join is_cancel_error')
         do local c <close> = task.spawn(function() end) end
         assert(table.concat(log, ' ', 6) == 'spawn cancel join')",
    )
    .exec()
    .unwrap();
}

#[test]
fn requests_run_once_in_order_until_the_shutdown() {
    let ran = std::cell::RefCell::new(Vec::new());
    let messages = vec![
        Received::Run(1),
        Received::Run(2),
        Received::Shutdown,
        Received::Run(3),
    ];
    for m in messages {
        if !serve(m, |job: i32| ran.borrow_mut().push(job)) {
            break;
        }
    }
    assert_eq!(*ran.borrow(), vec![1, 2]);
    assert!(!serve(Received::Disconnected, |_: i32| ()));
}

#[test]
fn each_request_is_answered_with_its_own_result() {
    let replies = std::cell::RefCell::new(Vec::new());
    let jobs: Vec<(&str, Result<i32, IsleError>)> = vec![
        ("a", Ok(1)),
        ("b", Err(IsleError::Cancelled)),
        ("c", Ok(3)),
    ];
    for (to, result) in jobs {
        let going_on = serve(Received::Run((to, result)), |(to, result)| {
            // Nobody listens to `a`: that ends nothing.
            answer(
                || result,
                |r: Result<i32, IsleError>| {
                    replies.borrow_mut().push((to, r.map_err(|e| e.to_string())));
                    to != "a"
                },
            )
        });
        assert!(going_on);
    }
    assert_eq!(
        *replies.borrow(),
        vec![
            ("a", Ok(1)),
            ("b", Err(IsleError::Cancelled.to_string())),
            ("c", Ok(3)),
        ]
    );
}

#[test]
fn is_alive_check() {
    assert!(is_alive(Some(false)));
    assert!(shutdown_outcome(Join::Ended).is_ok());
}

#[test]
fn request_panic_is_recv_failed_then_thread_panic_on_shutdown() {
    let mut tree = TokenTree::new();
    // The thread ended before it answered.
    let mut task = Task::new(CancelToken::new(&mut tree));
    assert!(matches!(task.wait::<()>(None), Err(IsleError::RecvFailed)));
    let panic = Join::Panicked(PanicPayload::Str("request boom"));
    let err = shutdown_outcome(panic).unwrap_err();
    assert!(
        matches!(&err, IsleError::ThreadPanic(Some(m)) if m == "request boom"),
        "got: {err:?}"
    );
}

#[test]
fn nothing_runs_after_a_shutdown() {
    let (tx, mut rx) = tokio::sync::mpsc::channel::<Received<i32>>(8);
    for m in vec![Received::Run(1), Received::Shutdown, Received::Run(2)] {
        assert!(tx.try_send(m).is_ok());
    }
    let ran = std::cell::RefCell::new(Vec::new());
    while serve(rx.try_recv().unwrap(), |job: i32| ran.borrow_mut().push(job)) {}
    assert!(is_alive(Some(tx.is_closed())));
    drop(rx);
    assert!(shutdown_outcome(Join::Ended).is_ok());
    assert!(!is_alive(Some(tx.is_closed())));
    let refusal = match tx.clone().try_send(Received::Run(3)) {
        Err(TrySendError::Closed(_)) => Refusal::Closed,
        Err(TrySendError::Full(_)) => Refusal::Full,
        Ok(()) => panic!("sent after the shutdown"),
    };
    assert!(matches!(try_send_to_isle_error(refusal), IsleError::Shutdown));
    assert_eq!(*ran.borrow(), vec![1]);
}
