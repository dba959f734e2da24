//! The hook hub on a real VM, and its arithmetic.

use mlua::debug;
use mlua_isle::lua::Calls;
use mlua_isle::error::Fault;
use mlua_isle::hook::{current_is_cancelled, Current, TokenTree};
use mlua_isle::hooks::{self, CancelConfig};
use mlua_isle::hub::{verdict, Counter, Event, Hub, Plan, Roots, Tick, Triggers, Verdict};
use mlua_isle::protect::Wrap;
use mlua_isle::runtime::{Config, Setup, Vm};
use mlua_isle::task_lib::{self, HostFunctions};
use mlua_isle::{protect, thread, CancelToken, IsleError, LuaErrorKind};
use std::cell::{Cell, RefCell};
use std::rc::Rc;
use std::time::Duration;

const A: Config = Config {
    grace: Duration::from_millis(100),
    preempt_every: None,
};
const B: Config = Config {
    grace: Duration::from_millis(700),
    preempt_every: Some(3),
};

const NONE: Triggers = Triggers {
    on_calls: false,
    on_returns: false,
    every_line: false,
    every_nth_instruction: None,
};
const EVERY_LINE: Triggers = Triggers {
    every_line: true,
    ..NONE
};

fn every_nth(n: u32) -> Triggers {
    Triggers {
        every_nth_instruction: Some(n),
        ..NONE
    }
}

type Callback = dyn Fn(&mlua::Lua, &debug::Debug<'_>) -> mlua::Result<mlua::VmState>;

struct Registered {
    callback: Box<Callback>,
    counter: Cell<Counter>,
}

type State = Vm<Rc<Registered>, mlua::RegistryKey>;

/// What Lua code has reported.
type Reports = Rc<RefCell<Vec<Vec<String>>>>;

/// What a cancel is raised as.
#[derive(Debug)]
struct CancelMark;

impl std::fmt::Display for CancelMark {
    fn fmt(&self, f: &mut std::fmt::Formatter<'_>) -> std::fmt::Result {
        f.write_str("cancelled")
    }
}

impl std::error::Error for CancelMark {}

fn is_cancel(e: &mlua::Error) -> bool {
    e.downcast_ref::<CancelMark>().is_some()
}

fn resolve(fault: Fault) -> IsleError {
    let cancel = fault.error().is_some_and(is_cancel);
    fault.resolve(cancel)
}

fn assert_cancelled(r: mlua::Result<()>) {
    let e = r.unwrap_err();
    assert!(is_cancel(&e), "got: {e}");
}

/// A VM whose hook is driven by its state.
#[derive(Clone)]
struct Host {
    lua: mlua::Lua,
    state: Rc<RefCell<State>>,
    tokens: Rc<RefCell<TokenTree>>,
    current: Rc<RefCell<Current<CancelToken>>>,
}

impl Host {
    fn new() -> Host {
        let lua = mlua::Lua::new();
        let state = Vm::new(lua.clone());
        Host {
            lua,
            state: Rc::new(RefCell::new(state)),
            tokens: Rc::new(RefCell::new(TokenTree::new())),
            current: Rc::new(RefCell::new(Current::new())),
        }
    }

    fn dispatcher(
        &self,
    ) -> impl Fn(&mlua::Lua, &debug::Debug<'_>) -> mlua::Result<mlua::VmState> + Clone + 'static
    {
        let state = self.state.clone();
        let (tokens, current) = (self.tokens.clone(), self.current.clone());
        move |lua: &mlua::Lua, info: &debug::Debug<'_>| {
            let Some((event, tick, step)) = state.borrow_mut().dispatch(info) else {
                return Ok(mlua::VmState::Continue);
            };
            let cancelled = current_is_cancelled(&current.borrow(), &tokens.borrow());
            let want_yield = match verdict(tick, cancelled, false) {
                Verdict::Cancel => return Err(mlua::Error::external(CancelMark)),
                Verdict::Run { want_yield } => want_yield,
            };
            let (mut round, callbacks) = {
                let state = state.borrow();
                let hub = state.hub();
                let callbacks: Vec<Rc<Registered>> =
                    hub.hooks().iter().map(|h| h.callback.clone()).collect();
                (hub.round(event, step, want_yield), callbacks)
            };
            loop {
                let mut counters: Vec<Counter> =
                    callbacks.iter().map(|c| c.counter.get()).collect();
                let due = round.next_due(&mut counters);
                for (c, n) in callbacks.iter().zip(counters) {
                    c.counter.set(n);
                }
                match due {
                    Some(i) => round.answer((callbacks[i].callback)(lua, info)),
                    None => break,
                }
            }
            Ok(if round.finish()? {
                mlua::VmState::Yield
            } else {
                mlua::VmState::Continue
            })
        }
    }

    /// A message handler and its `take`, as host functions.
    fn functions(&self) -> (mlua::Function, mlua::Function) {
        let traces = self.lua.create_table().unwrap();
        let kept = traces.clone();
        let handler = self
            .lua
            .create_function(move |lua, err: mlua::Value| {
                kept.raw_set(1, err.clone())?;
                kept.raw_set(2, lua.traceback(None, 1)?)?;
                Ok(err)
            })
            .unwrap();
        let take = self
            .lua
            .create_function(move |_, err: mlua::Value| {
                let seen: mlua::Value = traces.raw_get(1)?;
                let trace: mlua::Value = traces.raw_get(2)?;
                Ok((!err.is_nil() && seen == err, trace))
            })
            .unwrap();
        (handler, take)
    }

    fn try_attach(&self, config: Config) -> Result<(), IsleError> {
        let (handler, take) = self.functions();
        let f = self.dispatcher();
        self.state
            .borrow_mut()
            .attach(&self.lua, handler, take, config, f)
    }

    fn attach(&self, config: Config) {
        self.try_attach(config).unwrap();
    }

    fn registered(
        callback: impl Fn(&mlua::Lua, &debug::Debug<'_>) -> mlua::Result<mlua::VmState> + 'static,
    ) -> Rc<Registered> {
        Rc::new(Registered {
            callback: Box::new(callback),
            counter: Cell::new(Counter::new()),
        })
    }

    fn add_hook(
        &self,
        triggers: Triggers,
        callback: impl Fn(&mlua::Lua, &debug::Debug<'_>) -> mlua::Result<mlua::VmState> + 'static,
    ) -> hooks::HookId {
        let hook = Host::registered(callback);
        let f = self.dispatcher();
        self.state
            .borrow_mut()
            .add_hook(&self.lua, triggers, hook, f)
            .unwrap()
    }

    /// The task table of the VM, created on first use.
    fn task_lib(&self) -> mlua::Table {
        let kept = |state: &State| -> Option<mlua::Table> {
            state.task_lib().map(|key| self.lua.registry_value(key).unwrap())
        };
        if let Some(t) = kept(&self.state.borrow()) {
            return t;
        }
        let f = || self.lua.create_function(|_, ()| Ok(())).unwrap();
        let host = HostFunctions {
            spawn: f(),
            join: f(),
            cancel: f(),
            done: f(),
            release: f(),
            is_cancel_error: self
                .lua
                .create_function(|_, v: mlua::Value| {
                    Ok(task_lib::raised_error(&v).is_some_and(|e| is_cancel(&e)))
                })
                .unwrap(),
        };
        let marker = self.lua.create_table().unwrap();
        let table = task_lib::create(&self.lua, host, marker, &mut Calls::new(self.lua.clone()))
            .map_err(|_| ())
            .unwrap();
        let key = self.lua.create_registry_value(table).unwrap();
        self.state.borrow_mut().store_task_lib(key);
        let stored = kept(&self.state.borrow());
        stored.unwrap()
    }

    /// A root host: attached, with `task`, `report`, and a `sleep` during
    /// which the request is cancelled.
    fn with_root() -> (Host, CancelToken, Reports) {
        let host = Host::new();
        host.attach(A);
        let token = CancelToken::new(&mut host.tokens.borrow_mut());
        let reports: Reports = Rc::new(RefCell::new(Vec::new()));
        let (tokens, rows) = (host.tokens.clone(), reports.clone());
        let sleep = host
            .lua
            .create_function(move |_, _: u64| -> mlua::Result<()> {
                token.cancel(&mut tokens.borrow_mut());
                Err(mlua::Error::external(CancelMark))
            })
            .unwrap();
        let report = host
            .lua
            .create_function(move |_, args: mlua::Variadic<mlua::Value>| {
                let row = args.iter().map(|v| v.to_string().unwrap()).collect();
                rows.borrow_mut().push(row);
                Ok(())
            })
            .unwrap();
        let g = host.lua.globals();
        g.set("task", host.task_lib()).unwrap();
        g.set("sleep", sleep).unwrap();
        g.set("report", report).unwrap();
        (host, token, reports)
    }

    /// Run `code` as a root with the token `token`.
    fn root(&self, code: &str, token: CancelToken) -> Result<mlua::MultiValue, IsleError> {
        let func = self.lua.load(code).into_function().unwrap();
        let parts = {
            let state = self.state.borrow();
            let pieces = state.protected().expect("attached");
            protect::parts(&self.lua, pieces).map_err(resolve)?
        };
        let mark = self.lua.create_function(|_, ()| Ok(())).unwrap();
        let body = protect::lua_body(&self.lua, Wrap::Call(parts), func, mark, &mut Calls::new(self.lua.clone())).map_err(resolve)?;
        let guard = self.current.borrow_mut().enter(token);
        let out = body.call::<mlua::MultiValue>(());
        self.current.borrow_mut().leave(guard);
        let cancelled = token.is_cancelled(&self.tokens.borrow());
        protect::root_outcome(&self.lua, cancelled, Some(out)).map_err(resolve)
    }

    fn remove_hook(&self, id: hooks::HookId) -> bool {
        let f = self.dispatcher();
        self.state.borrow_mut().remove_hook(&self.lua, id, f).unwrap()
    }
}

#[test]
fn hub_hook_interrupts_lua_loop() {
    let host = Host::new();
    host.attach(Config::default());
    let token = CancelToken::new(&mut host.tokens.borrow_mut());
    let _enter = host.current.borrow_mut().enter(token);
    let tokens = host.tokens.clone();
    host.add_hook(every_nth(5000), move |_, _| {
        token.cancel(&mut tokens.borrow_mut());
        Ok(mlua::VmState::Continue)
    });
    assert_cancelled(host.lua.load("while true do end").exec());
}

#[test]
fn hub_hook_interrupts_loop_in_lua_created_coroutine() {
    let host = Host::new();
    host.attach(Config::default());
    let token = CancelToken::new(&mut host.tokens.borrow_mut());
    let _enter = host.current.borrow_mut().enter(token);
    let tokens = host.tokens.clone();
    host.add_hook(every_nth(5000), move |_, _| {
        token.cancel(&mut tokens.borrow_mut());
        Ok(mlua::VmState::Continue)
    });
    assert_cancelled(
        host.lua
            .load("coroutine.wrap(function() while true do end end)()")
            .exec(),
    );
}

#[test]
fn hub_hook_ignores_cancelled_token_that_is_not_current() {
    let host = Host::new();
    host.attach(Config::default());
    let other = CancelToken::new(&mut host.tokens.borrow_mut());
    other.cancel(&mut host.tokens.borrow_mut());
    let token = CancelToken::new(&mut host.tokens.borrow_mut());
    let _outer = host.current.borrow_mut().enter(other);
    let _inner = host.current.borrow_mut().enter(token);
    let r: i64 = host
        .lua
        .load("local n = 0 for i = 1, 100000 do n = n + 1 end return n")
        .eval()
        .unwrap();
    assert_eq!(r, 100000);
}

#[test]
fn user_callbacks_share_the_hook_with_cancellation() {
    let host = Host::new();
    host.attach(Config::default());
    let lines = Rc::new(Cell::new(0u32));
    let counts = Rc::new(Cell::new(0u32));
    let (l, c) = (lines.clone(), counts.clone());
    host.add_hook(EVERY_LINE, move |_, _| {
        l.set(l.get() + 1);
        Ok(mlua::VmState::Continue)
    });
    host.add_hook(every_nth(10_000), move |_, _| {
        c.set(c.get() + 1);
        Ok(mlua::VmState::Continue)
    });

    // Lines inside a Lua-created coroutine reach the user callback.
    host.lua
        .load("local co = coroutine.wrap(function()\n local x = 1\n x = x + 1\n end)\n co()")
        .exec()
        .unwrap();
    assert!(lines.get() >= 4, "line callback ran {} times", lines.get());

    host.lua
        .load("local n = 0 for i = 1, 1000000 do n = n + 1 end")
        .exec()
        .unwrap();
    assert!(counts.get() > 0, "count callback never ran");

    // Cancellation still works next to the user callbacks.
    let token = CancelToken::new(&mut host.tokens.borrow_mut());
    token.cancel(&mut host.tokens.borrow_mut());
    let _enter = host.current.borrow_mut().enter(token);
    assert_cancelled(host.lua.load("while true do end").exec());
}

#[test]
fn user_callback_error_propagates_and_remove_hook_stops_it() {
    let host = Host::new();
    host.attach(Config::default());
    let id = host.add_hook(EVERY_LINE, |_, _| {
        Err(mlua::Error::runtime("limit reached"))
    });
    let err = host.lua.load("local x = 1").exec().unwrap_err().to_string();
    assert!(err.contains("limit reached"), "got: {err}");

    assert!(host.remove_hook(id));
    assert!(!host.remove_hook(id));
    host.lua.load("local x = 1").exec().unwrap();
}

#[test]
fn ensure_installed_restores_hook_replaced_by_set_hook() {
    let host = Host::new();
    host.attach(Config::default());
    host.state.borrow_mut().set_installed(1);
    host.lua
        .set_global_hook(mlua::HookTriggers::EVERY_LINE, |_, _| {
            Ok(mlua::VmState::Continue)
        })
        .unwrap();
    // Another hook stands there now.
    assert_eq!(host.state.borrow().ensure_attached(2), Setup::Install);
    let f = host.dispatcher();
    host.state.borrow_mut().reinstall(&host.lua, f).unwrap();

    let token = CancelToken::new(&mut host.tokens.borrow_mut());
    token.cancel(&mut host.tokens.borrow_mut());
    let _enter = host.current.borrow_mut().enter(token);
    assert_cancelled(host.lua.load("while true do end").exec());
}

#[test]
fn a_failing_line_hook_does_not_mask_the_lua_error() {
    // The hook fails at the first line event after `arm()`.  The message
    // handler runs no Lua, so that event does not come before the error
    // reaches Rust.
    let host = Host::new();
    host.attach(Config::default());
    let armed = Rc::new(Cell::new(false));
    let (h, a) = (armed.clone(), armed);
    host.add_hook(EVERY_LINE, move |_, _| {
        if h.replace(false) {
            return Err(mlua::Error::runtime("hook failed"));
        }
        Ok(mlua::VmState::Continue)
    });
    let arm = host
        .lua
        .create_function(move |_, ()| {
            a.set(true);
            Ok(())
        })
        .unwrap();
    host.lua.globals().set("arm", arm).unwrap();
    let state = host.state.clone();
    let parts = protect::parts(&host.lua, state.borrow().protected().unwrap())
        .map_err(|_| ())
        .unwrap();
    let fault = thread::eval(&host.lua, &parts, "arm() error('original')", &mut Calls::new(host.lua.clone())).unwrap_err();
    match fault.resolve(false) {
        IsleError::Lua(f) => {
            assert_eq!(f.message, "eval:1: original");
            assert_eq!(f.kind, LuaErrorKind::Runtime);
        }
        other => panic!("unexpected: {other:?}"),
    }
}

#[test]
fn the_task_table_is_created_on_first_use() {
    let host = Host::new();
    host.attach(Config::default());
    let calls = Rc::new(Cell::new(0u32));
    let c = calls.clone();
    host.add_hook(EVERY_LINE, move |_, _| {
        c.set(c.get() + 1);
        Ok(mlua::VmState::Continue)
    });
    host.attach(A);
    host.attach(B);
    assert_eq!(calls.get(), 0, "attach ran Lua code");
    host.task_lib();
    let after_first = calls.get();
    assert!(after_first > 0);
    host.task_lib();
    assert_eq!(calls.get(), after_first, "task_lib created a second table");
}

#[test]
fn of_is_none_before_attach_and_some_after() {
    let host = Host::new();
    assert!(host.state.borrow().of().is_none());
    // Touching the hooks module alone does not attach.
    hooks::configure(&mut host.state.borrow_mut(), A);
    assert!(host.state.borrow().of().is_none());

    host.attach(A);
    assert_eq!(host.state.borrow().of().unwrap().config(), A);
}

#[test]
fn a_second_attach_wins_and_shares_the_state() {
    let host = Host::new();
    host.attach(A);
    host.attach(B);
    assert_eq!(host.state.borrow().config(), B);
    assert_eq!(host.state.borrow().of().unwrap().config(), B);

    host.state.borrow_mut().set_config(A);
    assert_eq!(host.state.borrow().config(), A);
    assert_eq!(hooks::config(&host.state.borrow()), A);
}

#[test]
fn config_converts_to_and_from_cancel_config() {
    let c: CancelConfig = B;
    assert_eq!(c.grace, B.grace);
    assert_eq!(c.preempt_every, B.preempt_every);
    assert_eq!(Config::from(c), B);
    assert_eq!(Config::default(), Config::from(CancelConfig::default()));
}

#[test]
fn cancel_config_is_an_alias_of_config() {
    let c = CancelConfig {
        grace: B.grace,
        preempt_every: B.preempt_every,
    };
    let r: Config = c;
    assert_eq!(r, B);
    let back: CancelConfig = B;
    assert_eq!(back, c);
    assert_eq!(CancelConfig::default(), Config::default());
}

#[test]
fn the_default_settings_are_no_grace_and_no_preemption() {
    assert_eq!(Config::default().grace, Duration::ZERO);
    assert_eq!(Config::default().preempt_every, None);
    assert_eq!(A.grace_nanos(), 100_000_000);
}

#[test]
fn hooks_install_and_configure_forward_to_the_vm() {
    let host = Host::new();
    // `configure` before any attach stores the config without attaching.
    hooks::configure(&mut host.state.borrow_mut(), A);
    assert!(host.state.borrow().of().is_none());
    // `install` attaches with the stored config.
    let (handler, take) = host.functions();
    let f = host.dispatcher();
    hooks::install(&mut host.state.borrow_mut(), &host.lua, handler, take, f).unwrap();
    assert_eq!(
        host.state.borrow().of().expect("hooks::install attaches").config(),
        A
    );
    // `configure` / `config` are `Vm::set_config` / `Vm::config`.
    hooks::configure(&mut host.state.borrow_mut(), B);
    assert_eq!(host.state.borrow().config(), B);
    host.state.borrow_mut().set_config(A);
    assert_eq!(hooks::config(&host.state.borrow()), A);
}

#[test]
fn hooks_add_and_remove_hook_forward_to_the_vm() {
    let host = Host::new();
    let seen = Rc::new(Cell::new(0u32));
    let s = seen.clone();
    let hook = Host::registered(move |_, _| {
        s.set(s.get() + 1);
        Ok(mlua::VmState::Continue)
    });
    let (handler, take) = host.functions();
    let f = host.dispatcher();
    let id: hooks::HookId = hooks::add_hook(
        &mut host.state.borrow_mut(),
        &host.lua,
        handler,
        take,
        EVERY_LINE,
        hook,
        f,
    )
    .unwrap();
    assert!(host.state.borrow().of().is_some(), "hooks::add_hook attaches");
    host.lua.load("local a = 1\nlocal b = 2").exec().unwrap();
    assert!(seen.get() >= 2);
    assert!(host.remove_hook(id));
    let f = host.dispatcher();
    assert!(!hooks::remove_hook(&mut host.state.borrow_mut(), &host.lua, id, f).unwrap());
}

#[test]
fn hooks_added_through_the_vm_run_and_can_be_removed() {
    let host = Host::new();
    host.attach(Config::default());
    let seen = Rc::new(Cell::new(0u32));
    let s = seen.clone();
    let id = host.add_hook(EVERY_LINE, move |_, _| {
        s.set(s.get() + 1);
        Ok(mlua::VmState::Continue)
    });
    host.lua.load("local a = 1\nlocal b = 2").exec().unwrap();
    assert!(seen.get() >= 2, "line callback ran {} times", seen.get());

    assert!(host.remove_hook(id));
    assert!(!host.remove_hook(id));
    let before = seen.get();
    host.lua.load("local a = 1\nlocal b = 2").exec().unwrap();
    assert_eq!(seen.get(), before);

    // A second attach keeps registered callbacks.
    let s = seen.clone();
    host.add_hook(EVERY_LINE, move |_, _| {
        s.set(s.get() + 1);
        Ok(mlua::VmState::Continue)
    });
    host.attach(B);
    host.lua.load("local a = 1\nlocal b = 2").exec().unwrap();
    assert!(seen.get() >= before + 2);
}

#[test]
fn attach_does_not_set_a_task_global() {
    let host = Host::new();
    host.attach(Config::default());
    let task: mlua::Value = host.lua.globals().get("task").unwrap();
    assert!(task.is_nil(), "got {task:?}");
}

#[test]
fn task_lib_is_one_table_per_vm() {
    let host = Host::new();
    host.attach(A);
    host.attach(B);
    let t = host.task_lib();
    assert_eq!(t.to_pointer(), host.task_lib().to_pointer());
    // A second table that is stored later does not replace it.
    let other = host.lua.create_table().unwrap();
    let key = host.lua.create_registry_value(other).unwrap();
    host.state.borrow_mut().store_task_lib(key);
    assert_eq!(t.to_pointer(), host.task_lib().to_pointer());
    // A later attach keeps the table.
    host.attach(A);
    assert_eq!(t.to_pointer(), host.task_lib().to_pointer());
    assert!(t.get::<mlua::Function>("spawn").is_ok());
}

#[test]
fn a_request_knows_what_it_has_to_set_up() {
    let host = Host::new();
    assert_eq!(host.state.borrow().ensure_attached(1), Setup::Attach);
    host.attach(A);
    assert_eq!(host.state.borrow().ensure_attached(1), Setup::Install);
    host.state.borrow_mut().set_installed(1);
    assert_eq!(host.state.borrow().ensure_attached(1), Setup::Ready);
    assert_eq!(host.state.borrow().ensure_attached(2), Setup::Install);
    assert_eq!(host.state.borrow().config_after_init(None), A);
    assert_eq!(host.state.borrow().config_after_init(Some(B)), B);
    let f = host.dispatcher();
    host.state.borrow_mut().reinstall(&host.lua, f).unwrap();
    assert!(host.state.borrow().protected().is_some());
    assert!(!host.state.borrow().is_full());
}

#[test]
fn protecting_twice_keeps_the_first_pieces() {
    let host = Host::new();
    let (handler, take) = host.functions();
    host.state
        .borrow_mut()
        .ensure_protected(&host.lua, handler, take)
        .unwrap();
    // The captured `xpcall` stays, also when the global is gone since.
    host.lua.globals().set("xpcall", mlua::Value::Nil).unwrap();
    let handler = host.lua.create_function(|_, e: mlua::Value| Ok(e)).unwrap();
    let take = host.lua.create_function(|_, _: mlua::Value| Ok(true)).unwrap();
    host.state
        .borrow_mut()
        .ensure_protected(&host.lua, handler, take)
        .unwrap();
    let state = host.state.borrow();
    let parts = protect::parts(&host.lua, state.protected().unwrap()).map_err(|_| ()).unwrap();
    assert!(!parts.take.call::<bool>(()).unwrap());
}

fn plan_of(triggers: &[Triggers]) -> Plan {
    let mut hub: Hub<u8> = Hub::new(mlua::Lua::new());
    for t in triggers {
        hub.add_hook(*t, 0);
    }
    hub.plan()
}

#[test]
fn the_hook_runs_at_the_union_of_the_triggers() {
    let none = plan_of(&[]);
    assert_eq!((none.step, none.cancel_every), (1000, 1));
    assert_eq!(none.triggers, every_nth(1000));
    let some = plan_of(&[EVERY_LINE, every_nth(300), every_nth(700)]);
    assert_eq!((some.step, some.cancel_every), (300, 4));
    assert!(some.triggers.every_line && !some.triggers.on_calls);
    // A count of zero counts every instruction.
    let all = plan_of(&[every_nth(0)]);
    assert_eq!((all.step, all.cancel_every), (1, 1000));
    let large = plan_of(&[every_nth(10_000)]);
    assert_eq!((large.step, large.cancel_every), (1000, 1));
}

#[test]
fn counters_fire_at_their_interval() {
    let t = every_nth(2500);
    let mut c = Counter::new();
    let fired: Vec<bool> = (0..6).map(|_| c.fires(&t, Event::Count, 1000)).collect();
    assert_eq!(fired, vec![false, false, true, false, false, true]);
    assert!(!c.fires(&t, Event::Line, 1000));
    assert!(c.fires(&EVERY_LINE, Event::Line, 1000));
    let calls = Triggers {
        on_calls: true,
        ..NONE
    };
    assert!(c.fires(&calls, Event::Call, 1) && c.fires(&calls, Event::TailCall, 1));
    assert!(!c.fires(&calls, Event::Ret, 1));
    let returns = Triggers {
        on_returns: true,
        ..NONE
    };
    assert!(c.fires(&returns, Event::Ret, 1));
    assert!(!c.fires(&returns, Event::Unknown, 1));
    assert!(!c.fires(&NONE, Event::Count, 1));
    // The largest interval does not overflow the count.
    let mut c = Counter::new();
    assert!(!c.fires(&every_nth(u32::MAX), Event::Count, u32::MAX - 1));
    assert!(c.fires(&every_nth(u32::MAX), Event::Count, u32::MAX - 1));
}

#[test]
fn cancel_checks_and_preemption_come_round() {
    let mut hub: Hub<u8> = Hub::new(mlua::Lua::new());
    hub.add_hook(every_nth(500), 0);
    hub.set_config(Config {
        preempt_every: Some(2),
        ..Config::default()
    });
    hub.install(&mlua::Lua::new(), |_, _| Ok(mlua::VmState::Continue))
        .unwrap();
    assert_eq!(hub.current_plan().unwrap().cancel_every, 2);
    let ticks: Vec<Tick> = (0..8).map(|_| hub.tick(Event::Count)).collect();
    let check = |preempt| Tick::Check { preempt };
    assert_eq!(
        ticks,
        vec![
            Tick::Pass,
            check(false),
            Tick::Pass,
            check(true),
            Tick::Pass,
            check(false),
            Tick::Pass,
            check(true)
        ]
    );
    assert_eq!(hub.tick(Event::Line), Tick::Pass);
    assert!(hub.needs_install(7));
    hub.set_installed(7);
    assert!(!hub.needs_install(7));
}

#[test]
fn verdicts() {
    assert_eq!(
        verdict(Tick::Pass, true, true),
        Verdict::Run { want_yield: false }
    );
    let check = Tick::Check { preempt: true };
    assert_eq!(verdict(check, true, true), Verdict::Cancel);
    assert_eq!(
        verdict(check, false, true),
        Verdict::Run { want_yield: true }
    );
    // Coroutines that the Lua code creates are never yielded.
    assert_eq!(
        verdict(check, false, false),
        Verdict::Run { want_yield: false }
    );
}

#[test]
fn roots_are_marked_and_forgotten() {
    let mut roots = Roots::new();
    roots.mark_root(10);
    roots.mark_root(20);
    assert!(roots.is_root(10) && roots.is_root(20) && !roots.is_root(30));
    roots.unmark_root(10);
    assert!(!roots.is_root(10) && roots.is_root(20));
}

#[test]
fn attach_without_xpcall_is_an_init_error() {
    let host = Host::new();
    host.lua.globals().set("xpcall", mlua::Value::Nil).unwrap();
    match host.try_attach(Config::default()) {
        Err(IsleError::Init(f)) => assert_eq!(f.kind, LuaErrorKind::External),
        other => panic!("unexpected: {other:?}"),
    }
    assert!(host.state.borrow().of().is_none());
    assert!(host.state.borrow().protected().is_none());
}

/// A round at `event` of callbacks with these triggers and answers: those
/// that ran, and what came of the round.
fn play(
    callbacks: &[(Triggers, &str)],
    counters: &mut Vec<Counter>,
    event: Event,
    want_yield: bool,
) -> (Vec<usize>, mlua::Result<bool>) {
    let mut hub: Hub<u8> = Hub::new(mlua::Lua::new());
    for (t, _) in callbacks {
        hub.add_hook(*t, 0);
    }
    let mut round = hub.round(event, 1000, want_yield);
    let mut ran = Vec::new();
    while let Some(i) = round.next_due(counters) {
        ran.push(i);
        round.answer(match callbacks[i].1 {
            "yield" => Ok(mlua::VmState::Yield),
            "fail" => Err(mlua::Error::runtime("limit reached")),
            _ => Ok(mlua::VmState::Continue),
        });
    }
    (ran, round.finish())
}

#[test]
fn callbacks_run_in_order_and_the_first_error_ends_the_round() {
    let fresh = |n: usize| -> Vec<Counter> { (0..n).map(|_| Counter::new()).collect() };
    let line = |callbacks: &[(Triggers, &str)], want_yield: bool| {
        play(callbacks, &mut fresh(callbacks.len()), Event::Line, want_yield)
    };
    let (ran, r) = line(&[(EVERY_LINE, "go"), (NONE, "go"), (EVERY_LINE, "go")], false);
    assert_eq!(ran, vec![0, 2]);
    assert!(!r.unwrap());
    // A yield is kept, whoever asks for it.
    let (ran, r) = line(&[(EVERY_LINE, "go"), (EVERY_LINE, "yield"), (EVERY_LINE, "go")], false);
    assert_eq!(ran, vec![0, 1, 2]);
    assert!(r.unwrap());
    assert!(line(&[(EVERY_LINE, "go")], true).1.unwrap());
    assert!(!line(&[], false).1.unwrap());
    // One that does not run is not asked for its answer.
    assert!(!line(&[(NONE, "yield"), (NONE, "fail")], false).1.unwrap());
    // The callbacks behind an error are not run.
    let (ran, r) = line(&[(EVERY_LINE, "yield"), (EVERY_LINE, "fail"), (EVERY_LINE, "go")], false);
    assert_eq!(ran, vec![0, 1]);
    assert!(r.unwrap_err().to_string().contains("limit reached"));
}

#[test]
fn callbacks_behind_an_error_count_nothing() {
    let callbacks = [(every_nth(3000), "go"), (every_nth(500), "fail"), (every_nth(2000), "go")];
    let mut counters: Vec<Counter> = (0..3).map(|_| Counter::new()).collect();
    let mut third = Counter::new();
    for _ in 0..2 {
        let (ran, r) = play(&callbacks, &mut counters, Event::Count, false);
        assert_eq!(ran, vec![1]);
        assert!(r.is_err());
        // The last one was not asked.
        assert_eq!(counters[2], third);
    }
    // The first one was, twice: it runs at the third event.
    let (ran, _) = play(&callbacks, &mut counters, Event::Count, false);
    assert_eq!(ran, vec![0, 1]);
    assert!(!third.fires(&every_nth(2000), Event::Count, 1000));
    assert!(counters[2] != third);
}

#[test]
fn a_callback_that_resumes_a_coroutine_counts_its_events_too() {
    let host = Host::new();
    host.attach(Config::default());
    let runs = Rc::new(Cell::new(0u32));
    let r = runs.clone();
    let once = Cell::new(true);
    // Added first: its coroutine runs while the round is on.
    host.add_hook(every_nth(1000), move |lua, _| {
        if once.replace(false) {
            let code = "for i = 1, 3000 do local x = i end";
            let f = lua.load(code).into_function()?;
            lua.create_thread(f)?.resume::<()>(())?;
        }
        Ok(mlua::VmState::Continue)
    });
    host.add_hook(every_nth(2000), move |_, _| {
        r.set(r.get() + 1);
        Ok(mlua::VmState::Continue)
    });
    host.lua.load("for i = 1, 20000 do local x = i end").exec().unwrap();
    assert!(runs.get() >= 10, "got: {}", runs.get());
}

#[test]
fn the_interval_is_the_smallest_that_is_asked_for() {
    let step = |t: &[Triggers]| plan_of(t).step;
    assert_eq!(step(&[]), 1000);
    assert_eq!(step(&[every_nth(300), every_nth(200), NONE]), 200);
    assert_eq!(step(&[every_nth(5000)]), 1000);
    assert_eq!(step(&[every_nth(0), every_nth(700)]), 1);
}

#[test]
fn a_callback_can_yield_the_coroutine() {
    let host = Host::new();
    host.attach(Config::default());
    let once = Cell::new(true);
    host.add_hook(EVERY_LINE, move |_, info| {
        let inside = info.current_line() == Some(2);
        Ok(if inside && once.replace(false) {
            mlua::VmState::Yield
        } else {
            mlua::VmState::Continue
        })
    });
    let co: mlua::Thread = host
        .lua
        .load("return coroutine.create(function()\n local x = 1\n return x\n end)")
        .eval()
        .unwrap();
    let resumed = co.resume::<mlua::MultiValue>(()).unwrap();
    assert!(resumed.is_empty());
    assert_eq!(co.resume::<i64>(()).unwrap(), 1);
}

#[test]
fn a_hook_number_is_given_out_once() {
    let mut hub: Hub<u8> = Hub::new(mlua::Lua::new());
    let a = hub.add_hook(NONE, 1);
    let b = hub.add_hook(NONE, 2);
    assert!(hub.remove_hook(a));
    let c = hub.add_hook(NONE, 3);
    assert!(a != b && b != c && a != c);
    let left: Vec<u8> = hub.hooks().iter().map(|h| h.callback).collect();
    assert_eq!(left, vec![2, 3]);
}

#[test]
fn a_counting_callback_runs_at_every_third_event() {
    // 2500 instructions are three steps of 1000.
    let mut c = Counter::new();
    let runs: Vec<usize> = (1..=9)
        .filter(|_| c.fires(&every_nth(2500), Event::Count, 1000))
        .collect();
    assert_eq!(runs, vec![3, 6, 9]);
}

#[test]
fn a_cancelled_root_is_cancelled() {
    let (host, token, _) = Host::with_root();
    let r = host.root("sleep(5000)", token);
    assert!(matches!(r, Err(IsleError::Cancelled)), "got: {r:?}");
}

#[test]
fn a_cancelled_cpu_loop_root_is_cancelled() {
    let (host, token, _) = Host::with_root();
    token.cancel(&mut host.tokens.borrow_mut());
    let r = host.root("while true do end", token);
    assert!(matches!(r, Err(IsleError::Cancelled)), "got: {r:?}");
}

#[test]
fn pcall_under_a_cancel_gives_a_cancel_value() {
    let (host, token, reports) = Host::with_root();
    let r = host.root(
        "local ok, err = pcall(sleep, 5000)
         report(ok, task.is_cancelled(err))
         local ok2, err2 = pcall(function() while true do end end)
         report(ok2, task.is_cancelled(err2))",
        token,
    );
    assert!(matches!(r, Err(IsleError::Cancelled)), "got: {r:?}");
    assert_eq!(
        *reports.borrow(),
        vec![
            vec!["false".to_string(), "true".to_string()],
            vec!["false".to_string(), "true".to_string()],
        ]
    );
}

#[test]
fn a_close_handler_receives_a_cancel_value() {
    let (host, token, reports) = Host::with_root();
    let r = host.root(
        "local c <close> = setmetatable({}, { __close = function(_, e)
             report(e ~= nil, task.is_cancelled(e))
         end })
         sleep(5000)",
        token,
    );
    assert!(matches!(r, Err(IsleError::Cancelled)), "got: {r:?}");
    assert_eq!(
        *reports.borrow(),
        vec![vec!["true".to_string(), "true".to_string()]]
    );
}

#[test]
fn a_cancelled_op_is_a_cancel_on_both_sides() {
    let (host, token, _) = Host::with_root();
    let op = host
        .lua
        .create_function(|_, ()| -> mlua::Result<()> { Err(mlua::Error::external(CancelMark)) })
        .unwrap();
    host.lua.globals().set("op", op).unwrap();
    // The token is not cancelled: the raised value alone tells.
    let r = host.root(
        "local ok, err = pcall(op)
         seen = task.is_cancelled(err)
         error(err, 0)",
        token,
    );
    assert!(matches!(r, Err(IsleError::Cancelled)), "got: {r:?}");
    assert!(!token.is_cancelled(&host.tokens.borrow()));
    assert!(host.lua.globals().get::<bool>("seen").unwrap());
}

#[test]
fn vm_run_survives_removing_xpcall_and_whitelisted_globals() {
    let (host, token, _) = Host::with_root();
    let g = host.lua.globals();
    g.set("xpcall", mlua::Value::Nil).unwrap();
    assert_eq!(host.root("return 1 + 1", token).unwrap()[0].as_i64(), Some(2));
    let white = host.lua.create_table().unwrap();
    for name in ["error", "setmetatable", "tostring"] {
        white.set(name, g.get::<mlua::Value>(name).unwrap()).unwrap();
    }
    host.lua.set_globals(white).unwrap();
    assert_eq!(host.root("return 40 + 2", token).unwrap()[0].as_i64(), Some(42));
    match host.root("error({ code = 1 })", token) {
        Err(IsleError::Lua(f)) => {
            assert_eq!(f.kind, LuaErrorKind::Runtime);
            assert!(f.traceback.is_some(), "the message handler did not run");
        }
        other => panic!("unexpected: {other:?}"),
    }
    // A re-attach after the sandbox keeps the captured `xpcall`.
    host.attach(Config::default());
    assert_eq!(host.root("return 3", token).unwrap()[0].as_i64(), Some(3));
}

/// Attach as an actor does after its init closure, without settings of its
/// own.
fn attach_after_init(host: &Host) {
    let config = host.state.borrow().config_after_init(None);
    host.attach(config);
}

#[test]
fn hooks_configure_in_an_isle_init_is_kept() {
    let host = Host::new();
    hooks::configure(&mut host.state.borrow_mut(), A);
    attach_after_init(&host);
    assert!(host.state.borrow().of().expect("attached").config() == A);
    // Settings of the actor's own win.
    assert_eq!(host.state.borrow().config_after_init(Some(B)), B);
}

#[test]
fn an_isle_attaches_its_vm() {
    let host = Host::new();
    hooks::configure(&mut host.state.borrow_mut(), A);
    attach_after_init(&host);
    let state = host.state.borrow();
    let vm = state.of().expect("attached");
    let task: mlua::Value = host.lua.globals().get("task").unwrap();
    assert_eq!(format!("{:?} {}", vm.config() == A, task.is_nil()), "true true");
}

#[test]
fn tasks_install_returns_the_vms_task_lib() {
    let host = Host::new();
    let (handler, take) = host.functions();
    let f = host.dispatcher();
    hooks::install(&mut host.state.borrow_mut(), &host.lua, handler, take, f).unwrap();
    let t = host.task_lib();
    assert!(host.state.borrow().of().is_some());
    assert_eq!(t.to_pointer(), host.task_lib().to_pointer());
}
