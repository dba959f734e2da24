//! Pools, over VMs in this thread.

use mlua_isle::pool::{Acquired, Checkout, IslePool, PooledIsle, Returned};
use mlua_isle::{handle, IsleError, LuaErrorKind, PoolConfig, PoolStrategy};

/// A VM that counts as alive until it is stopped.
struct Isle {
    lua: mlua::Lua,
    alive: bool,
}

type Factory = fn(&mlua::Lua) -> mlua::Result<()>;

fn spawn(factory: Factory) -> Result<Isle, IsleError> {
    let lua = mlua::Lua::new();
    match factory(&lua) {
        Ok(()) => Ok(Isle { lua, alive: true }),
        Err(e) => Err(handle::init_error(&e)),
    }
}

fn text(isle: &PooledIsle<Isle>, code: &str) -> String {
    isle.isle().lua.load(code).eval().unwrap()
}

fn exec(isle: &PooledIsle<Isle>, code: &str) {
    isle.isle().lua.load(code).exec().unwrap();
}

fn pool(max_size: usize, strategy: PoolStrategy) -> IslePool<Isle> {
    match IslePool::new(PoolConfig { max_size, strategy }) {
        Ok(p) => p,
        Err(e) => panic!("{e:?}"),
    }
}

/// A checkout that does not wait.
fn checkout(pool: &mut IslePool<Isle>, factory: Factory) -> Result<Option<PooledIsle<Isle>>, IsleError> {
    match pool.try_checkout(|i: &Isle| i.alive)? {
        Some(Checkout::Isle(isle)) => Ok(Some(PooledIsle::new(isle))),
        Some(_) => match spawn(factory) {
            Ok(isle) => Ok(Some(PooledIsle::new(isle))),
            Err(e) => {
                pool.dec_active();
                Err(e)
            }
        },
        None => Ok(None),
    }
}

fn take(pool: &mut IslePool<Isle>, factory: Factory) -> PooledIsle<Isle> {
    match checkout(pool, factory) {
        Ok(Some(isle)) => isle,
        _ => panic!("no isle"),
    }
}

fn give_back(pool: &mut IslePool<Isle>, isle: PooledIsle<Isle>) -> Returned<Isle> {
    let alive = isle.isle().alive;
    isle.give_back(pool, alive)
}

fn nothing(_: &mlua::Lua) -> mlua::Result<()> {
    Ok(())
}

fn base(lua: &mlua::Lua) -> mlua::Result<()> {
    lua.globals().set("base", 10)
}

#[test]
fn pool_pool_new_with_valid_config() {
    let mut p = pool(2, PoolStrategy::Cold);
    assert!(p.shutdown().is_empty());
}

#[test]
fn pool_pool_max_size_zero_returns_error() {
    let result: Result<IslePool<Isle>, IsleError> = IslePool::new(PoolConfig {
        max_size: 0,
        strategy: PoolStrategy::Cold,
    });
    match result {
        Err(IsleError::Init(f)) => {
            assert_eq!(f.kind, LuaErrorKind::External);
            assert_eq!(f.message, "max_size must be > 0");
        }
        _ => panic!("expected Init"),
    }
}

#[test]
fn pool_cold_checkout_eval() {
    let mut p = pool(2, PoolStrategy::Cold);
    let isle = take(&mut p, base);
    assert_eq!(text(&isle, "return base + 5"), "15");
}

#[test]
fn pool_cold_does_not_preserve_state() {
    let mut p = pool(1, PoolStrategy::Cold);
    let isle = take(&mut p, nothing);
    exec(&isle, "my_global = 42");
    assert!(matches!(give_back(&mut p, isle), Returned::ShutDown(_)));
    let isle = take(&mut p, nothing);
    assert_eq!(
        text(&isle, "return type(my_global)"),
        "nil",
        "cold pool must not preserve state"
    );
}

#[test]
fn pool_warm_checkout_eval() {
    let mut p = pool(2, PoolStrategy::Warm);
    let isle = take(&mut p, base);
    assert_eq!(text(&isle, "return base + 5"), "15");
}

#[test]
fn pool_warm_preserves_state() {
    let mut p = pool(1, PoolStrategy::Warm);
    let isle = take(&mut p, nothing);
    exec(&isle, "my_global = 42");
    assert!(matches!(give_back(&mut p, isle), Returned::Kept));
    let isle = take(&mut p, nothing);
    assert_eq!(
        text(&isle, "return my_global"),
        "42",
        "warm pool must preserve state"
    );
}

#[test]
fn pool_try_checkout_returns_none_when_exhausted() {
    let mut p = pool(1, PoolStrategy::Warm);
    let _isle = take(&mut p, nothing);
    assert!(
        matches!(checkout(&mut p, nothing), Ok(None)),
        "should return None when pool exhausted"
    );
}

#[test]
fn pool_try_checkout_succeeds_when_available() {
    let mut p = pool(2, PoolStrategy::Warm);
    let isle = take(&mut p, nothing);
    assert_eq!(text(&isle, "return 1"), "1");
}

#[test]
fn pool_checkout_timeout_returns_pool_exhausted() {
    let mut p = pool(1, PoolStrategy::Warm);
    let _isle = take(&mut p, nothing);
    let mut step = |now| p.checkout_timeout(|i: &Isle| i.alive, 50, now);
    assert!(matches!(step(20), Ok(Checkout::Sleep(Some(30)))));
    assert!(matches!(step(50), Err(IsleError::PoolExhausted(1))));
    assert!(matches!(step(60), Err(IsleError::PoolExhausted(1))));
    assert!(matches!(p.remaining(50, 20), Ok(30)));
    assert!(matches!(p.remaining(50, 60), Err(IsleError::PoolExhausted(1))));
}

#[test]
fn a_checkout_waits_until_something_comes_back() {
    let mut p = pool(1, PoolStrategy::Warm);
    assert!(matches!(
        p.checkout(|i: &Isle| i.alive),
        Ok(Checkout::Spawn)
    ));
    let isle = PooledIsle::new(spawn(base).unwrap_or_else(|e| panic!("{e:?}")));
    assert!(matches!(
        p.checkout(|i: &Isle| i.alive),
        Ok(Checkout::Sleep(None))
    ));
    give_back(&mut p, isle);
    // A deadline that has come does not matter when an isle is there.
    match p.checkout_timeout(|i: &Isle| i.alive, 50, 60) {
        Ok(Checkout::Isle(isle)) => assert_eq!(text(&PooledIsle::new(isle), "return base"), "10"),
        _ => panic!("no isle"),
    }
    p.shutdown();
    assert!(matches!(
        p.checkout(|i: &Isle| i.alive),
        Err(IsleError::Shutdown)
    ));
    assert!(matches!(
        p.checkout_timeout(|i: &Isle| i.alive, 50, 0),
        Err(IsleError::Shutdown)
    ));
}

#[test]
fn pool_kill_discards_and_next_checkout_gets_fresh_isle() {
    let mut p = pool(1, PoolStrategy::Warm);
    let mut isle = take(&mut p, nothing);
    exec(&isle, "sentinel = 'old'");
    isle.kill();
    assert!(matches!(give_back(&mut p, isle), Returned::ShutDown(_)));
    let isle = take(&mut p, nothing);
    assert_eq!(
        text(&isle, "return type(sentinel)"),
        "nil",
        "kill() must discard the isle; fresh checkout should have clean state"
    );
}

#[test]
fn pool_checkout_after_shutdown_returns_error() {
    let mut p = pool(2, PoolStrategy::Warm);
    let isle = take(&mut p, nothing);
    give_back(&mut p, isle);
    assert_eq!(p.shutdown().len(), 1);
    let result = checkout(&mut p, nothing);
    assert!(
        matches!(result, Err(IsleError::Shutdown)),
        "checkout after shutdown must return Shutdown error"
    );
}

#[test]
fn pool_shutdown_cleans_up_idle_isles() {
    let mut p = pool(4, PoolStrategy::Warm);
    let isles: Vec<_> = (0..3).map(|_| take(&mut p, nothing)).collect();
    for isle in isles {
        give_back(&mut p, isle);
    }
    assert_eq!(p.shutdown().len(), 3);
    assert_eq!(p.idle(), 0);
    assert!(p.shutdown().is_empty());
}

#[test]
fn pool_factory_failure_returns_init_error() {
    fn explode(_: &mlua::Lua) -> mlua::Result<()> {
        Err(mlua::Error::runtime("factory exploded"))
    }
    let mut p = pool(2, PoolStrategy::Cold);
    let result = checkout(&mut p, explode);
    assert!(
        matches!(result, Err(IsleError::Init(_))),
        "factory failure should surface as Init error"
    );
    assert_eq!(p.active(), 0);
}

#[test]
fn pool_pool_metrics_track_active_and_idle() {
    let mut p = pool(3, PoolStrategy::Warm);
    assert_eq!(p.active(), 0);
    assert_eq!(p.idle(), 0);

    let isle1 = take(&mut p, nothing);
    assert_eq!(p.active(), 1);
    assert_eq!(p.idle(), 0);

    let isle2 = take(&mut p, nothing);
    assert_eq!(p.active(), 2);
    assert_eq!(p.idle(), 0);

    give_back(&mut p, isle1);
    assert_eq!(p.active(), 1);
    assert_eq!(p.idle(), 1); // warm: returned to idle

    give_back(&mut p, isle2);
    assert_eq!(p.active(), 0);
    assert_eq!(p.idle(), 2);
}

#[test]
fn cold_pool_metrics_idle_stays_zero() {
    let mut p = pool(2, PoolStrategy::Cold);
    let isle = take(&mut p, nothing);
    assert_eq!(p.active(), 1);
    give_back(&mut p, isle);
    assert_eq!(p.active(), 0);
    assert_eq!(p.idle(), 0); // cold: destroyed on return
}

#[test]
fn dead_isles_are_skipped() {
    let mut p: IslePool<u32> = match IslePool::new(PoolConfig {
        max_size: 3,
        strategy: PoolStrategy::Warm,
    }) {
        Ok(p) => p,
        Err(e) => panic!("{e:?}"),
    };
    for n in 0..3u32 {
        assert!(matches!(p.try_acquire(|_: &u32| true), Ok(Acquired::Spawn)));
        assert_eq!(p.active() as u32, n + 1);
    }
    for n in 0..3u32 {
        assert!(matches!(p.return_isle(n, true, false), Returned::Kept));
    }
    // The last is dead by now: the one before it is handed out.
    assert!(matches!(
        p.try_acquire(|n: &u32| *n != 2),
        Ok(Acquired::Isle(1))
    ));
    assert_eq!((p.active(), p.idle()), (1, 1));
    // All dead: there is room for a new one.
    assert!(matches!(p.try_acquire(|_: &u32| false), Ok(Acquired::Spawn)));
    assert_eq!((p.active(), p.idle()), (2, 0));
    // A dead one that comes back is not kept.
    assert!(matches!(p.return_isle(9, false, false), Returned::Dead(9)));
    assert_eq!((p.active(), p.idle()), (1, 0));
}

#[test]
fn an_isle_given_back_to_a_closed_pool_is_shut_down() {
    let mut p = pool(1, PoolStrategy::Warm);
    let isle = take(&mut p, nothing);
    assert!(p.shutdown().is_empty());
    assert!(matches!(give_back(&mut p, isle), Returned::ShutDown(_)));
    assert_eq!((p.active(), p.idle()), (0, 0));
    assert!(matches!(p.exhausted(), IsleError::PoolExhausted(1)));
}

#[test]
fn the_active_count_is_the_guards_and_the_spawns() {
    fn failing(_: &mlua::Lua) -> mlua::Result<()> {
        Err(mlua::Error::runtime("no"))
    }
    let mut p = pool(3, PoolStrategy::Warm);
    let a = take(&mut p, nothing);
    let b = take(&mut p, nothing);
    assert_eq!((p.active(), p.idle()), (2, 0));
    // A spawn in progress counts; one that failed leaves no slot taken.
    assert!(matches!(
        p.try_checkout(|i: &Isle| i.alive),
        Ok(Some(Checkout::Spawn))
    ));
    assert_eq!(p.active(), 3);
    p.dec_active();
    assert!(checkout(&mut p, failing).is_err());
    assert_eq!((p.active(), p.idle()), (2, 0));
    give_back(&mut p, a);
    assert_eq!((p.active(), p.idle()), (1, 1));
    // No VM is with two guards at once.
    exec(&b, "mine = 'b'");
    let c = take(&mut p, nothing);
    let d = take(&mut p, nothing);
    exec(&c, "mine = 'c'");
    exec(&d, "mine = 'd'");
    assert_eq!(text(&b, "return mine"), "b");
    assert_eq!(text(&c, "return mine"), "c");
    assert_eq!((p.active(), p.idle()), (3, 0));
}
