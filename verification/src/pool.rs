//! The pools: which Isle a checkout gets, and what becomes of one that is
//! given back.
//!
//! A pool hands out idle Isles first, grows up to its size, and otherwise
//! makes the caller wait.  [`PoolStrategy::Cold`] destroys an Isle that is
//! given back; [`PoolStrategy::Warm`] keeps it for the next checkout.

use crate::error::{plain, IsleError, IsleErrorView, LuaErrorKind, LuaFailure};
use vstd::prelude::*;

verus! {

/// Pool strategy controls what happens when a [`PooledIsle`] is returned.
#[derive(Debug, Clone, Copy, PartialEq, Eq, Structural)]
pub enum PoolStrategy {
    /// Destroy the Isle on return and spawn a fresh one on next checkout.
    Cold,
    /// Return the Isle to the pool for reuse.
    Warm,
}

/// Configuration of a pool.
#[derive(Debug, Clone, Copy, PartialEq, Eq, Structural)]
pub struct PoolConfig {
    /// Maximum number of Isles that can exist simultaneously.
    pub max_size: usize,
    /// Strategy for handling returned Isles.
    pub strategy: PoolStrategy,
}

/// The state of a pool of Isles `S`.
pub struct IslePool<S> {
    /// Isles ready for checkout.
    idle: Vec<S>,
    /// Number of Isles currently checked out.
    active: usize,
    /// Whether the pool has been shut down.
    closed: bool,
    config: PoolConfig,
}

/// A pool as the contracts see it.
pub struct PoolView<S> {
    pub idle: Seq<S>,
    pub active: usize,
    pub closed: bool,
    pub config: PoolConfig,
}

/// What a checkout gets.
pub enum Acquired<S> {
    /// An idle Isle.
    Isle(S),
    /// Room for one more: the caller spawns it.
    Spawn,
    /// Nothing now: the pool is at its size.
    Wait,
}

/// The next step of a checkout.
pub enum Checkout<S> {
    /// Hand out this Isle.
    Isle(S),
    /// Spawn an Isle and hand it out.
    Spawn,
    /// Wait until something comes back, or for this long at most, and try
    /// again.
    Sleep(Option<u128>),
}

/// What becomes of an Isle that is given back.
pub enum Returned<S> {
    /// It is idle in the pool.
    Kept,
    /// The caller shuts it down.
    ShutDown(S),
    /// Its thread has ended already.
    Dead(S),
}

/// `n` less one, and never below zero.
pub open spec fn one_less(n: usize) -> usize {
    if n == 0 {
        0
    } else {
        (n - 1) as usize
    }
}

/// The pool never has more Isles than its size; a closed pool and a cold
/// pool keep none.
pub open spec fn within_bounds<S>(v: PoolView<S>) -> bool {
    &&& v.config.max_size >= 1
    &&& v.active + v.idle.len() <= v.config.max_size
    &&& v.closed ==> v.idle.len() == 0
    &&& v.config.strategy == PoolStrategy::Cold ==> v.idle.len() == 0
}

/// `v` after the idle Isle at `k` was handed out, and those behind it, all
/// dead, were dropped.
pub open spec fn handed_out<S>(v: PoolView<S>, k: int) -> PoolView<S> {
    PoolView { idle: v.idle.take(k), active: (v.active + 1) as usize, ..v }
}

/// `v` after an Isle was given back.
pub open spec fn given_back<S>(v: PoolView<S>, isle: S, alive: bool, killed: bool) -> PoolView<S> {
    let active = one_less(v.active);
    if !killed && !v.closed && v.config.strategy == PoolStrategy::Warm && alive {
        PoolView { active, idle: v.idle.push(isle), ..v }
    } else {
        PoolView { active, ..v }
    }
}

/// `v` after a shutdown.
pub open spec fn shut<S>(v: PoolView<S>) -> PoolView<S> {
    PoolView { closed: true, idle: Seq::empty(), ..v }
}

impl<S> View for IslePool<S> {
    type V = PoolView<S>;

    closed spec fn view(&self) -> PoolView<S> {
        PoolView {
            idle: self.idle@,
            active: self.active,
            closed: self.closed,
            config: self.config,
        }
    }
}

impl<S> IslePool<S> {
    /// The pool is within its bounds.
    pub open spec fn wf(&self) -> bool {
        within_bounds(self@)
    }

    /// Create a pool.  No Isle is created eagerly.
    pub fn new(config: PoolConfig) -> (r: Result<Self, IsleError>)
        ensures
            match r {
                Ok(pool) => {
                    &&& config.max_size > 0
                    &&& pool.wf()
                    &&& pool@ == (PoolView {
                        idle: Seq::<S>::empty(),
                        active: 0,
                        closed: false,
                        config,
                    })
                },
                Err(e) => {
                    &&& config.max_size == 0
                    &&& e@ == IsleErrorView::Init(
                        plain(LuaErrorKind::External, "max_size must be > 0"@),
                    )
                },
            },
    {
        if config.max_size == 0 {
            return Err(
                IsleError::Init(
                    LuaFailure::new(LuaErrorKind::External, "max_size must be > 0".to_owned()),
                ),
            );
        }
        Ok(IslePool { idle: Vec::new(), active: 0, closed: false, config })
    }

    /// Attempt to acquire an Isle: the youngest idle one whose thread is
    /// alive (dead ones are dropped on the way), or room for a new one.
    /// Where the caller has to spawn one, it counts as checked out already.
    pub fn try_acquire<A: Fn(&S) -> bool>(&mut self, alive: A) -> (r: Result<
        Acquired<S>,
        IsleError,
    >)
        requires
            old(self).wf(),
            forall|s: S| #[trigger] call_requires(alive, (&s,)),
        ensures
            final(self).wf(),
            acquires(alive, old(self)@, r, final(self)@),
    {
        if self.closed {
            return Err(IsleError::Shutdown);
        }
        match self.take_alive(alive) {
            Some(s) => {
                self.active = self.active + 1;
                Ok(Acquired::Isle(s))
            },
            None => {
                if self.active < self.config.max_size {
                    self.active = self.active + 1;
                    Ok(Acquired::Spawn)
                } else {
                    Ok(Acquired::Wait)
                }
            },
        }
    }

    /// The next step of a checkout that waits for as long as it takes.
    pub fn checkout<A: Fn(&S) -> bool>(&mut self, alive: A) -> (r: Result<
        Checkout<S>,
        IsleError,
    >)
        requires
            old(self).wf(),
            forall|s: S| #[trigger] call_requires(alive, (&s,)),
        ensures
            final(self).wf(),
            exists|attempt: Result<Acquired<S>, IsleError>| #[trigger]
                acquires(alive, old(self)@, attempt, final(self)@) && match at_once(attempt) {
                    Err(e) => r == Err::<Checkout<S>, IsleError>(e),
                    Ok(Some(step)) => r == Ok::<Checkout<S>, IsleError>(step),
                    Ok(None) => r == Ok::<Checkout<S>, IsleError>(Checkout::Sleep(None)),
                },
    {
        match self.try_checkout(alive) {
            Ok(Some(step)) => Ok(step),
            Ok(None) => Ok(Checkout::Sleep(None)),
            Err(e) => Err(e),
        }
    }

    /// A checkout that does not wait: `None` when the pool is at its size.
    pub fn try_checkout<A: Fn(&S) -> bool>(&mut self, alive: A) -> (r: Result<
        Option<Checkout<S>>,
        IsleError,
    >)
        requires
            old(self).wf(),
            forall|s: S| #[trigger] call_requires(alive, (&s,)),
        ensures
            final(self).wf(),
            exists|attempt: Result<Acquired<S>, IsleError>| #[trigger]
                acquires(alive, old(self)@, attempt, final(self)@) && r == at_once(attempt),
    {
        let attempt: Result<Acquired<S>, IsleError> = self.try_acquire(alive);
        assert(acquires(alive, old(self)@, attempt, self@));
        match attempt {
            Ok(Acquired::Isle(isle)) => Ok(Some(Checkout::Isle(isle))),
            Ok(Acquired::Spawn) => Ok(Some(Checkout::Spawn)),
            Ok(Acquired::Wait) => Ok(None),
            Err(e) => Err(e),
        }
    }

    /// The next step, at `now`, of a checkout that waits until `deadline`:
    /// [`IsleError::PoolExhausted`] when the deadline has come and the pool
    /// is at its size.
    pub fn checkout_timeout<A: Fn(&S) -> bool>(
        &mut self,
        alive: A,
        deadline: u128,
        now: u128,
    ) -> (r: Result<Checkout<S>, IsleError>)
        requires
            old(self).wf(),
            forall|s: S| #[trigger] call_requires(alive, (&s,)),
        ensures
            final(self).wf(),
            exists|attempt: Result<Acquired<S>, IsleError>| #[trigger]
                acquires(alive, old(self)@, attempt, final(self)@) && match at_once(attempt) {
                    Err(e) => r == Err::<Checkout<S>, IsleError>(e),
                    Ok(Some(step)) => r == Ok::<Checkout<S>, IsleError>(step),
                    Ok(None) => if now < deadline {
                        r == Ok::<Checkout<S>, IsleError>(
                            Checkout::Sleep(Some((deadline - now) as u128)),
                        )
                    } else {
                        r matches Err(e) && e@ == IsleErrorView::PoolExhausted(
                            old(self)@.config.max_size,
                        )
                    },
                },
    {
        match self.try_checkout(alive) {
            Ok(Some(step)) => Ok(step),
            Ok(None) => match self.remaining(deadline, now) {
                Ok(left) => Ok(Checkout::Sleep(Some(left))),
                Err(e) => Err(e),
            },
            Err(e) => Err(e),
        }
    }

    /// Take an alive Isle from the idle list, skipping dead ones.
    fn take_alive<A: Fn(&S) -> bool>(&mut self, alive: A) -> (r: Option<S>)
        requires
            forall|s: S| #[trigger] call_requires(alive, (&s,)),
        ensures
            final(self).active == old(self).active,
            final(self).closed == old(self).closed,
            final(self).config == old(self).config,
            match r {
                Some(s) => {
                    &&& call_ensures(alive, (&s,), true)
                    &&& exists|k: int|
                        0 <= k < old(self)@.idle.len() && #[trigger] old(self)@.idle[k] == s
                            && all_dead(alive, old(self)@.idle.skip(k + 1)) && final(self)@.idle
                            == old(self)@.idle.take(k)
                },
                None => all_dead(alive, old(self)@.idle) && final(self)@.idle == Seq::<S>::empty(),
            },
    {
        let ghost all = self.idle@;
        loop
            invariant
                self.idle@.len() <= all.len(),
                self.idle@ == all.take(self.idle@.len() as int),
                all == old(self)@.idle,
                all_dead(alive, all.skip(self.idle@.len() as int)),
                forall|s: S| #[trigger] call_requires(alive, (&s,)),
                self.active == old(self).active,
                self.closed == old(self).closed,
                self.config == old(self).config,
            decreases self.idle@.len(),
        {
            match self.idle.pop() {
                Some(s) => {
                    let ghost k = self.idle@.len() as int;
                    assert(all[k] == s);
                    if alive(&s) {
                        return Some(s);
                    }
                    proof {
                        assert(all.skip(k) == seq![s] + all.skip(k + 1));
                        assert forall|i: int| 0 <= i < all.skip(k).len() implies call_ensures(
                            alive,
                            (&#[trigger] all.skip(k)[i],),
                            false,
                        ) by {
                            if i > 0 {
                                assert(all.skip(k)[i] == all.skip(k + 1)[i - 1]);
                            }
                        }
                    }
                },
                None => {
                    assert(all.skip(0) == all);
                    return None;
                },
            }
        }
    }

    /// Give back an Isle.
    ///
    /// A killed one, and any one in a cold or closed pool, is for the
    /// caller to shut down; a warm pool keeps one whose thread is alive.
    pub fn return_isle(&mut self, isle: S, alive: bool, killed: bool) -> (r: Returned<S>)
        ensures
            final(self)@ == given_back(old(self)@, isle, alive, killed),
            old(self).wf() && old(self)@.active > 0 ==> final(self).wf(),
            match r {
                Returned::Kept => !killed && !old(self)@.closed && old(self)@.config.strategy
                    == PoolStrategy::Warm && alive,
                Returned::ShutDown(s) => s == isle && (killed || old(self)@.closed
                    || old(self)@.config.strategy == PoolStrategy::Cold),
                Returned::Dead(s) => s == isle && !killed && !old(self)@.closed
                    && old(self)@.config.strategy == PoolStrategy::Warm && !alive,
            },
    {
        self.active = if self.active == 0 {
            0
        } else {
            self.active - 1
        };
        if killed || self.closed {
            return Returned::ShutDown(isle);
        }
        match self.config.strategy {
            PoolStrategy::Cold => Returned::ShutDown(isle),
            PoolStrategy::Warm => {
                if alive {
                    self.idle.push(isle);
                    Returned::Kept
                } else {
                    Returned::Dead(isle)
                }
            },
        }
    }

    /// The Isle that was to be spawned could not be.
    pub fn dec_active(&mut self)
        ensures
            final(self)@ == (PoolView { active: one_less(old(self)@.active), ..old(self)@ }),
            old(self).wf() ==> final(self).wf(),
    {
        self.active = if self.active == 0 {
            0
        } else {
            self.active - 1
        };
    }

    /// How long a checkout with a deadline may wait, or
    /// [`IsleError::PoolExhausted`] when the deadline has come.
    pub fn remaining(&self, deadline: u128, now: u128) -> (r: Result<u128, IsleError>)
        ensures
            match r {
                Ok(left) => now < deadline && left == deadline - now,
                Err(e) => now >= deadline && e@ == IsleErrorView::PoolExhausted(
                    self@.config.max_size,
                ),
            },
    {
        if now < deadline {
            Ok(deadline - now)
        } else {
            Err(self.exhausted())
        }
    }

    /// The error of a checkout whose deadline has come.
    pub fn exhausted(&self) -> (r: IsleError)
        ensures
            r@ == IsleErrorView::PoolExhausted(self@.config.max_size),
    {
        IsleError::PoolExhausted(self.config.max_size)
    }

    /// Number of currently checked-out Isles.
    pub fn active(&self) -> (r: usize)
        ensures
            r == self@.active,
    {
        self.active
    }

    /// Number of idle Isles available for checkout.
    pub fn idle(&self) -> (r: usize)
        ensures
            r == self@.idle.len(),
    {
        self.idle.len()
    }

    /// Close the pool and hand out its idle Isles, for the caller to shut
    /// down.
    pub fn shutdown(&mut self) -> (r: Vec<S>)
        ensures
            final(self)@ == shut(old(self)@),
            r@ == old(self)@.idle,
            old(self).wf() ==> final(self).wf(),
    {
        self.closed = true;
        let mut drained: Vec<S> = Vec::new();
        drained.append(&mut self.idle);
        drained
    }
}

/// `r` is what an attempt to acquire an Isle from the pool `v` gives, and
/// `after` the pool after it.
pub open spec fn acquires<S, A: Fn(&S) -> bool>(
    alive: A,
    v: PoolView<S>,
    r: Result<Acquired<S>, IsleError>,
    after: PoolView<S>,
) -> bool {
    match r {
        Err(e) => {
            &&& v.closed
            &&& e@ == IsleErrorView::Shutdown
            &&& after == v
        },
        Ok(Acquired::Isle(s)) => {
            &&& !v.closed
            &&& call_ensures(alive, (&s,), true)
            &&& exists|k: int|
                0 <= k < v.idle.len() && #[trigger] v.idle[k] == s && all_dead(
                    alive,
                    v.idle.skip(k + 1),
                ) && after == handed_out(v, k)
        },
        Ok(Acquired::Spawn) => {
            &&& !v.closed
            &&& all_dead(alive, v.idle)
            &&& v.active < v.config.max_size
            &&& after == (PoolView {
                idle: Seq::<S>::empty(),
                active: (v.active + 1) as usize,
                ..v
            })
        },
        Ok(Acquired::Wait) => {
            &&& !v.closed
            &&& all_dead(alive, v.idle)
            &&& v.active >= v.config.max_size
            &&& after == (PoolView { idle: Seq::<S>::empty(), ..v })
        },
    }
}

/// What a checkout that does not wait makes of an attempt.
pub open spec fn at_once<S>(
    attempt: Result<Acquired<S>, IsleError>,
) -> Result<Option<Checkout<S>>, IsleError> {
    match attempt {
        Err(e) => Err(e),
        Ok(Acquired::Isle(s)) => Ok(Some(Checkout::Isle(s))),
        Ok(Acquired::Spawn) => Ok(Some(Checkout::Spawn)),
        Ok(Acquired::Wait) => Ok(None),
    }
}

/// Every Isle of `isles` was found dead.
pub open spec fn all_dead<S, A: Fn(&S) -> bool>(alive: A, isles: Seq<S>) -> bool {
    forall|i: int| 0 <= i < isles.len() ==> call_ensures(alive, (&#[trigger] isles[i],), false)
}

/// A checked-out Isle.
pub struct PooledIsle<S> {
    isle: S,
    killed: bool,
}

impl<S> PooledIsle<S> {
    /// The Isle.
    pub closed spec fn inner(&self) -> S {
        self.isle
    }

    /// It was marked for disposal.
    pub closed spec fn is_killed(&self) -> bool {
        self.killed
    }

    /// An Isle that was just handed out.
    pub fn new(isle: S) -> (r: Self)
        ensures
            r.inner() == isle,
            !r.is_killed(),
    {
        PooledIsle { isle, killed: false }
    }

    /// The Isle.
    pub fn isle(&self) -> (r: &S)
        ensures
            *r == self.inner(),
    {
        &self.isle
    }

    /// Mark the Isle for disposal: it will be shut down rather than
    /// returned to the pool.
    pub fn kill(&mut self)
        ensures
            final(self).inner() == old(self).inner(),
            final(self).is_killed(),
    {
        self.killed = true;
    }

    /// Give the Isle back.
    pub fn give_back(self, pool: &mut IslePool<S>, alive: bool) -> (r: Returned<S>)
        ensures
            final(pool)@ == given_back(old(pool)@, self.inner(), alive, self.is_killed()),
            old(pool).wf() && old(pool)@.active > 0 ==> final(pool).wf(),
            match r {
                Returned::Kept => !self.is_killed() && !old(pool)@.closed
                    && old(pool)@.config.strategy == PoolStrategy::Warm && alive,
                Returned::ShutDown(s) => s == self.inner() && (self.is_killed()
                    || old(pool)@.closed || old(pool)@.config.strategy == PoolStrategy::Cold),
                Returned::Dead(s) => s == self.inner() && !self.is_killed()
                    && !old(pool)@.closed && old(pool)@.config.strategy == PoolStrategy::Warm
                    && !alive,
            },
    {
        pool.return_isle(self.isle, alive, self.killed)
    }
}

/// A pool that was shut down stays shut down, whatever comes back to it,
/// and keeps no Isle.
pub proof fn law_shutdown_is_final<S>(v: PoolView<S>, isle: S, alive: bool, killed: bool)
    requires
        within_bounds(v),
    ensures
        shut(v).closed,
        given_back(shut(v), isle, alive, killed).closed,
        given_back(shut(v), isle, alive, killed).idle.len() == 0,
        shut(shut(v)) == shut(v),
{
}

/// In a warm pool, the Isle given back last is the one handed out next (if
/// its thread is alive then), and the pool is as it was before it came
/// back.
pub proof fn law_warm_reuses_the_last<S>(v: PoolView<S>, isle: S)
    requires
        within_bounds(v),
        v.config.strategy == PoolStrategy::Warm,
        !v.closed,
        v.active > 0,
    ensures
        ({
            let w = given_back(v, isle, true, false);
            &&& w.idle.len() == v.idle.len() + 1
            &&& w.idle[v.idle.len() as int] == isle
            &&& handed_out(w, v.idle.len() as int) == v
        }),
{
    assert(v.idle.push(isle).take(v.idle.len() as int) == v.idle);
}

/// A cold pool never has an idle Isle: each checkout gets a fresh one.
pub proof fn law_cold_never_reuses<S>(v: PoolView<S>, isle: S, alive: bool, killed: bool)
    requires
        within_bounds(v),
        v.config.strategy == PoolStrategy::Cold,
    ensures
        v.idle.len() == 0,
        given_back(v, isle, alive, killed).idle.len() == 0,
{
}

/// A killed Isle does not come back into the pool.
pub proof fn law_killed_is_not_kept<S>(v: PoolView<S>, isle: S, alive: bool)
    ensures
        given_back(v, isle, alive, true).idle == v.idle,
{
}

/// Giving back what was handed out never takes the pool beyond its size.
pub proof fn law_pool_stays_within_its_size<S>(v: PoolView<S>, isle: S, alive: bool, killed: bool)
    requires
        within_bounds(v),
        v.active > 0,
    ensures
        within_bounds(given_back(v, isle, alive, killed)),
        within_bounds(shut(v)),
{
}

/// A pool, the Isles that guards hold, and how many are being spawned.
pub struct Ledger<S> {
    pub pool: PoolView<S>,
    /// The checked-out Isles.
    pub held: Seq<S>,
    /// The checkouts whose Isle is being spawned.
    pub spawning: nat,
}

/// One thing that happens to a pool.
pub enum PoolOp<S> {
    /// A checkout got the idle Isle at this place.
    HandedOut(int),
    /// A checkout has to spawn its Isle.
    Spawning,
    /// A checkout found nothing.
    Waited,
    /// A new Isle was spawned and handed out.
    Spawned(S),
    /// An Isle could not be spawned.
    SpawnFailed,
    /// The Isle of the guard at `at` was given back.
    GivenBack { at: int, alive: bool, killed: bool },
    /// The pool was shut down.
    ShutDown,
}

/// `after` is what `op` makes of `before`.
pub open spec fn booked<S>(before: Ledger<S>, op: PoolOp<S>, after: Ledger<S>) -> bool {
    let v = before.pool;
    match op {
        PoolOp::HandedOut(k) => {
            &&& !v.closed
            &&& 0 <= k < v.idle.len()
            &&& after == (Ledger {
                pool: handed_out(v, k),
                held: before.held.push(v.idle[k]),
                ..before
            })
        },
        PoolOp::Spawning => {
            &&& !v.closed
            &&& v.active < v.config.max_size
            &&& after == (Ledger {
                pool: PoolView { idle: Seq::empty(), active: (v.active + 1) as usize, ..v },
                spawning: before.spawning + 1,
                ..before
            })
        },
        PoolOp::Waited => after == (Ledger {
            pool: PoolView { idle: Seq::empty(), ..v },
            ..before
        }),
        PoolOp::Spawned(s) => {
            &&& before.spawning > 0
            &&& !v.idle.contains(s)
            &&& !before.held.contains(s)
            &&& after == (Ledger {
                held: before.held.push(s),
                spawning: (before.spawning - 1) as nat,
                ..before
            })
        },
        PoolOp::SpawnFailed => {
            &&& before.spawning > 0
            &&& after == (Ledger {
                pool: PoolView { active: one_less(v.active), ..v },
                spawning: (before.spawning - 1) as nat,
                ..before
            })
        },
        PoolOp::GivenBack { at, alive, killed } => {
            &&& 0 <= at < before.held.len()
            &&& after == (Ledger {
                pool: given_back(v, before.held[at], alive, killed),
                held: before.held.remove(at),
                ..before
            })
        },
        PoolOp::ShutDown => after == (Ledger { pool: shut(v), ..before }),
    }
}

/// The pool is within its size, its active count is the guards and the
/// spawns in progress, and no Isle is in two places.
pub open spec fn balanced<S>(l: Ledger<S>) -> bool {
    &&& within_bounds(l.pool)
    &&& l.pool.active == l.held.len() + l.spawning
    &&& l.pool.idle.no_duplicates()
    &&& l.held.no_duplicates()
    &&& forall|i: int, j: int|
        0 <= i < l.pool.idle.len() && 0 <= j < l.held.len() ==> #[trigger] l.pool.idle[i]
            != #[trigger] l.held[j]
}

/// A pool that was just created.
pub open spec fn unused<S>(l: Ledger<S>) -> bool {
    &&& l.pool.config.max_size >= 1
    &&& l.pool.idle.len() == 0
    &&& l.pool.active == 0
    &&& l.held.len() == 0
    &&& l.spawning == 0
}

proof fn lemma_booked<S>(before: Ledger<S>, op: PoolOp<S>, after: Ledger<S>)
    requires
        balanced(before),
        booked(before, op, after),
    ensures
        balanced(after),
{
    let v = before.pool;
    match op {
        PoolOp::GivenBack { at, .. } => {
            let isle = before.held[at];
            assert forall|j: int| 0 <= j < after.held.len() implies after.held[j] != isle && exists|
                i: int,
            |
                0 <= i < before.held.len() && #[trigger] before.held[i] == #[trigger] after.held[j] by {
                if j < at {
                    assert(after.held[j] == before.held[j]);
                } else {
                    assert(after.held[j] == before.held[j + 1]);
                }
            }
            assert forall|i: int| 0 <= i < v.idle.len() implies #[trigger] v.idle[i] != isle by {}
        },
        PoolOp::HandedOut(k) => {
            assert forall|i: int| 0 <= i < k implies #[trigger] after.pool.idle[i] == v.idle[i] by {}
        },
        PoolOp::Spawned(s) => {
            assert forall|i: int| 0 <= i < v.idle.len() implies #[trigger] v.idle[i] != s by {}
        },
        _ => {},
    }
}

/// Whatever happens to a pool, it stays within its size, its active count is
/// the number of guards and of spawns in progress, and no Isle is held by
/// two guards, or held and idle, at once.  (A spawned Isle is a new one.)
pub proof fn law_the_books_balance<S>(states: Seq<Ledger<S>>, ops: Seq<PoolOp<S>>, i: int)
    requires
        states.len() == ops.len() + 1,
        unused(states[0]),
        forall|k: int| 0 <= k < ops.len() ==> booked(states[k], #[trigger] ops[k], states[k + 1]),
        0 <= i < states.len(),
    ensures
        balanced(states[i]),
        states[i].pool.active + states[i].pool.idle.len() <= states[i].pool.config.max_size,
    decreases i,
{
    if i > 0 {
        law_the_books_balance(states, ops, i - 1);
        lemma_booked(states[i - 1], ops[i - 1], states[i]);
    }
}

/// An idle Isle that is alive comes first: as long as there is one, an open
/// pool hands out an idle Isle, and neither asks for a new one nor makes the
/// caller wait.
pub proof fn law_idle_isles_are_handed_out_first<S, A: Fn(&S) -> bool>(alive: A, i: int)
    ensures
        forall|pool: &mut IslePool<S>, r: Result<Acquired<S>, IsleError>| #[trigger]
            call_ensures(IslePool::<S>::try_acquire::<A>, (pool, alive), r) && !pool@.closed && 0
                <= i < pool@.idle.len() && !call_ensures(alive, (&pool@.idle[i],), false) ==> r
                matches Ok(Acquired::Isle(_)),
{
}

/// What an attempt gives and leaves behind.  A closed pool gives the shutdown
/// error, and an open one never does.  An Isle that is handed out was idle
/// and answered that it is alive; those behind it answered that they are
/// dead, and are gone; those before it stay, untouched.  A new Isle is asked
/// for only where every idle one is dead and the pool is below its size, and
/// a wait only where it is at its size.
pub proof fn law_an_attempt_gives_what_the_pool_has<S, A: Fn(&S) -> bool>(alive: A)
    ensures
        forall|pool: &mut IslePool<S>, r: Result<Acquired<S>, IsleError>| #[trigger]
            call_ensures(IslePool::<S>::try_acquire::<A>, (pool, alive), r) && pool.wf() ==> {
                let v = pool@;
                let w = final(pool)@;
                &&& w.closed == v.closed && w.config == v.config
                &&& w.idle.len() <= v.idle.len()
                &&& forall|j: int| 0 <= j < w.idle.len() ==> #[trigger] w.idle[j] == v.idle[j]
                &&& match r {
                    Err(e) => v.closed && e@ == IsleErrorView::Shutdown && w == v,
                    Ok(Acquired::Isle(s)) => {
                        &&& !v.closed
                        &&& w.active == v.active + 1
                        &&& w.idle.len() < v.idle.len()
                        &&& s == v.idle[w.idle.len() as int]
                        &&& call_ensures(alive, (&s,), true)
                        &&& forall|j: int|
                            w.idle.len() < j < v.idle.len() ==> call_ensures(
                                alive,
                                (&#[trigger] v.idle[j],),
                                false,
                            )
                    },
                    Ok(Acquired::Spawn) => {
                        &&& !v.closed
                        &&& w.active == v.active + 1
                        &&& w.active <= v.config.max_size
                        &&& w.idle.len() == 0
                        &&& forall|j: int|
                            0 <= j < v.idle.len() ==> call_ensures(
                                alive,
                                (&#[trigger] v.idle[j],),
                                false,
                            )
                    },
                    Ok(Acquired::Wait) => {
                        &&& !v.closed
                        &&& w.active == v.active
                        &&& w.active == v.config.max_size
                        &&& w.idle.len() == 0
                        &&& forall|j: int|
                            0 <= j < v.idle.len() ==> call_ensures(
                                alive,
                                (&#[trigger] v.idle[j],),
                                false,
                            )
                    },
                }
            },
{
    assert forall|pool: &mut IslePool<S>, s: S| #[trigger]
        call_ensures(
            IslePool::<S>::try_acquire::<A>,
            (pool, alive),
            Ok::<Acquired<S>, IsleError>(Acquired::Isle(s)),
        ) && pool.wf() implies {
        let v = pool@;
        let w = final(pool)@;
        &&& w.idle.len() < v.idle.len()
        &&& s == v.idle[w.idle.len() as int]
        &&& forall|j: int|
            w.idle.len() < j < v.idle.len() ==> call_ensures(
                alive,
                (&#[trigger] v.idle[j],),
                false,
            )
    } by {
        let v = pool@;
        let w = final(pool)@;
        let k = choose|k: int|
            0 <= k < v.idle.len() && #[trigger] v.idle[k] == s && all_dead(
                alive,
                v.idle.skip(k + 1),
            ) && w == handed_out(v, k);
        assert forall|j: int| k < j < v.idle.len() implies call_ensures(
            alive,
            (&#[trigger] v.idle[j],),
            false,
        ) by {
            assert(v.idle.skip(k + 1)[j - k - 1] == v.idle[j]);
        }
    }
}

/// `s` is the youngest of the idle Isles of `v` that is alive, and `w` the
/// pool after it was handed out: it counts as checked out, the dead ones
/// behind it are gone, and those before it stay.
pub open spec fn takes_the_youngest<S, A: Fn(&S) -> bool>(
    alive: A,
    v: PoolView<S>,
    s: S,
    w: PoolView<S>,
) -> bool {
    &&& !v.closed && !w.closed && w.config == v.config
    &&& w.active == v.active + 1
    &&& w.idle.len() < v.idle.len()
    &&& w.idle == v.idle.take(w.idle.len() as int)
    &&& s == v.idle[w.idle.len() as int]
    &&& call_ensures(alive, (&s,), true)
    &&& forall|j: int|
        w.idle.len() < j < v.idle.len() ==> call_ensures(alive, (&#[trigger] v.idle[j],), false)
}

/// No idle Isle of `v` is alive, and `w` is the pool without them, with this
/// many checked out.
pub open spec fn finds_none_alive<S, A: Fn(&S) -> bool>(
    alive: A,
    v: PoolView<S>,
    w: PoolView<S>,
    active: int,
) -> bool {
    &&& !v.closed && !w.closed && w.config == v.config
    &&& w.active == active
    &&& w.idle.len() == 0
    &&& forall|j: int|
        0 <= j < v.idle.len() ==> call_ensures(alive, (&#[trigger] v.idle[j],), false)
}

/// What an attempt gives and leaves behind.
spec fn gives<S, A: Fn(&S) -> bool>(
    alive: A,
    v: PoolView<S>,
    r: Result<Acquired<S>, IsleError>,
    w: PoolView<S>,
) -> bool {
    match r {
        Err(e) => v.closed && e is Shutdown && w == v,
        Ok(Acquired::Isle(s)) => takes_the_youngest(alive, v, s, w),
        Ok(Acquired::Spawn) => v.active < v.config.max_size && finds_none_alive(
            alive,
            v,
            w,
            v.active + 1,
        ),
        Ok(Acquired::Wait) => v.active == v.config.max_size && finds_none_alive(
            alive,
            v,
            w,
            v.active as int,
        ),
    }
}

proof fn lemma_acquires<S, A: Fn(&S) -> bool>(
    alive: A,
    v: PoolView<S>,
    r: Result<Acquired<S>, IsleError>,
    w: PoolView<S>,
)
    requires
        within_bounds(v),
        acquires(alive, v, r, w),
    ensures
        gives(alive, v, r, w),
{
    match r {
        Ok(Acquired::Isle(s)) => {
            let k = choose|k: int|
                0 <= k < v.idle.len() && #[trigger] v.idle[k] == s && all_dead(
                    alive,
                    v.idle.skip(k + 1),
                ) && w == handed_out(v, k);
            assert forall|j: int| k < j < v.idle.len() implies call_ensures(
                alive,
                (&#[trigger] v.idle[j],),
                false,
            ) by {
                assert(v.idle.skip(k + 1)[j - k - 1] == v.idle[j]);
            }
        },
        _ => {},
    }
}

/// Every way to check out is the same attempt: what there is is given at
/// once, and they differ only where the pool is at its size and no idle Isle
/// is alive.  There, one that does not wait gives nothing.
pub proof fn law_a_checkout_that_does_not_wait<S, A: Fn(&S) -> bool>(alive: A)
    ensures
        forall|pool: &mut IslePool<S>, r: Result<Option<Checkout<S>>, IsleError>| #[trigger]
            call_ensures(IslePool::<S>::try_checkout::<A>, (pool, alive), r) && pool.wf() ==> {
                let v = pool@;
                let w = final(pool)@;
                match r {
                    Ok(Some(Checkout::Isle(s))) => takes_the_youngest(alive, v, s, w),
                    Ok(Some(Checkout::Spawn)) => v.active < v.config.max_size && finds_none_alive(
                        alive,
                        v,
                        w,
                        v.active + 1,
                    ),
                    Ok(Some(Checkout::Sleep(_))) => false,
                    Ok(None) => v.active == v.config.max_size && finds_none_alive(
                        alive,
                        v,
                        w,
                        v.active as int,
                    ),
                    Err(e) => v.closed && e is Shutdown && w == v,
                }
            },
{
    assert forall|v: PoolView<S>, r: Result<Acquired<S>, IsleError>, w: PoolView<S>|
        within_bounds(v) && #[trigger] acquires(alive, v, r, w) implies gives(alive, v, r, w) by {
        lemma_acquires(alive, v, r, w);
    }
}

/// A checkout that waits for as long as it takes gives what there is, and
/// sleeps without a limit only where there is nothing.
pub proof fn law_a_checkout_that_waits<S, A: Fn(&S) -> bool>(alive: A)
    ensures
        forall|pool: &mut IslePool<S>, r: Result<Checkout<S>, IsleError>| #[trigger]
            call_ensures(IslePool::<S>::checkout::<A>, (pool, alive), r) && pool.wf() ==> {
                let v = pool@;
                let w = final(pool)@;
                match r {
                    Ok(Checkout::Isle(s)) => takes_the_youngest(alive, v, s, w),
                    Ok(Checkout::Spawn) => v.active < v.config.max_size && finds_none_alive(
                        alive,
                        v,
                        w,
                        v.active + 1,
                    ),
                    Ok(Checkout::Sleep(limit)) => {
                        &&& limit is None
                        &&& v.active == v.config.max_size
                        &&& finds_none_alive(alive, v, w, v.active as int)
                    },
                    Err(e) => v.closed && e is Shutdown && w == v,
                }
            },
{
    assert forall|v: PoolView<S>, r: Result<Acquired<S>, IsleError>, w: PoolView<S>|
        within_bounds(v) && #[trigger] acquires(alive, v, r, w) implies gives(alive, v, r, w) by {
        lemma_acquires(alive, v, r, w);
    }
}

/// A checkout with a deadline gives what there is, also after the deadline;
/// where there is nothing it sleeps until the deadline, and once that has
/// come reports the exhaustion with the size of the pool.
pub proof fn law_a_checkout_with_a_deadline<S, A: Fn(&S) -> bool>(
    alive: A,
    deadline: u128,
    now: u128,
)
    ensures
        forall|pool: &mut IslePool<S>, r: Result<Checkout<S>, IsleError>| #[trigger]
            call_ensures(
                IslePool::<S>::checkout_timeout::<A>,
                (pool, alive, deadline, now),
                r,
            ) && pool.wf() ==> {
                let v = pool@;
                let w = final(pool)@;
                match r {
                    Ok(Checkout::Isle(s)) => takes_the_youngest(alive, v, s, w),
                    Ok(Checkout::Spawn) => v.active < v.config.max_size && finds_none_alive(
                        alive,
                        v,
                        w,
                        v.active + 1,
                    ),
                    Ok(Checkout::Sleep(limit)) => {
                        &&& limit is Some && now < deadline && now + limit->0 == deadline
                        &&& v.active == v.config.max_size
                        &&& finds_none_alive(alive, v, w, v.active as int)
                    },
                    Err(e) => {
                        &&& v.closed ==> e is Shutdown && w == v
                        &&& !v.closed ==> {
                            &&& deadline <= now
                            &&& e == IsleError::PoolExhausted(v.config.max_size)
                            &&& v.active == v.config.max_size
                            &&& finds_none_alive(alive, v, w, v.active as int)
                        }
                    },
                }
            },
{
    assert forall|v: PoolView<S>, r: Result<Acquired<S>, IsleError>, w: PoolView<S>|
        within_bounds(v) && #[trigger] acquires(alive, v, r, w) implies gives(alive, v, r, w) by {
        lemma_acquires(alive, v, r, w);
    }
}

/// An Isle that is given back frees its place, and is kept exactly if the
/// pool is open and warm and the Isle is alive and was not killed: it is then
/// the youngest idle one.  Any other Isle comes back to the caller, who shuts
/// it down unless it has died by itself.  The other idle Isles stay.
pub proof fn law_a_returned_isle_is_kept_or_comes_back<S>(isle: S, alive: bool, killed: bool)
    ensures
        forall|pool: &mut IslePool<S>, r: Returned<S>| #[trigger]
            call_ensures(IslePool::<S>::return_isle, (pool, isle, alive, killed), r) ==> {
                let v = pool@;
                let w = final(pool)@;
                &&& v.active > 0 ==> w.active == v.active - 1
                &&& v.active == 0 ==> w.active == 0
                &&& w.closed == v.closed && w.config == v.config
                &&& r is Kept <==> {
                    &&& alive
                    &&& !killed
                    &&& !v.closed
                    &&& v.config.strategy == PoolStrategy::Warm
                }
                &&& r is Kept ==> w.idle == v.idle + seq![isle]
                &&& !(r is Kept) ==> w.idle == v.idle
                &&& r is Dead <==> {
                    &&& !alive
                    &&& !killed
                    &&& !v.closed
                    &&& v.config.strategy == PoolStrategy::Warm
                }
                &&& r matches Returned::ShutDown(s) ==> s == isle
                &&& r matches Returned::Dead(s) ==> s == isle
            },
{
}

/// A guard gives back the Isle that it holds, as killed exactly if it was
/// killed.
pub proof fn law_a_guard_gives_back_what_it_holds<S>(guard: PooledIsle<S>, isle: S, alive: bool)
    ensures
        forall|g: PooledIsle<S>| #[trigger]
            call_ensures(PooledIsle::<S>::new, (isle,), g) ==> g.inner() == isle && !g.is_killed(),
        forall|g: &mut PooledIsle<S>, r: ()| #[trigger]
            call_ensures(PooledIsle::<S>::kill, (g,), r) ==> final(g).is_killed()
                && final(g).inner() == g.inner(),
        forall|pool: &mut IslePool<S>, r: Returned<S>| #[trigger]
            call_ensures(PooledIsle::<S>::give_back, (guard, pool, alive), r) ==> {
                let kept = alive && !guard.is_killed() && !pool@.closed && pool@.config.strategy
                    == PoolStrategy::Warm;
                &&& pool@.active > 0 ==> final(pool)@.active == pool@.active - 1
                &&& pool@.active == 0 ==> final(pool)@.active == 0
                &&& final(pool)@.closed == pool@.closed && final(pool)@.config == pool@.config
                &&& kept ==> final(pool)@.idle == pool@.idle + seq![guard.inner()] && r is Kept
                &&& !kept ==> final(pool)@.idle == pool@.idle && match r {
                    Returned::Kept => false,
                    Returned::ShutDown(s) => s == guard.inner() && (guard.is_killed()
                        || pool@.closed || pool@.config.strategy == PoolStrategy::Cold),
                    Returned::Dead(s) => s == guard.inner() && !guard.is_killed() && !pool@.closed
                        && pool@.config.strategy == PoolStrategy::Warm,
                }
            },
{
}

/// A pool of no size cannot be had; any other begins open and empty, with
/// nothing checked out.
pub proof fn law_a_pool_begins_open_and_empty<S>(config: PoolConfig)
    ensures
        forall|r: Result<IslePool<S>, IsleError>| #[trigger]
            call_ensures(IslePool::<S>::new, (config,), r) ==> {
                &&& r is Err <==> config.max_size == 0
                &&& r matches Err(e) ==> (e@ matches IsleErrorView::Init(f) && {
                    &&& f.kind == LuaErrorKind::External
                    &&& f.message == "max_size must be > 0"@
                    &&& f.traceback is None && f.value is None
                })
                &&& r matches Ok(pool) ==> {
                    &&& pool@.idle.len() == 0
                    &&& pool@.active == 0
                    &&& !pool@.closed
                    &&& pool@.config == config
                }
            },
{
}

/// A shutdown closes the pool and hands out every idle Isle; the checked-out
/// ones still count.  A spawn that failed gives its place back.  The counts
/// are what they say.
pub proof fn law_shutdown_hands_out_every_idle_isle<S>()
    ensures
        forall|pool: &mut IslePool<S>, r: Vec<S>| #[trigger]
            call_ensures(IslePool::<S>::shutdown, (pool,), r) ==> {
                &&& r@ == pool@.idle
                &&& final(pool)@.closed
                &&& final(pool)@.idle.len() == 0
                &&& final(pool)@.active == pool@.active
                &&& final(pool)@.config == pool@.config
            },
        forall|pool: &mut IslePool<S>, r: ()| #[trigger]
            call_ensures(IslePool::<S>::dec_active, (pool,), r) ==> {
                &&& pool@.active > 0 ==> final(pool)@.active == pool@.active - 1
                &&& pool@.active == 0 ==> final(pool)@.active == 0
                &&& final(pool)@ == (PoolView { active: final(pool)@.active, ..pool@ })
            },
        forall|pool: IslePool<S>, r: usize| #[trigger]
            call_ensures(IslePool::<S>::active, (&pool,), r) ==> r == pool@.active,
        forall|pool: IslePool<S>, r: usize| #[trigger]
            call_ensures(IslePool::<S>::idle, (&pool,), r) ==> r == pool@.idle.len(),
{
}

/// A checkout with a deadline has the time up to it, and none once it has
/// come: then the pool is exhausted, which names its size.  A guard lends the
/// isle it holds.
pub proof fn law_a_deadline_exhausts_the_pool<S>(deadline: u128, now: u128)
    ensures
        forall|pool: IslePool<S>, r: Result<u128, IsleError>| #[trigger]
            call_ensures(IslePool::<S>::remaining, (&pool, deadline, now), r) ==> {
                &&& r is Ok <==> now < deadline
                &&& r matches Ok(left) ==> now + left == deadline
                &&& r matches Err(e) ==> e == IsleError::PoolExhausted(pool@.config.max_size)
            },
        forall|pool: IslePool<S>, r: IsleError| #[trigger]
            call_ensures(IslePool::<S>::exhausted, (&pool,), r) ==> r
                == IsleError::PoolExhausted(pool@.config.max_size),
        forall|guard: PooledIsle<S>, r: &S| #[trigger]
            call_ensures(PooledIsle::<S>::isle, (&guard,), r) ==> *r == guard.inner(),
{
}

} // verus!
