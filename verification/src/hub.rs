//! The hook hub of a VM: the one global Lua debug hook, shared between
//! cancellation, preemption and user callbacks.
//!
//! A global hook is used because a per-thread hook does not reach the
//! coroutines that Lua code creates.  The hook runs at the union of the
//! callbacks' triggers; counting callbacks count the instructions of the
//! shared interval.

use crate::lua::{self, acts_of, Acts, HookSet, HookSlot};
use crate::runtime::Config;
use mlua::debug;
use mlua::{Lua, VmState};
use std::collections::HashSet;
use vstd::prelude::*;

verus! {

broadcast use vstd::std_specs::hash::group_hash_axioms;

/// `mlua::debug::Debug`: what a hook is told.
#[verifier::external_type_specification]
#[verifier::external_body]
pub struct ExDebug<'a>(mlua::debug::Debug<'a>);

/// `mlua::VmState`: whether the VM goes on or yields after a hook.
#[verifier::external_type_specification]
#[verifier::external_body]
pub struct ExVmState(mlua::VmState);

/// Instruction interval of the cancel check.
pub const CANCEL_CHECK_INTERVAL: u32 = 1000;

/// Handle of a hook callback.
#[derive(Clone, Copy, Debug, PartialEq, Eq, Hash, Structural)]
pub struct HookId(u64);

impl HookId {
    /// The number of the callback.
    pub closed spec fn number(self) -> u64 {
        self.0
    }
}

/// When a hook runs.
#[derive(Clone, Copy, Debug, PartialEq, Eq)]
pub struct Triggers {
    /// Before a function call.
    pub on_calls: bool,
    /// When Lua returns from a function.
    pub on_returns: bool,
    /// Before a new line.
    pub every_line: bool,
    /// After this many instructions.
    pub every_nth_instruction: Option<u32>,
}

/// Why a hook runs.
#[derive(Clone, Copy, Debug, PartialEq, Eq, Structural)]
pub enum Event {
    Call,
    TailCall,
    Ret,
    Line,
    Count,
    Unknown,
}

/// A registered callback.
pub struct Hook<C> {
    pub id: HookId,
    pub triggers: Triggers,
    pub callback: C,
}

/// How the global hook is set.
#[derive(Clone, Copy, Debug, PartialEq, Eq)]
pub struct Plan {
    /// The triggers of the hook.
    pub triggers: Triggers,
    /// The instructions between two count events.
    pub step: u32,
    /// The count events between two cancel checks.
    pub cancel_every: u32,
}

/// The hub of a VM.
pub struct Hub<C> {
    hooks: Vec<Hook<C>>,
    next_id: u64,
    config: Config,
    checks: u32,
    plan: Option<Plan>,
    slot: HookSlot,
    installed: usize,
}

/// A hub as the contracts see it.
pub struct HubView<C> {
    /// The callbacks, oldest first.
    pub hooks: Seq<Hook<C>>,
    /// The number the next callback gets.
    pub next_id: u64,
    /// The VM's settings.
    pub config: Config,
    /// The count events so far, modulo 2^32.
    pub checks: u32,
    /// How the hook is set, once it is.
    pub plan: Option<Plan>,
    /// The VM it is set on, and the callback it is set to.
    pub hook: Option<HookSet>,
    /// The address of the hook right after it was set, zero before.
    pub installed: usize,
}

/// The larger of two numbers.
pub open spec fn larger(a: u32, b: u32) -> u32 {
    if a >= b {
        a
    } else {
        b
    }
}

/// Some callback runs on calls.
pub open spec fn any_calls<C>(hooks: Seq<Hook<C>>) -> bool {
    exists|i: int| 0 <= i < hooks.len() && (#[trigger] hooks[i]).triggers.on_calls
}

/// Some callback runs on returns.
pub open spec fn any_returns<C>(hooks: Seq<Hook<C>>) -> bool {
    exists|i: int| 0 <= i < hooks.len() && (#[trigger] hooks[i]).triggers.on_returns
}

/// Some callback runs on lines.
pub open spec fn any_lines<C>(hooks: Seq<Hook<C>>) -> bool {
    exists|i: int| 0 <= i < hooks.len() && (#[trigger] hooks[i]).triggers.every_line
}

/// The interval of the count events: the smallest that a callback asks for,
/// at least one and at most the interval of the cancel check.
pub open spec fn interval<C>(hooks: Seq<Hook<C>>) -> u32
    decreases hooks.len(),
{
    if hooks.len() == 0 {
        CANCEL_CHECK_INTERVAL
    } else {
        let before = interval(hooks.drop_last());
        match hooks.last().triggers.every_nth_instruction {
            Some(n) => if n < before {
                larger(n, 1)
            } else {
                before
            },
            None => before,
        }
    }
}

/// How the hook has to be set for `hooks`.
pub open spec fn plan_for<C>(hooks: Seq<Hook<C>>) -> Plan {
    let step = interval(hooks);
    Plan {
        triggers: Triggers {
            on_calls: any_calls(hooks),
            on_returns: any_returns(hooks),
            every_line: any_lines(hooks),
            every_nth_instruction: Some(step),
        },
        step,
        cancel_every: ((CANCEL_CHECK_INTERVAL + step - 1) / step as int) as u32,
    }
}

/// When the callbacks run, oldest first.
pub open spec fn triggers_of<C>(hooks: Seq<Hook<C>>) -> Seq<Triggers> {
    Seq::new(hooks.len(), |i: int| hooks[i].triggers)
}

/// The hub after the hook was set for its callbacks, on `lua` and to a
/// callback that acts like this.
pub open spec fn installed<C>(hub: HubView<C>, lua: Lua, acts: Acts) -> HubView<C> {
    let plan = plan_for(hub.hooks);
    HubView {
        plan: Some(plan),
        hook: Some(HookSet { lua, triggers: plan.triggers, acts }),
        ..hub
    }
}

/// The ids are distinct and below the next one.
pub open spec fn numbered<C>(v: HubView<C>) -> bool {
    &&& forall|i: int| 0 <= i < v.hooks.len() ==> (#[trigger] v.hooks[i]).id.number() < v.next_id
    &&& forall|i: int, j: int|
        0 <= i < j < v.hooks.len() ==> (#[trigger] v.hooks[i]).id != (#[trigger] v.hooks[j]).id
}

/// The callbacks without `id`.
pub open spec fn without_hook<C>(hooks: Seq<Hook<C>>, id: HookId) -> Seq<Hook<C>>
    decreases hooks.len(),
{
    if hooks.len() == 0 {
        hooks
    } else if hooks.last().id == id {
        without_hook(hooks.drop_last(), id)
    } else {
        without_hook(hooks.drop_last(), id).push(hooks.last())
    }
}

/// `id` is registered.
pub open spec fn registered<C>(hooks: Seq<Hook<C>>, id: HookId) -> bool {
    exists|i: int| 0 <= i < hooks.len() && (#[trigger] hooks[i]).id == id
}

/// What a hook event has to do before the callbacks run.
#[derive(Clone, Copy, Debug, PartialEq, Eq, Structural)]
pub enum Tick {
    /// Nothing.
    Pass,
    /// Look at the current token and, if `preempt`, yield the coroutine if
    /// it is one of the crate's.
    Check { preempt: bool },
}

/// What the dispatcher does after the cancel check.
#[derive(Clone, Copy, Debug, PartialEq, Eq, Structural)]
pub enum Verdict {
    /// Raise the cancellation; no callback runs.
    Cancel,
    /// Run the callbacks, then go on, or yield.
    Run { want_yield: bool },
}

/// The count of events after one more.
pub open spec fn counted(checks: u32) -> u32 {
    ((checks + 1) % 0x1_0000_0000) as u32
}

/// What the count event that makes the count `checks` has to do.
pub open spec fn tick_at(checks: u32, cancel_every: u32, config: Config) -> Tick {
    if checks % cancel_every == 0 {
        Tick::Check {
            preempt: config.preempt_every matches Some(n) && (checks / cancel_every) % larger(n, 1)
                == 0,
        }
    } else {
        Tick::Pass
    }
}

impl<C> View for Hub<C> {
    type V = HubView<C>;

    closed spec fn view(&self) -> HubView<C> {
        HubView {
            hooks: self.hooks@,
            next_id: self.next_id,
            config: self.config,
            checks: self.checks,
            plan: self.plan,
            hook: self.slot.set_to(),
            installed: self.installed,
        }
    }
}

impl<C> Hub<C> {
    /// The ids are distinct, the plan is one that can be had, and the hook is
    /// set as it says.
    pub open spec fn wf(&self) -> bool {
        &&& numbered(self@)
        &&& self@.plan matches Some(p) ==> {
            &&& p.step >= 1 && p.cancel_every >= 1
            &&& self@.hook matches Some(h) && h.triggers == p.triggers
        }
    }

    /// A hub without callbacks, with the default settings.
    pub fn new(vm: Lua) -> (r: Self)
        ensures
            r.wf(),
            r@.hooks.len() == 0,
            r@.next_id == 0,
            r@.checks == 0,
            r@.plan is None,
            r@.hook is None,
            r@.installed == 0,
            crate::runtime::nanos(r@.config.grace) == 0,
            r@.config.preempt_every is None,
    {
        Hub {
            hooks: Vec::new(),
            next_id: 0,
            config: Config::default(),
            checks: 0,
            plan: None,
            slot: HookSlot::new(vm),
            installed: 0,
        }
    }

    /// The VM's settings.
    pub fn config(&self) -> (r: Config)
        ensures
            r == self@.config,
    {
        self.config
    }

    /// Store the settings of a VM.
    pub fn set_config(&mut self, config: Config)
        ensures
            final(self)@ == (HubView { config, ..old(self)@ }),
    {
        self.config = config;
    }

    /// Whether no further callback can be registered.
    pub fn is_full(&self) -> (r: bool)
        ensures
            r == (self@.next_id == u64::MAX),
    {
        self.next_id == u64::MAX
    }

    /// How the hook is set, once it is.
    pub fn current_plan(&self) -> (r: Option<Plan>)
        ensures
            r == self@.plan,
    {
        self.plan
    }

    /// The callbacks, oldest first.
    pub fn hooks(&self) -> (r: &Vec<Hook<C>>)
        ensures
            r@ == self@.hooks,
    {
        &self.hooks
    }

    /// How the hook has to be set for the registered callbacks.
    pub fn plan(&self) -> (r: Plan)
        ensures
            r == plan_for(self@.hooks),
            1 <= r.step <= CANCEL_CHECK_INTERVAL,
            r.cancel_every >= 1,
    {
        let mut t: Triggers = Triggers {
            on_calls: false,
            on_returns: false,
            every_line: false,
            every_nth_instruction: None,
        };
        let mut step: u32 = CANCEL_CHECK_INTERVAL;
        let mut i: usize = 0;
        while i < self.hooks.len()
            invariant
                i <= self.hooks@.len(),
                t.on_calls == any_calls(self.hooks@.take(i as int)),
                t.on_returns == any_returns(self.hooks@.take(i as int)),
                t.every_line == any_lines(self.hooks@.take(i as int)),
                step == interval(self.hooks@.take(i as int)),
                1 <= step <= CANCEL_CHECK_INTERVAL,
            decreases self.hooks@.len() - i,
        {
            let e: Triggers = self.hooks[i].triggers;
            proof {
                let seen = self.hooks@.take(i as int);
                assert(self.hooks@.take(i + 1) == seen.push(self.hooks@[i as int]));
                assert(seen.push(self.hooks@[i as int]).drop_last() == seen);
                lemma_any_push(seen, self.hooks@[i as int]);
            }
            t.on_calls = t.on_calls || e.on_calls;
            t.on_returns = t.on_returns || e.on_returns;
            t.every_line = t.every_line || e.every_line;
            match e.every_nth_instruction {
                Some(n) => {
                    if n < step {
                        step = if n >= 1 {
                            n
                        } else {
                            1
                        };
                    }
                },
                None => {},
            }
            i += 1;
        }
        assert(self.hooks@.take(self.hooks@.len() as int) == self.hooks@);
        t.every_nth_instruction = Some(step);
        let cancel_every: u32 = (CANCEL_CHECK_INTERVAL + step - 1) / step;
        proof {
            lemma_rounded_up(step);
        }
        Plan { triggers: t, step, cancel_every }
    }

    /// Set the global hook of `lua` as the registered callbacks need it.
    /// `callback` is called at every event of the hook.
    pub fn install<F>(&mut self, lua: &Lua, callback: F) -> (r: Result<(), mlua::Error>) where
        F: Fn(&Lua, &debug::Debug<'_>) -> Result<VmState, mlua::Error> + 'static,

        requires
            old(self).wf(),
        ensures
            final(self).wf(),
            r is Ok,
            final(self)@ == installed(old(self)@, *lua, acts_of(callback)),
    {
        let plan: Plan = self.plan();
        match lua::set_global_hook(lua, &plan.triggers, callback, &mut self.slot) {
            Ok(()) => {
                self.plan = Some(plan);
                Ok(())
            },
            Err(e) => Err(e),
        }
    }

    /// The hook stands at the address `raw` now.
    pub fn set_installed(&mut self, raw: usize)
        ensures
            final(self)@ == (HubView { installed: raw, ..old(self)@ }),
    {
        self.installed = raw;
    }

    /// Whether the hook has to be set (again): it never was, or another
    /// hook, at the address `raw`, has replaced it.
    pub fn needs_install(&self, raw: usize) -> (r: bool)
        ensures
            r == (self@.installed == 0 || raw != self@.installed),
    {
        self.installed == 0 || raw != self.installed
    }

    /// Register a callback.
    pub fn add_hook(&mut self, triggers: Triggers, callback: C) -> (id: HookId)
        requires
            old(self).wf(),
            old(self)@.next_id < u64::MAX,
        ensures
            final(self).wf(),
            id.number() == old(self)@.next_id,
            !registered(old(self)@.hooks, id),
            final(self)@ == (HubView {
                hooks: old(self)@.hooks.push(Hook { id, triggers, callback }),
                next_id: (old(self)@.next_id + 1) as u64,
                ..old(self)@
            }),
    {
        let id: HookId = HookId(self.next_id);
        self.next_id = self.next_id + 1;
        self.hooks.push(Hook { id, triggers, callback });
        id
    }

    /// Remove a callback.  Returns whether it was registered.
    pub fn remove_hook(&mut self, id: HookId) -> (removed: bool)
        requires
            old(self).wf(),
        ensures
            final(self).wf(),
            removed == registered(old(self)@.hooks, id),
            !removed ==> final(self)@ == old(self)@,
            !registered(final(self)@.hooks, id),
            final(self)@ == (HubView {
                hooks: without_hook(old(self)@.hooks, id),
                ..old(self)@
            }),
    {
        let mut i: usize = 0;
        while i < self.hooks.len()
            invariant
                i <= self.hooks@.len(),
                self@ == old(self)@,
                self.wf(),
                forall|j: int| 0 <= j < i ==> (#[trigger] self.hooks@[j]).id != id,
            decreases self.hooks@.len() - i,
        {
            if self.hooks[i].id == id {
                let ghost before = self.hooks@;
                let _ = self.hooks.remove(i);
                proof {
                    lemma_removed(before, i as int);
                    lemma_without_hook(before, id);
                    assert(before[i as int].id == id);
                }
                return true;
            }
            i += 1;
        }
        proof {
            lemma_without_absent(self.hooks@, id);
        }
        false
    }

    /// A round of the registered callbacks at `event`.
    pub fn round(&self, event: Event, step: u32, want_yield: bool) -> (r: Round)
        ensures
            r.wf(),
            r@ == opened(triggers_of(self@.hooks), event, step, want_yield),
    {
        let mut triggers: Vec<Triggers> = Vec::new();
        let mut i: usize = 0;
        while i < self.hooks.len()
            invariant
                i <= self.hooks@.len(),
                triggers@ == triggers_of(self.hooks@.take(i as int)),
            decreases self.hooks@.len() - i,
        {
            triggers.push(self.hooks[i].triggers);
            i += 1;
        }
        assert(self.hooks@.take(i as int) == self.hooks@);
        Round { triggers, event, step, next: 0, due: false, want_yield, failed: None }
    }

    /// The hook is called: which event it is told of, and what that has to
    /// do before the callbacks run.
    pub fn dispatch(&mut self, info: &debug::Debug<'_>) -> (r: (Event, Tick))
        requires
            old(self).wf(),
            old(self)@.plan is Some,
        ensures
            final(self).wf(),
            r.0 == debug_event(*info),
            if r.0 == Event::Count {
                let checks = counted(old(self)@.checks);
                &&& final(self)@ == (HubView { checks, ..old(self)@ })
                &&& r.1 == tick_at(checks, old(self)@.plan->0.cancel_every, old(self)@.config)
            } else {
                final(self)@ == old(self)@ && r.1 == Tick::Pass
            },
    {
        let event: Event = event_of(info);
        let tick: Tick = self.tick(event);
        (event, tick)
    }

    /// A hook event came: count it, and say what it has to do before the
    /// callbacks run.
    pub fn tick(&mut self, event: Event) -> (r: Tick)
        requires
            old(self).wf(),
            old(self)@.plan is Some,
        ensures
            final(self).wf(),
            if event == Event::Count {
                let checks = counted(old(self)@.checks);
                &&& final(self)@ == (HubView { checks, ..old(self)@ })
                &&& r == tick_at(checks, old(self)@.plan->0.cancel_every, old(self)@.config)
            } else {
                final(self)@ == old(self)@ && r == Tick::Pass
            },
    {
        if event != Event::Count {
            return Tick::Pass;
        }
        let checks: u32 = self.checks.wrapping_add(1);
        self.checks = checks;
        let cancel_every: u32 = match self.plan {
            Some(p) => p.cancel_every,
            None => 1,
        };
        if checks % cancel_every != 0 {
            return Tick::Pass;
        }
        let preempt: bool = match self.config.preempt_every {
            Some(n) => {
                let every: u32 = if n >= 1 {
                    n
                } else {
                    1
                };
                (checks / cancel_every) % every == 0
            },
            None => false,
        };
        Tick::Check { preempt }
    }
}

/// The event that a hook is told of.
pub uninterp spec fn debug_event(info: debug::Debug<'_>) -> Event;

/// `Debug::event`.
#[verifier::external_body]
fn event_of(info: &debug::Debug<'_>) -> (r: Event)
    ensures
        r == debug_event(*info),
{
    match info.event() {
        mlua::debug::DebugEvent::Call => Event::Call,
        mlua::debug::DebugEvent::TailCall => Event::TailCall,
        mlua::debug::DebugEvent::Ret => Event::Ret,
        mlua::debug::DebugEvent::Line => Event::Line,
        mlua::debug::DebugEvent::Count => Event::Count,
        _ => Event::Unknown,
    }
}

/// What the dispatcher does, given whether the current token is cancelled
/// and whether the running coroutine is one of the crate's.
pub fn verdict(tick: Tick, cancelled: bool, root: bool) -> (r: Verdict)
    ensures
        r == match tick {
            Tick::Pass => Verdict::Run { want_yield: false },
            Tick::Check { preempt } => if cancelled {
                Verdict::Cancel
            } else {
                Verdict::Run { want_yield: preempt && root }
            },
        },
{
    match tick {
        Tick::Pass => Verdict::Run { want_yield: false },
        Tick::Check { preempt } => if cancelled {
            Verdict::Cancel
        } else {
            Verdict::Run { want_yield: preempt && root }
        },
    }
}

/// The answer of a callback asks to yield.
pub uninterp spec fn yields(answer: VmState) -> bool;

/// Whether a `VmState` is `VmState::Yield`.
#[verifier::external_body]
fn is_yield(answer: &VmState) -> (r: bool)
    ensures
        r == yields(*answer),
{
    matches!(answer, mlua::VmState::Yield)
}

/// The instructions counted since a callback last ran.
#[derive(Clone, Copy, Debug, PartialEq, Eq)]
pub struct Counter {
    counted: u32,
}

impl View for Counter {
    type V = u32;

    closed spec fn view(&self) -> u32 {
        self.counted
    }
}

/// Whether a callback runs at an event, and its counter after.
pub open spec fn fired(triggers: Triggers, event: Event, step: u32, counted: u32) -> (bool, u32) {
    match event {
        Event::Count => match triggers.every_nth_instruction {
            Some(n) => if counted + step >= n {
                (true, 0)
            } else {
                (false, (counted + step) as u32)
            },
            None => (false, counted),
        },
        Event::Line => (triggers.every_line, counted),
        Event::Call => (triggers.on_calls, counted),
        Event::TailCall => (triggers.on_calls, counted),
        Event::Ret => (triggers.on_returns, counted),
        Event::Unknown => (false, counted),
    }
}

impl Counter {
    /// Nothing counted yet.
    pub fn new() -> (r: Self)
        ensures
            r@ == 0,
    {
        Counter { counted: 0 }
    }

    /// Whether the callback runs at `event`, `step` instructions after the
    /// count event before.
    pub fn fires(&mut self, triggers: &Triggers, event: Event, step: u32) -> (r: bool)
        ensures
            (r, final(self)@) == fired(*triggers, event, step, old(self)@),
    {
        match event {
            Event::Count => match triggers.every_nth_instruction {
                Some(n) => {
                    let c: u64 = self.counted as u64 + step as u64;
                    if c >= n as u64 {
                        self.counted = 0;
                        true
                    } else {
                        self.counted = c as u32;
                        false
                    }
                },
                None => false,
            },
            Event::Line => triggers.every_line,
            Event::Call => triggers.on_calls,
            Event::TailCall => triggers.on_calls,
            Event::Ret => triggers.on_returns,
            Event::Unknown => false,
        }
    }
}

/// A round of the callbacks at an event: those that were registered when it
/// began are asked in turn whether they run, and run if they do.  The first
/// error ends the round.
///
/// The callbacks themselves are run by whoever holds them: [`Round::next_due`]
/// says which one is next, and [`Round::answer`] takes what it answered.
pub struct Round {
    triggers: Vec<Triggers>,
    event: Event,
    step: u32,
    next: usize,
    due: bool,
    want_yield: bool,
    failed: Option<mlua::Error>,
}

/// A round as the contracts see it.
#[verifier::ext_equal]
pub struct RoundView {
    /// The triggers of the callbacks, oldest first.
    pub triggers: Seq<Triggers>,
    pub event: Event,
    /// The instructions between two count events.
    pub step: u32,
    /// The callback that is due, or asked next.
    pub next: int,
    /// A callback is due: its answer is awaited.
    pub due: bool,
    /// The coroutine is to yield after the round.
    pub want_yield: bool,
    /// The error that ended the round.
    pub failed: Option<mlua::Error>,
}

/// The round at its beginning.
pub open spec fn opened(
    triggers: Seq<Triggers>,
    event: Event,
    step: u32,
    want_yield: bool,
) -> RoundView {
    RoundView { triggers, event, step, next: 0, due: false, want_yield, failed: None }
}

/// The callback `i` runs, when it has counted `counts[i]` instructions.
pub open spec fn runs(v: RoundView, counts: Seq<u32>, i: int) -> bool {
    fired(v.triggers[i], v.event, v.step, counts[i]).0
}

/// How far the callbacks have been asked.
pub open spec fn asked(v: RoundView) -> int {
    if v.due {
        v.next + 1
    } else {
        v.next
    }
}

/// In the round `before`, `r` is the next callback to run: the first of those
/// not asked yet that runs.  None is if an error has ended the round.
pub open spec fn is_turn(
    before: RoundView,
    counts: Seq<u32>,
    r: Option<usize>,
    after: RoundView,
) -> bool {
    match r {
        Some(i) => {
            &&& before.failed is None
            &&& before.next <= i < before.triggers.len()
            &&& runs(before, counts, i as int)
            &&& forall|j: int| before.next <= j < i ==> !#[trigger] runs(before, counts, j)
            &&& after == (RoundView { next: i as int, due: true, ..before })
        },
        None => if before.failed is Some {
            after == before
        } else {
            &&& forall|j: int|
                before.next <= j < before.triggers.len() ==> !#[trigger] runs(before, counts, j)
            &&& after == (RoundView { next: before.triggers.len() as int, ..before })
        },
    }
}

/// The round after the callback that is due gave this answer.
pub open spec fn answered(v: RoundView, answer: Result<VmState, mlua::Error>) -> RoundView {
    let v = RoundView { next: v.next + 1, due: false, ..v };
    match answer {
        Ok(state) => RoundView { want_yield: v.want_yield || yields(state), ..v },
        Err(e) => RoundView { failed: Some(e), ..v },
    }
}

impl View for Round {
    type V = RoundView;

    closed spec fn view(&self) -> RoundView {
        RoundView {
            triggers: self.triggers@,
            event: self.event,
            step: self.step,
            next: self.next as int,
            due: self.due,
            want_yield: self.want_yield,
            failed: self.failed,
        }
    }
}

/// The counts of the counters.
pub open spec fn counts_of(counters: Seq<Counter>) -> Seq<u32> {
    Seq::new(counters.len(), |i: int| counters[i]@)
}

impl Round {
    /// The round is within its callbacks, and one that is due is one of them.
    pub open spec fn wf(&self) -> bool {
        &&& 0 <= self@.next <= self@.triggers.len()
        &&& self@.due ==> self@.next < self@.triggers.len() && self@.failed is None
    }

    /// The next callback to run, if there is one, out of the callbacks' own
    /// `counters`.  Exactly those that are asked count the event: the ones
    /// that do not run, up to and with the one that does.
    pub fn next_due(&mut self, counters: &mut Vec<Counter>) -> (r: Option<usize>)
        requires
            old(self).wf(),
            !old(self)@.due,
            old(counters)@.len() == old(self)@.triggers.len(),
        ensures
            final(self).wf(),
            is_turn(old(self)@, counts_of(old(counters)@), r, final(self)@),
            final(counters)@.len() == old(counters)@.len(),
            forall|i: int|
                #![trigger final(counters)@[i]]
                0 <= i < old(counters)@.len() ==> final(counters)@[i]@ == if old(self)@.next <= i
                    < asked(final(self)@) {
                    fired(
                        old(self)@.triggers[i],
                        old(self)@.event,
                        old(self)@.step,
                        old(counters)@[i]@,
                    ).1
                } else {
                    old(counters)@[i]@
                },
    {
        if self.failed.is_some() {
            return None;
        }
        let ghost counts = counts_of(counters@);
        while self.next < self.triggers.len()
            invariant
                self.wf(),
                !self@.due,
                self@.failed is None,
                old(self)@.next <= self@.next,
                self@ == (RoundView { next: self@.next, ..old(self)@ }),
                counts == counts_of(old(counters)@),
                counters@.len() == old(counters)@.len(),
                counters@.len() == self@.triggers.len(),
                forall|j: int| old(self)@.next <= j < self@.next ==> !#[trigger] runs(
                    old(self)@,
                    counts,
                    j,
                ),
                forall|i: int|
                    #![trigger counters@[i]]
                    0 <= i < counters@.len() ==> counters@[i]@ == if old(self)@.next <= i
                        < self@.next {
                        fired(
                            old(self)@.triggers[i],
                            old(self)@.event,
                            old(self)@.step,
                            old(counters)@[i]@,
                        ).1
                    } else {
                        old(counters)@[i]@
                    },
            decreases self.triggers@.len() - self.next,
        {
            let i: usize = self.next;
            let mut counter: Counter = counters[i];
            let due: bool = counter.fires(&self.triggers[i], self.event, self.step);
            counters.set(i, counter);
            assert(due == runs(old(self)@, counts, i as int));
            if due {
                self.due = true;
                return Some(i);
            }
            self.next = i + 1;
        }
        None
    }

    /// The callback that is due gave this answer.
    pub fn answer(&mut self, answer: Result<VmState, mlua::Error>)
        requires
            old(self).wf(),
            old(self)@.due,
        ensures
            final(self).wf(),
            final(self)@ == answered(old(self)@, answer),
    {
        assert(self.next < self.triggers.len());
        self.due = false;
        self.next = self.next + 1;
        match answer {
            Ok(state) => {
                if is_yield(&state) {
                    self.want_yield = true;
                }
            },
            Err(e) => {
                self.failed = Some(e);
            },
        }
    }

    /// What the hook returns after the round: the error that ended it, or
    /// whether the coroutine yields.
    pub fn finish(self) -> (r: Result<bool, mlua::Error>)
        ensures
            r == match self@.failed {
                Some(e) => Err::<bool, mlua::Error>(e),
                None => Ok::<bool, mlua::Error>(self@.want_yield),
            },
    {
        match self.failed {
            Some(e) => Err(e),
            None => Ok(self.want_yield),
        }
    }
}

proof fn lemma_any_push<C>(hooks: Seq<Hook<C>>, hook: Hook<C>)
    ensures
        any_calls(hooks.push(hook)) == (any_calls(hooks) || hook.triggers.on_calls),
        any_returns(hooks.push(hook)) == (any_returns(hooks) || hook.triggers.on_returns),
        any_lines(hooks.push(hook)) == (any_lines(hooks) || hook.triggers.every_line),
{
    let more = hooks.push(hook);
    assert(more[hooks.len() as int] == hook);
    assert forall|i: int| 0 <= i < hooks.len() implies more[i] == #[trigger] hooks[i] by {}
    assert forall|i: int| 0 <= i < hooks.len() implies #[trigger] more[i] == hooks[i] by {}
    if any_calls(hooks) {
        let i = choose|i: int| 0 <= i < hooks.len() && (#[trigger] hooks[i]).triggers.on_calls;
        assert(more[i].triggers.on_calls);
    }
    if any_returns(hooks) {
        let i = choose|i: int| 0 <= i < hooks.len() && (#[trigger] hooks[i]).triggers.on_returns;
        assert(more[i].triggers.on_returns);
    }
    if any_lines(hooks) {
        let i = choose|i: int| 0 <= i < hooks.len() && (#[trigger] hooks[i]).triggers.every_line;
        assert(more[i].triggers.every_line);
    }
}

proof fn lemma_rounded_up(step: u32)
    requires
        1 <= step <= CANCEL_CHECK_INTERVAL,
    ensures
        1 <= (CANCEL_CHECK_INTERVAL + step - 1) / step as int <= CANCEL_CHECK_INTERVAL,
{
    let a = CANCEL_CHECK_INTERVAL as int;
    let s = step as int;
    assert(1 <= (a + s - 1) / s <= a) by (nonlinear_arith)
        requires
            1 <= s <= a,
            a == 1000,
    ;
}

/// Taking the only callback with its id out is removing it by id.
pub(crate) proof fn lemma_removed<C>(hooks: Seq<Hook<C>>, i: int)
    requires
        0 <= i < hooks.len(),
        forall|a: int, b: int|
            0 <= a < b < hooks.len() ==> (#[trigger] hooks[a]).id != (#[trigger] hooks[b]).id,
    ensures
        without_hook(hooks, hooks[i].id) == hooks.remove(i),
    decreases hooks.len(),
{
    let id = hooks[i].id;
    let front = hooks.drop_last();
    if i == hooks.len() - 1 {
        lemma_without_absent(front, id);
        assert(hooks.remove(i) == front);
    } else {
        lemma_removed(front, i);
        assert(hooks.remove(i) == front.remove(i).push(hooks.last()));
    }
}

proof fn lemma_without_absent<C>(hooks: Seq<Hook<C>>, id: HookId)
    requires
        forall|i: int| 0 <= i < hooks.len() ==> (#[trigger] hooks[i]).id != id,
    ensures
        without_hook(hooks, id) == hooks,
    decreases hooks.len(),
{
    if hooks.len() > 0 {
        lemma_without_absent(hooks.drop_last(), id);
        assert(hooks.drop_last().push(hooks.last()) == hooks);
    }
}

proof fn lemma_without_hook<C>(hooks: Seq<Hook<C>>, id: HookId)
    ensures
        !registered(without_hook(hooks, id), id),
    decreases hooks.len(),
{
    if hooks.len() > 0 {
        lemma_without_hook(hooks.drop_last(), id);
        let rest = without_hook(hooks.drop_last(), id);
        assert forall|i: int| 0 <= i < without_hook(hooks, id).len() implies (
        #[trigger] without_hook(hooks, id)[i]).id != id by {
            if i < rest.len() {
                assert(rest[i].id != id);
            }
        }
    }
}

/// The coroutines that the crate created for a request or task, by address:
/// the only ones that preemption may yield.
pub struct Roots {
    marked: HashSet<usize>,
}

impl View for Roots {
    type V = Set<usize>;

    closed spec fn view(&self) -> Set<usize> {
        self.marked@
    }
}

impl Roots {
    /// No coroutine is marked.
    pub fn new() -> (r: Self)
        ensures
            r@ == Set::<usize>::empty(),
    {
        Roots { marked: HashSet::new() }
    }

    /// Mark a coroutine.
    pub fn mark_root(&mut self, ptr: usize)
        ensures
            final(self)@ == old(self)@.insert(ptr),
    {
        let _ = self.marked.insert(ptr);
    }

    /// Forget the mark of a coroutine.
    pub fn unmark_root(&mut self, ptr: usize)
        ensures
            final(self)@ == old(self)@.remove(ptr),
    {
        let _ = self.marked.remove(&ptr);
    }

    /// Whether a coroutine is marked.
    pub fn is_root(&self, ptr: usize) -> (r: bool)
        ensures
            r == self@.contains(ptr),
    {
        self.marked.contains(&ptr)
    }
}

/// The hook runs whenever a callback asks to be run: on every kind of event
/// it asks for, and on count events at least as often as it asks for.
pub proof fn law_hook_covers_every_callback<C>(hooks: Seq<Hook<C>>, i: int)
    requires
        0 <= i < hooks.len(),
    ensures
        ({
            let plan = plan_for(hooks);
            let t = hooks[i].triggers;
            &&& t.on_calls ==> plan.triggers.on_calls
            &&& t.on_returns ==> plan.triggers.on_returns
            &&& t.every_line ==> plan.triggers.every_line
            &&& plan.triggers.every_nth_instruction == Some(plan.step)
            &&& 1 <= plan.step <= CANCEL_CHECK_INTERVAL
            &&& t.every_nth_instruction matches Some(n) ==> plan.step <= larger(n, 1)
        }),
{
    lemma_interval(hooks);
}

proof fn lemma_interval<C>(hooks: Seq<Hook<C>>)
    ensures
        1 <= interval(hooks) <= CANCEL_CHECK_INTERVAL,
        forall|i: int|
            0 <= i < hooks.len() ==> ((#[trigger] hooks[i]).triggers.every_nth_instruction matches Some(
                n,
            ) ==> interval(hooks) <= larger(n, 1)),
    decreases hooks.len(),
{
    if hooks.len() > 0 {
        let front = hooks.drop_last();
        lemma_interval(front);
        assert forall|i: int| 0 <= i < hooks.len() implies ((
        #[trigger] hooks[i]).triggers.every_nth_instruction matches Some(n) ==> interval(hooks)
            <= larger(n, 1)) by {
            if i < front.len() {
                assert(front[i] == hooks[i]);
            }
        }
    }
}

/// A round, and what has happened in it.
pub struct RoundLog {
    pub round: RoundView,
    /// Whether the callbacks that were asked run at the event.
    pub told: Seq<bool>,
    /// The callbacks that were run, in order.
    pub ran: Seq<int>,
    /// What they answered.
    pub answers: Seq<Result<VmState, mlua::Error>>,
}

/// One thing that happens in a round.
pub enum RoundOp {
    /// [`Round::next_due`] was asked, with these counts, and `next` is run.
    Turn { counts: Seq<u32>, next: Option<usize> },
    /// [`Round::answer`] was given this.
    Answer(Result<VmState, mlua::Error>),
}

/// `after` is what `op` makes of `before`.
pub open spec fn logged(before: RoundLog, op: RoundOp, after: RoundLog) -> bool {
    match op {
        RoundOp::Turn { counts, next } => {
            &&& !before.round.due
            &&& is_turn(before.round, counts, next, after.round)
            &&& after.told == before.told + Seq::new(
                (asked(after.round) - before.round.next) as nat,
                |k: int| runs(before.round, counts, before.round.next + k),
            )
            &&& after.ran == match next {
                Some(i) => before.ran.push(i as int),
                None => before.ran,
            }
            &&& after.answers == before.answers
        },
        RoundOp::Answer(answer) => {
            &&& before.round.due
            &&& after == (RoundLog {
                round: answered(before.round, answer),
                answers: before.answers.push(answer),
                ..before
            })
        },
    }
}

/// The answer asks to yield.
pub open spec fn wants_yield(answer: Result<VmState, mlua::Error>) -> bool {
    answer matches Ok(state) && yields(state)
}

/// So far in a round that began as `start`, exactly the callbacks that run at
/// the event were run, once each, oldest first, and only the last of them may
/// have failed: then no callback behind it was asked.
pub open spec fn in_order(start: RoundView, l: RoundLog) -> bool {
    let v = l.round;
    // The round is of the callbacks and the event that it began with.
    &&& v.triggers == start.triggers && v.event == start.event && v.step == start.step
    &&& 0 <= asked(v) <= v.triggers.len()
    &&& v.due ==> v.failed is None
    // The callbacks were asked in order; at an event that is not counted,
    // the triggers alone tell.
    &&& l.told.len() == asked(v)
    &&& v.event != Event::Count ==> forall|i: int|
        0 <= i < l.told.len() ==> #[trigger] l.told[i] == fired(
            v.triggers[i],
            v.event,
            v.step,
            0,
        ).0
    // Those that run, and no others, were run.
    &&& forall|k: int| 0 <= k < l.ran.len() ==> 0 <= #[trigger] l.ran[k] < l.told.len()
    &&& forall|k: int| 0 <= k < l.ran.len() ==> l.told[#[trigger] l.ran[k]]
    &&& forall|i: int| 0 <= i < l.told.len() && #[trigger] l.told[i] ==> l.ran.contains(i)
    &&& forall|k: int, m: int| 0 <= k < m < l.ran.len() ==> #[trigger] l.ran[k] < #[trigger] l.ran[m]
    // They answered, but for one that is due.
    &&& l.answers.len() == if v.due {
        l.ran.len() - 1
    } else {
        l.ran.len() as int
    }
    &&& v.due ==> l.ran.last() == v.next
    // The first error ended the round.
    &&& match v.failed {
        Some(e) => {
            &&& l.answers.len() > 0
            &&& l.answers.last() == Err::<VmState, mlua::Error>(e)
            &&& l.ran.last() == l.told.len() - 1
            &&& forall|k: int| 0 <= k < l.answers.len() - 1 ==> (#[trigger] l.answers[k]) is Ok
        },
        None => forall|k: int| 0 <= k < l.answers.len() ==> (#[trigger] l.answers[k]) is Ok,
    }
    // The coroutine yields if it was to, or if any callback asked for it.
    &&& v.want_yield <==> start.want_yield || exists|k: int|
        0 <= k < l.answers.len() && wants_yield(#[trigger] l.answers[k])
}

proof fn lemma_turn(start: RoundView, before: RoundLog, op: RoundOp, after: RoundLog)
    requires
        in_order(start, before),
        logged(before, op, after),
        op is Turn,
    ensures
        in_order(start, after),
{
    let counts = op->counts;
    let n = before.told.len() as int;
    assert forall|i: int| n <= i < after.told.len() implies #[trigger] after.told[i] == runs(
        before.round,
        counts,
        i,
    ) by {}
    assert forall|i: int| 0 <= i < n implies #[trigger] after.told[i] == before.told[i] by {}
    match op->next {
        Some(i) => {
            assert(after.ran[before.ran.len() as int] == i);
            assert forall|j: int| 0 <= j < after.told.len() && #[trigger] after.told[j] implies
                after.ran.contains(j) by {
                if j < n {
                    let k = choose|k: int| 0 <= k < before.ran.len() && before.ran[k] == j;
                    assert(before.told[j]);
                    assert(before.ran.contains(j));
                    assert(after.ran[k] == j);
                } else if j < i {
                    assert(!runs(before.round, counts, j));
                }
            }
            assert forall|k: int| 0 <= k < after.ran.len() implies after.told[#[trigger] after.ran[k]] by {
                if k < before.ran.len() {
                    assert(after.ran[k] == before.ran[k]);
                } else {
                    assert(runs(before.round, counts, i as int));
                }
            }
        },
        None => {
            assert forall|j: int| 0 <= j < after.told.len() && #[trigger] after.told[j] implies
                after.ran.contains(j) by {
                if j >= n {
                    assert(!runs(before.round, counts, j));
                } else {
                    assert(before.told[j]);
                }
            }
        },
    }
}

proof fn lemma_answer(start: RoundView, before: RoundLog, op: RoundOp, after: RoundLog)
    requires
        in_order(start, before),
        logged(before, op, after),
        op is Answer,
    ensures
        in_order(start, after),
{
    let n = before.answers.len() as int;
    assert forall|k: int| 0 <= k < n implies #[trigger] after.answers[k] == before.answers[k] by {}
    assert(after.answers[n] == op->Answer_0);
    if exists|k: int| 0 <= k < n && wants_yield(#[trigger] before.answers[k]) {
        let k = choose|k: int| 0 <= k < n && wants_yield(#[trigger] before.answers[k]);
        assert(wants_yield(after.answers[k]));
    }
    if exists|k: int| 0 <= k < n + 1 && wants_yield(#[trigger] after.answers[k]) {
        let k = choose|k: int| 0 <= k < n + 1 && wants_yield(#[trigger] after.answers[k]);
        if k < n {
            assert(wants_yield(before.answers[k]));
        }
    }
}

/// In a round, exactly the callbacks that run at the event are run: those
/// that were registered when it began, once each, in the order of their
/// registration.  The first error ends the round, and the callbacks behind it
/// are neither asked nor run.
pub proof fn law_exactly_the_due_callbacks_run(
    start: RoundView,
    states: Seq<RoundLog>,
    ops: Seq<RoundOp>,
    i: int,
)
    requires
        start == opened(start.triggers, start.event, start.step, start.want_yield),
        states.len() == ops.len() + 1,
        states[0] == (RoundLog {
            round: start,
            told: Seq::empty(),
            ran: Seq::empty(),
            answers: Seq::empty(),
        }),
        forall|k: int| 0 <= k < ops.len() ==> logged(states[k], #[trigger] ops[k], states[k + 1]),
        0 <= i < states.len(),
    ensures
        in_order(start, states[i]),
    decreases i,
{
    if i > 0 {
        law_exactly_the_due_callbacks_run(start, states, ops, i - 1);
        assert(logged(states[i - 1], ops[i - 1], states[i]));
        if ops[i - 1] is Turn {
            lemma_turn(start, states[i - 1], ops[i - 1], states[i]);
        } else {
            lemma_answer(start, states[i - 1], ops[i - 1], states[i]);
        }
    }
}

/// The count events come no more often than they have to: at the interval of
/// the cancel check, or at one that a callback asks for.
pub proof fn law_interval_is_asked_for<C>(hooks: Seq<Hook<C>>)
    ensures
        interval(hooks) == CANCEL_CHECK_INTERVAL || exists|i: int|
            0 <= i < hooks.len() && ((#[trigger] hooks[i]).triggers.every_nth_instruction matches Some(
                n,
            ) && interval(hooks) == larger(n, 1)),
    decreases hooks.len(),
{
    if hooks.len() > 0 {
        let front = hooks.drop_last();
        law_interval_is_asked_for(front);
        if interval(hooks) == interval(front) {
            if interval(front) != CANCEL_CHECK_INTERVAL {
                let i = choose|i: int|
                    0 <= i < front.len() && ((
                    #[trigger] front[i]).triggers.every_nth_instruction matches Some(n)
                        && interval(front) == larger(n, 1));
                assert(hooks[i] == front[i]);
            }
        } else {
            assert(hooks[hooks.len() - 1] == hooks.last());
        }
    }
}

/// The count after `k` more count events.
pub open spec fn count_after(checks: u32, k: nat) -> u32 {
    ((checks + k) % 0x1_0000_0000) as u32
}

/// Counting events one by one is counting them together.
pub proof fn law_counting_adds_up(checks: u32, k: nat)
    ensures
        counted(count_after(checks, k)) == count_after(checks, k + 1),
{
}

/// Of as many count events in a row as there are between two cancel checks,
/// one makes a cancel check, wherever the count stands.
pub proof fn law_cancel_is_checked(checks: u32, cancel_every: u32, config: Config)
    requires
        cancel_every >= 1,
    ensures
        exists|k: nat|
            1 <= k <= cancel_every && #[trigger] tick_at(
                count_after(checks, k),
                cancel_every,
                config,
            ) is Check,
{
    let ce = cancel_every as int;
    let c = checks as int;
    let k = ce - c % ce;
    assert((c + k) % ce == 0) by (nonlinear_arith)
        requires
            ce >= 1,
            k == ce - c % ce,
    ;
    if c + k < 0x1_0000_0000 {
        let k: nat = k as nat;
        assert(count_after(checks, k) == c + k);
        assert(tick_at(count_after(checks, k), cancel_every, config) is Check);
    } else {
        let j: nat = (0x1_0000_0000 - c) as nat;
        assert(count_after(checks, j) == 0);
        assert(0u32 % cancel_every == 0) by (nonlinear_arith)
            requires
                cancel_every >= 1,
        ;
        assert(tick_at(count_after(checks, j), cancel_every, config) is Check);
    }
}

/// The instructions between two cancel checks are fewer than the interval
/// of the cancel check and one step of the hook.
pub proof fn law_cancel_check_interval<C>(hooks: Seq<Hook<C>>)
    ensures
        plan_for(hooks).cancel_every >= 1,
        CANCEL_CHECK_INTERVAL <= plan_for(hooks).step * plan_for(hooks).cancel_every,
        plan_for(hooks).step * plan_for(hooks).cancel_every < CANCEL_CHECK_INTERVAL + plan_for(
            hooks,
        ).step,
{
    lemma_interval(hooks);
    let s = interval(hooks) as int;
    lemma_rounded_up(interval(hooks));
    let q = (1000 + s - 1) / s;
    assert(1000 <= s * q < 1000 + s) by (nonlinear_arith)
        requires
            1 <= s,
            q == (1000 + s - 1) / s,
    ;
}

/// With preemption at every `n` checks, of the count events in `n` checks
/// one asks for a yield (as long as the count does not wrap around).
pub proof fn law_preemption_comes_round(checks: u32, cancel_every: u32, n: u32, config: Config)
    requires
        cancel_every >= 1,
        config.preempt_every == Some(n),
        checks + cancel_every * larger(n, 1) < 0x1_0000_0000,
    ensures
        exists|k: nat|
            1 <= k <= cancel_every * larger(n, 1) && #[trigger] tick_at(
                count_after(checks, k),
                cancel_every,
                config,
            ) == (Tick::Check { preempt: true }),
{
    let ce = cancel_every as int;
    let m = larger(n, 1) as int;
    let c = checks as int;
    let round = ce * m;
    assert(round >= 1) by (nonlinear_arith)
        requires
            ce >= 1,
            m >= 1,
            round == ce * m,
    ;
    let q = c / round + 1;
    let at = q * round;
    assert(c < at <= c + round) by (nonlinear_arith)
        requires
            round >= 1,
            q == c / round + 1,
            at == q * round,
    ;
    let k = (at - c) as nat;
    assert(at == (q * m) * ce && at == ce * (q * m)) by (nonlinear_arith)
        requires
            at == q * round,
            round == ce * m,
    ;
    vstd::arithmetic::div_mod::lemma_mod_multiples_basic(q * m, ce);
    vstd::arithmetic::div_mod::lemma_div_multiples_vanish(q * m, ce);
    vstd::arithmetic::div_mod::lemma_mod_multiples_basic(q, m);
    assert(count_after(checks, k) == at);
    assert(tick_at(count_after(checks, k), cancel_every, config) == (Tick::Check { preempt: true }));
}

/// What a callback has counted after `k` count events, `step` instructions
/// apart, from its registration on.
pub open spec fn counted_after(triggers: Triggers, step: u32, k: nat) -> u32
    decreases k,
{
    if k == 0 {
        0
    } else {
        fired(triggers, Event::Count, step, counted_after(triggers, step, (k - 1) as nat)).1
    }
}

/// Whether a callback runs at the `k`-th count event after its registration.
pub open spec fn runs_at(triggers: Triggers, step: u32, k: nat) -> bool {
    k > 0 && fired(
        triggers,
        Event::Count,
        step,
        counted_after(triggers, step, (k - 1) as nat),
    ).0
}

/// The count events from one run of a callback to the next: enough for `n`
/// instructions, rounded up.
pub open spec fn events_per_run(n: u32, step: u32) -> int {
    (n + step - 1) / step as int
}

proof fn lemma_counted_after(triggers: Triggers, n: u32, step: u32, k: nat)
    requires
        triggers.every_nth_instruction == Some(n),
        n >= 1,
        step >= 1,
    ensures
        events_per_run(n, step) >= 1,
        events_per_run(n, step) * step >= n,
        (events_per_run(n, step) - 1) * step < n,
        counted_after(triggers, step, k) == (k as int % events_per_run(n, step)) * step,
        runs_at(triggers, step, k + 1) <==> k as int % events_per_run(n, step)
            == events_per_run(n, step) - 1,
    decreases k,
{
    let s = step as int;
    let q = events_per_run(n, step);
    assert(q >= 1 && q * s >= n && (q - 1) * s < n) by (nonlinear_arith)
        requires
            s >= 1,
            n >= 1,
            q == (n + s - 1) / s,
    ;
    if k > 0 {
        let j = (k - 1) as nat;
        lemma_counted_after(triggers, n, step, j);
        let m = j as int % q;
        assert(0 <= m < q && k as int % q == if m == q - 1 {
            0
        } else {
            m + 1
        }) by (nonlinear_arith)
            requires
                q >= 1,
                m == j as int % q,
                k == j + 1,
        ;
        assert((m + 1) * s == m * s + s) by (nonlinear_arith);
        if m + 1 < q {
            assert((m + 1) * s <= (q - 1) * s) by (nonlinear_arith)
                requires
                    m + 1 <= q - 1,
                    s >= 1,
            ;
        }
    } else {
        assert(0int % q == 0) by (nonlinear_arith)
            requires
                q >= 1,
        ;
        assert(0 * s == 0);
    }
    let m = k as int % q;
    assert(0 <= m < q) by (nonlinear_arith)
        requires
            q >= 1,
            m == k as int % q,
    ;
    assert((m + 1) * s == m * s + s) by (nonlinear_arith);
    if m + 1 < q {
        assert((m + 1) * s <= (q - 1) * s) by (nonlinear_arith)
            requires
                m + 1 <= q - 1,
                s >= 1,
        ;
    }
}

/// A counting callback runs at exactly every so-many-th count event, counted
/// from its registration: as soon as the instructions it asked for have
/// passed since its last run, and less than a step of the hook later.
pub proof fn law_counting_callback_runs_on_time(triggers: Triggers, n: u32, step: u32, k: nat)
    requires
        triggers.every_nth_instruction == Some(n),
        n >= 1,
        step >= 1,
        k >= 1,
    ensures
        runs_at(triggers, step, k) <==> k as int % events_per_run(n, step) == 0,
        n <= events_per_run(n, step) * step < n + step,
{
    let q = events_per_run(n, step);
    let j = (k - 1) as nat;
    lemma_counted_after(triggers, n, step, j);
    assert((j as int % q == q - 1) <==> (k as int % q == 0)) by (nonlinear_arith)
        requires
            q >= 1,
            k == j + 1,
    ;
    assert((q - 1) * step == q * step - step) by (nonlinear_arith);
}

/// One change of the callbacks of a hub.
pub enum HookOp<C> {
    /// [`Hub::add_hook`] registered this.
    Added(Hook<C>),
    /// [`Hub::remove_hook`] with this id.
    Removed(HookId),
    /// Anything else that is done to a hub.
    Other,
}

/// `after` is the hub after `op`, as far as the callbacks go.
pub open spec fn changed<C>(before: HubView<C>, op: HookOp<C>, after: HubView<C>) -> bool {
    match op {
        HookOp::Added(hook) => {
            &&& hook.id.number() == before.next_id
            &&& before.next_id < u64::MAX
            &&& after.hooks == before.hooks.push(hook)
            &&& after.next_id == before.next_id + 1
        },
        HookOp::Removed(id) => {
            &&& after.hooks == without_hook(before.hooks, id)
            &&& after.next_id == before.next_id
        },
        HookOp::Other => after.hooks == before.hooks && after.next_id == before.next_id,
    }
}

/// The hub went through these states by these changes.
pub open spec fn history<C>(states: Seq<HubView<C>>, ops: Seq<HookOp<C>>) -> bool {
    &&& states.len() == ops.len() + 1
    &&& forall|i: int| 0 <= i < ops.len() ==> changed(states[i], #[trigger] ops[i], states[i + 1])
}

proof fn lemma_numbers_grow<C>(states: Seq<HubView<C>>, ops: Seq<HookOp<C>>, i: int, j: int)
    requires
        history(states, ops),
        0 <= i <= j < states.len(),
    ensures
        states[i].next_id <= states[j].next_id,
    decreases j,
{
    if i < j {
        lemma_numbers_grow(states, ops, i, j - 1);
        assert(changed(states[j - 1], ops[j - 1], states[j]));
    }
}

/// The number of a callback is given out once, whatever was removed in
/// between; those registered before it stay in their order, and the new one
/// comes last.
pub proof fn law_hook_numbers_are_not_reused<C>(
    states: Seq<HubView<C>>,
    ops: Seq<HookOp<C>>,
    i: int,
    j: int,
)
    requires
        history(states, ops),
        0 <= i < j < ops.len(),
        ops[i] is Added,
        ops[j] is Added,
    ensures
        ops[i]->Added_0.id != ops[j]->Added_0.id,
        states[j + 1].hooks.drop_last() == states[j].hooks,
        states[j + 1].hooks.last() == ops[j]->Added_0,
{
    lemma_numbers_grow(states, ops, i + 1, j);
    assert(changed(states[i], ops[i], states[i + 1]));
    assert(changed(states[j], ops[j], states[j + 1]));
    assert(states[j].hooks.push(ops[j]->Added_0).drop_last() == states[j].hooks);
}

/// At an event that is not a count event, a callback runs exactly if its own
/// trigger for that kind of event is set, whatever its other triggers are,
/// and it counts nothing.
pub proof fn law_callback_runs_on_its_own_trigger(triggers: Triggers, event: Event, step: u32)
    requires
        event != Event::Count,
    ensures
        forall|c: &mut Counter, r: bool| #[trigger]
            call_ensures(Counter::fires, (c, &triggers, event, step), r) ==> {
                &&& event is Line ==> r == triggers.every_line
                &&& event is Call || event is TailCall ==> r == triggers.on_calls
                &&& event is Ret ==> r == triggers.on_returns
                &&& event is Unknown ==> !r
                &&& final(c)@ == (*c)@
            },
{
}

/// At a count event, a callback that counts instructions runs exactly if it
/// has counted as many as it asked for, and then begins again; one that did
/// not ask for any neither runs nor counts.
pub proof fn law_callback_runs_when_it_has_counted(triggers: Triggers, step: u32)
    ensures
        forall|c: &mut Counter, r: bool| #[trigger]
            call_ensures(Counter::fires, (c, &triggers, Event::Count, step), r) ==> {
                &&& triggers.every_nth_instruction is None ==> !r && final(c)@ == (*c)@
                &&& triggers.every_nth_instruction matches Some(n) ==> {
                    &&& r <==> n <= (*c)@ + step
                    &&& r ==> final(c)@ == 0
                    &&& !r ==> final(c)@ == (*c)@ + step
                }
            },
{
}

proof fn lemma_multiple(a: int, b: int)
    requires
        b >= 1,
    ensures
        a % b == 0 <==> exists|k: int| a == #[trigger] (k * b),
{
    if a % b == 0 {
        vstd::arithmetic::div_mod::lemma_fundamental_div_mod(a, b);
        assert(a == (a / b) * b) by (nonlinear_arith)
            requires
                a == b * (a / b) + a % b,
                a % b == 0,
        ;
    }
    if exists|k: int| a == #[trigger] (k * b) {
        let k = choose|k: int| a == #[trigger] (k * b);
        vstd::arithmetic::div_mod::lemma_mod_multiples_basic(k, b);
    }
}

proof fn lemma_multiple_of_both(a: int, b: int, n: int)
    requires
        a >= 0,
        b >= 1,
        n >= 1,
    ensures
        a % b == 0 && (a / b) % n == 0 <==> exists|k: int| a == #[trigger] (k * (b * n)),
{
    lemma_multiple(a, b);
    lemma_multiple(a / b, n);
    assert(b * n >= 1) by (nonlinear_arith)
        requires
            b >= 1,
            n >= 1,
    ;
    lemma_multiple(a, b * n);
    if a % b == 0 && (a / b) % n == 0 {
        let k = choose|k: int| a / b == #[trigger] (k * n);
        vstd::arithmetic::div_mod::lemma_fundamental_div_mod(a, b);
        assert(a == k * (b * n)) by (nonlinear_arith)
            requires
                a == b * (a / b) + a % b,
                a % b == 0,
                a / b == k * n,
        ;
    }
    if exists|k: int| a == #[trigger] (k * (b * n)) {
        let k = choose|k: int| a == #[trigger] (k * (b * n));
        let j = k * n;
        assert(a == j * b) by (nonlinear_arith)
            requires
                a == k * (b * n),
                j == k * n,
        ;
        assert(exists|j: int| a == #[trigger] (j * b));
        vstd::arithmetic::div_mod::lemma_div_multiples_vanish(j, b);
        assert(b * j == j * b) by (nonlinear_arith);
        assert(a / b == k * n);
    }
}

/// A count event is counted, and makes a cancel check exactly if the count
/// is a multiple of the events between two checks.  It asks to preempt
/// exactly if preemption is set, to every `n` checks, and the count is a
/// multiple of the events in `n` checks (in one, if `n` is zero).  No other
/// event does or counts anything.
pub proof fn law_checks_and_preemption_are_exact<C>(event: Event)
    ensures
        forall|hub: &mut Hub<C>, r: Tick| #[trigger]
            call_ensures(Hub::<C>::tick, (hub, event), r) && hub.wf() && hub@.plan is Some ==> {
                let every = hub@.plan->0.cancel_every as int;
                let count = final(hub)@.checks as int;
                &&& final(hub)@ == (HubView { checks: final(hub)@.checks, ..hub@ })
                &&& event != Event::Count ==> r is Pass && count == hub@.checks
                &&& event == Event::Count ==> {
                    &&& count == if hub@.checks == u32::MAX {
                        0
                    } else {
                        hub@.checks + 1
                    }
                    &&& r is Check <==> exists|k: int| count == #[trigger] (k * every)
                    &&& hub@.config.preempt_every is None ==> !(r matches Tick::Check {
                        preempt: true,
                    })
                    &&& hub@.config.preempt_every matches Some(n) ==> {
                        let preempts = r matches Tick::Check { preempt: true };
                        &&& n > 0 ==> (preempts <==> exists|k: int|
                            count == #[trigger] (k * (every * n)))
                        &&& n == 0 ==> (preempts <==> exists|k: int| count == #[trigger] (k * every))
                    }
                }
            },
{
    assert forall|hub: &mut Hub<C>, r: Tick| #[trigger]
        call_ensures(Hub::<C>::tick, (hub, event), r) && hub.wf() && hub@.plan is Some && event
            == Event::Count implies {
        let every = hub@.plan->0.cancel_every as int;
        let count = final(hub)@.checks as int;
        &&& r is Check <==> exists|k: int| count == #[trigger] (k * every)
        &&& hub@.config.preempt_every matches Some(n) ==> {
            let preempts = r matches Tick::Check { preempt: true };
            &&& n > 0 ==> (preempts <==> exists|k: int| count == #[trigger] (k * (every * n)))
            &&& n == 0 ==> (preempts <==> exists|k: int| count == #[trigger] (k * every))
        }
    } by {
        let every = hub@.plan->0.cancel_every as int;
        let count = final(hub)@.checks as int;
        lemma_multiple(count, every);
        match hub@.config.preempt_every {
            Some(n) => {
                lemma_multiple_of_both(
                    count,
                    every,
                    if n == 0 {
                        1
                    } else {
                        n as int
                    },
                );
            },
            None => {},
        }
    }
}

/// The hook's own part in an event, told by the event alone: a cancelled
/// token is raised at a check, and only there; the coroutine is to yield
/// exactly at a check that asks to preempt, if it is one of the crate's and
/// goes on.
pub proof fn law_a_check_raises_the_cancel_or_preempts(tick: Tick, cancelled: bool, root: bool)
    ensures
        forall|r: Verdict| #[trigger]
            call_ensures(verdict, (tick, cancelled, root), r) ==> {
                &&& r is Cancel <==> tick is Check && cancelled
                &&& r == (Verdict::Run { want_yield: true }) <==> {
                    &&& tick matches Tick::Check { preempt: true }
                    &&& root
                    &&& !cancelled
                }
            },
{
}

/// `p` is what the callbacks `hooks` ask for: the hook is called on exactly
/// the kinds of events that some callback asks for, and on count events at the
/// smallest interval that one asks for, or that of the cancel check; the
/// cancel check comes with the first count event that completes its interval.
pub open spec fn asked_for<C>(hooks: Seq<Hook<C>>, p: Plan) -> bool {
    &&& p.triggers.on_calls <==> exists|i: int|
        0 <= i < hooks.len() && (#[trigger] hooks[i]).triggers.on_calls
    &&& p.triggers.on_returns <==> exists|i: int|
        0 <= i < hooks.len() && (#[trigger] hooks[i]).triggers.on_returns
    &&& p.triggers.every_line <==> exists|i: int|
        0 <= i < hooks.len() && (#[trigger] hooks[i]).triggers.every_line
    &&& p.triggers.every_nth_instruction == Some(p.step)
    &&& 1 <= p.step <= 1000
    &&& forall|i: int|
        0 <= i < hooks.len() ==> ((
        #[trigger] hooks[i]).triggers.every_nth_instruction matches Some(n) ==> p.step <= n
            || p.step == 1)
    &&& p.step == 1000 || exists|i: int|
        0 <= i < hooks.len() && ((
        #[trigger] hooks[i]).triggers.every_nth_instruction matches Some(n) && (p.step == n || n
            == 0 && p.step == 1))
    &&& (p.cancel_every - 1) * p.step < 1000 <= p.cancel_every * p.step
}

proof fn lemma_asked_for<C>(hooks: Seq<Hook<C>>)
    ensures
        asked_for(hooks, plan_for(hooks)),
{
    lemma_interval(hooks);
    law_interval_is_asked_for(hooks);
    law_cancel_check_interval(hooks);
    let s = plan_for(hooks).step as int;
    let ce = plan_for(hooks).cancel_every as int;
    assert((ce - 1) * s < 1000 <= ce * s) by (nonlinear_arith)
        requires
            1000 <= s * ce < 1000 + s,
    ;
}

/// The plan of a hub is what its callbacks ask for.
pub proof fn law_the_plan_is_what_the_callbacks_ask_for<C>(hub: Hub<C>)
    ensures
        forall|p: Plan| #[trigger]
            call_ensures(Hub::<C>::plan, (&hub,), p) ==> asked_for(hub@.hooks, p),
{
    lemma_asked_for(hub@.hooks);
}

/// Setting the hook sets it on the VM that is given, to the callback that is
/// given, at exactly the events that the callbacks ask for, and changes
/// nothing else of the hub.
pub proof fn law_install_sets_the_given_hook<
    C,
    F: Fn(&Lua, &debug::Debug<'_>) -> Result<VmState, mlua::Error> + 'static,
>(lua: Lua, callback: F)
    ensures
        forall|hub: &mut Hub<C>, r: Result<(), mlua::Error>| #[trigger]
            call_ensures(Hub::<C>::install::<F>, (hub, &lua, callback), r) ==> {
                &&& r is Ok
                &&& hook_is_set(final(hub)@, lua, acts_of(callback))
                &&& final(hub)@.hooks == hub@.hooks
                &&& final(hub)@.next_id == hub@.next_id
                &&& final(hub)@.config == hub@.config
                &&& final(hub)@.checks == hub@.checks
                &&& final(hub)@.installed == hub@.installed
            },
{
    assert forall|hub: &mut Hub<C>, r: Result<(), mlua::Error>| #[trigger]
        call_ensures(Hub::<C>::install::<F>, (hub, &lua, callback), r) implies asked_for(
        hub@.hooks,
        plan_for(hub@.hooks),
    ) by {
        lemma_asked_for(hub@.hooks);
    }
}

/// The hook of `hub` is set on `lua`, to a callback that acts like `acts`,
/// and the VM calls it at what the callbacks ask for.
pub open spec fn hook_is_set<C>(hub: HubView<C>, lua: Lua, acts: Acts) -> bool {
    &&& hub.plan matches Some(p) && asked_for(hub.hooks, p)
    &&& hub.hook matches Some(h) && {
        &&& h.lua == lua
        &&& h.acts == acts
        &&& h.triggers == hub.plan->0.triggers
    }
}

/// Setting the hook for the callbacks of a hub sets it at what they ask for.
pub(crate) proof fn lemma_hook_is_set<C>(hub: HubView<C>, lua: Lua, acts: Acts)
    ensures
        hook_is_set(installed(hub, lua, acts), lua, acts),
{
    lemma_asked_for(hub.hooks);
}

/// A callback that is registered comes behind those that are, and its number
/// is none of theirs; nothing else changes.
pub proof fn law_a_new_callback_comes_last<C>(triggers: Triggers, callback: C)
    ensures
        forall|hub: &mut Hub<C>, id: HookId| #[trigger]
            call_ensures(Hub::<C>::add_hook, (hub, triggers, callback), id) && hub.wf()
                && hub@.next_id < u64::MAX ==> {
                let before = hub@.hooks;
                let after = final(hub)@.hooks;
                &&& after.len() == before.len() + 1
                &&& forall|i: int| 0 <= i < before.len() ==> #[trigger] after[i] == before[i]
                &&& forall|i: int| 0 <= i < before.len() ==> (#[trigger] before[i]).id != id
                &&& after[before.len() as int] == (Hook { id, triggers, callback })
                &&& final(hub)@ == (HubView {
                    hooks: after,
                    next_id: final(hub)@.next_id,
                    ..hub@
                })
                &&& id.number() < final(hub)@.next_id
                &&& hub@.next_id <= id.number()
            },
{
}

/// Removing a callback takes out exactly the one with the number, and leaves
/// the others in their order.
pub proof fn law_removal_takes_out_one_callback<C>(id: HookId)
    ensures
        forall|hub: &mut Hub<C>, removed: bool| #[trigger]
            call_ensures(Hub::<C>::remove_hook, (hub, id), removed) && hub.wf() ==> {
                let before = hub@.hooks;
                let after = final(hub)@.hooks;
                &&& removed <==> exists|i: int|
                    0 <= i < before.len() && (#[trigger] before[i]).id == id
                &&& !removed ==> after == before
                &&& forall|i: int|
                    0 <= i < before.len() && (#[trigger] before[i]).id == id ==> after
                        == before.take(i) + before.skip(i + 1)
                &&& final(hub)@ == (HubView { hooks: after, ..hub@ })
            },
{
    assert forall|hub: &mut Hub<C>, removed: bool, i: int|
        #[trigger] call_ensures(Hub::<C>::remove_hook, (hub, id), removed) && hub.wf() && 0 <= i
            < hub@.hooks.len() && (#[trigger] hub@.hooks[i]).id == id implies final(hub)@.hooks
        == hub@.hooks.take(i) + hub@.hooks.skip(i + 1) by {
        lemma_removed(hub@.hooks, i);
        assert(hub@.hooks.remove(i) == hub@.hooks.take(i) + hub@.hooks.skip(i + 1));
    }
}

/// The hook has to be set again exactly if it never was, or does not stand
/// where it stood; the settings are those that were stored last.
pub proof fn law_a_replaced_hook_is_noticed<C>(raw: usize, at: usize, config: Config)
    ensures
        forall|hub: Hub<C>, r: bool| #[trigger]
            call_ensures(Hub::<C>::needs_install, (&hub, raw), r) ==> (r <==> hub@.installed == 0
                || hub@.installed != raw),
        forall|hub: &mut Hub<C>, r: ()| #[trigger]
            call_ensures(Hub::<C>::set_installed, (hub, at), r) ==> final(hub)@ == (HubView {
                installed: at,
                ..hub@
            }),
        forall|hub: &mut Hub<C>, r: ()| #[trigger]
            call_ensures(Hub::<C>::set_config, (hub, config), r) ==> final(hub)@ == (HubView {
                config,
                ..hub@
            }),
        forall|hub: Hub<C>, r: Config| #[trigger]
            call_ensures(Hub::<C>::config, (&hub,), r) ==> r == hub@.config,
{
}

/// A round begins with the triggers of the registered callbacks, in their
/// order, and nobody asked.
pub proof fn law_a_round_is_of_the_registered_callbacks<C>(
    hub: Hub<C>,
    event: Event,
    step: u32,
    want_yield: bool,
)
    ensures
        forall|r: Round| #[trigger]
            call_ensures(Hub::<C>::round, (&hub, event, step, want_yield), r) ==> {
                &&& r@.triggers.len() == hub@.hooks.len()
                &&& forall|i: int|
                    0 <= i < hub@.hooks.len() ==> #[trigger] r@.triggers[i]
                        == hub@.hooks[i].triggers
                &&& r@.event == event && r@.step == step
                &&& r@.next == 0 && !r@.due
                &&& r@.want_yield == want_yield
                &&& r@.failed is None
            },
{
}

/// A turn of a round gives the first callback that runs, of those not asked
/// yet: none before it runs, each that was asked has counted the event and no
/// other has, and after an error there is none.
pub proof fn law_a_turn_gives_the_next_callback_that_runs()
    ensures
        forall|round: &mut Round, counters: &mut Vec<Counter>, r: Option<usize>| #[trigger]
            call_ensures(Round::next_due, (round, counters), r) && round.wf() && !round@.due
                && counters@.len() == round@.triggers.len() ==> {
                let v = round@;
                let stop = match r {
                    Some(i) => i as int,
                    None => v.triggers.len() as int,
                };
                &&& v.failed is Some ==> r is None
                &&& r matches Some(i) ==> {
                    &&& v.next <= i < v.triggers.len()
                    &&& fired(v.triggers[i as int], v.event, v.step, counters@[i as int]@).0
                    &&& final(counters)@[i as int]@ == fired(
                        v.triggers[i as int],
                        v.event,
                        v.step,
                        counters@[i as int]@,
                    ).1
                    &&& final(round)@.due
                }
                &&& v.failed is None ==> forall|j: int|
                    v.next <= j < stop ==> {
                        &&& !fired(v.triggers[j], v.event, v.step, counters@[j]@).0
                        &&& #[trigger] final(counters)@[j]@ == fired(
                            v.triggers[j],
                            v.event,
                            v.step,
                            counters@[j]@,
                        ).1
                    }
                &&& final(counters)@.len() == counters@.len()
                &&& forall|j: int|
                    0 <= j < counters@.len() && (j < v.next || j > stop || v.failed is Some)
                        ==> #[trigger] final(counters)@[j]@ == counters@[j]@
                &&& r matches Some(i) ==> final(round)@.next == i
                &&& r is None ==> !final(round)@.due
                &&& r is None && v.failed is None ==> final(round)@.next == v.triggers.len()
                &&& v.failed is Some ==> final(round)@ == v
                &&& final(round)@.triggers == v.triggers
                &&& final(round)@.event == v.event
                &&& final(round)@.step == v.step
                &&& final(round)@.want_yield == v.want_yield
                &&& final(round)@.failed == v.failed
            },
{
    assert forall|round: &mut Round, counters: &mut Vec<Counter>, r: Option<usize>, j: int|
        #[trigger] call_ensures(Round::next_due, (round, counters), r) && round.wf() && !round@.due
            && counters@.len() == round@.triggers.len() && round@.failed is None && round@.next <= j
            < (match r {
            Some(i) => i as int,
            None => round@.triggers.len() as int,
        }) implies !fired(
        round@.triggers[j],
        round@.event,
        round@.step,
        (#[trigger] counters@[j])@,
    ).0 by {
        assert(!runs(round@, counts_of(counters@), j));
        assert(counts_of(counters@)[j] == counters@[j]@);
    }
    assert forall|round: &mut Round, counters: &mut Vec<Counter>, i: usize|
        #[trigger] call_ensures(Round::next_due, (round, counters), Some(i)) && round.wf()
            && !round@.due && counters@.len() == round@.triggers.len() implies fired(
        round@.triggers[i as int],
        round@.event,
        round@.step,
        counters@[i as int]@,
    ).0 by {
        assert(counts_of(counters@)[i as int] == counters@[i as int]@);
    }
}

/// An answer is taken as it is: an error ends the round and comes out of it,
/// a yield is kept, and any other answer changes nothing of what comes out.
pub proof fn law_answers_come_out_of_the_round(answer: Result<VmState, mlua::Error>)
    ensures
        forall|round: &mut Round, r: ()| #[trigger]
            call_ensures(Round::answer, (round, answer), r) && round.wf() && round@.due ==> {
                &&& !final(round)@.due
                &&& final(round)@.next == round@.next + 1
                &&& final(round)@.triggers == round@.triggers
                &&& final(round)@.event == round@.event
                &&& final(round)@.step == round@.step
                &&& answer matches Err(e) ==> {
                    &&& final(round)@.failed == Some(e)
                    &&& final(round)@.want_yield == round@.want_yield
                }
                &&& answer matches Ok(state) ==> {
                    &&& final(round)@.failed == round@.failed
                    &&& final(round)@.want_yield <==> round@.want_yield || yields(state)
                }
            },
        forall|round: Round, r: Result<bool, mlua::Error>| #[trigger]
            call_ensures(Round::finish, (round,), r) ==> {
                &&& round@.failed matches Some(e) ==> r == Err::<bool, mlua::Error>(e)
                &&& round@.failed is None ==> r == Ok::<bool, mlua::Error>(round@.want_yield)
            },
{
}

/// A coroutine counts as one of the crate's exactly from its mark to the
/// forgetting of it, whatever happens to others.
pub proof fn law_roots_are_those_marked(ptr: usize, other: usize)
    ensures
        forall|roots: &mut Roots, r: ()| #[trigger]
            call_ensures(Roots::mark_root, (roots, ptr), r) ==> {
                &&& final(roots)@.contains(ptr)
                &&& other != ptr ==> final(roots)@.contains(other) == roots@.contains(other)
            },
        forall|roots: &mut Roots, r: ()| #[trigger]
            call_ensures(Roots::unmark_root, (roots, ptr), r) ==> {
                &&& !final(roots)@.contains(ptr)
                &&& other != ptr ==> final(roots)@.contains(other) == roots@.contains(other)
            },
        forall|roots: Roots, r: bool| #[trigger]
            call_ensures(Roots::is_root, (&roots, ptr), r) ==> r == roots@.contains(ptr),
{
}

/// A hub begins with no callbacks, no hook and the default settings, a count
/// at zero, and no coroutine marked; what is read is what the hub holds.
pub proof fn law_a_hub_begins_with_nothing<C>(lua: Lua, ptr: usize)
    ensures
        forall|hub: Hub<C>| #[trigger]
            call_ensures(Hub::<C>::new, (lua,), hub) ==> {
                &&& hub@.hooks.len() == 0
                &&& hub@.checks == 0
                &&& hub@.plan is None && hub@.hook is None && hub@.installed == 0
                &&& crate::runtime::nanos(hub@.config.grace) == 0
                &&& hub@.config.preempt_every is None
            },
        forall|hub: Hub<C>, r: bool| #[trigger]
            call_ensures(Hub::<C>::is_full, (&hub,), r) ==> (r <==> hub@.next_id == u64::MAX),
        forall|hub: Hub<C>, r: Option<Plan>| #[trigger]
            call_ensures(Hub::<C>::current_plan, (&hub,), r) ==> r == hub@.plan,
        forall|hub: Hub<C>, r: &Vec<Hook<C>>| #[trigger]
            call_ensures(Hub::<C>::hooks, (&hub,), r) ==> r@ == hub@.hooks,
        forall|c: Counter| #[trigger] call_ensures(Counter::new, (), c) ==> c@ == 0,
        forall|roots: Roots| #[trigger]
            call_ensures(Roots::new, (), roots) ==> !roots@.contains(ptr),
{
}

/// The hook acts on the event that it was called for, as the hub acts on it.
pub proof fn law_a_dispatch_acts_on_its_event<'a, C>(info: debug::Debug<'a>)
    ensures
        forall|hub: &mut Hub<C>, r: (Event, Tick)| #[trigger]
            call_ensures(Hub::<C>::dispatch, (hub, &info), r) && hub.wf() && hub@.plan is Some ==> {
                let every = hub@.plan->0.cancel_every;
                let n = final(hub)@.checks;
                &&& r.0 == debug_event(info)
                &&& r.0 != Event::Count ==> r.1 == Tick::Pass && final(hub)@ == hub@
                &&& r.0 == Event::Count ==> {
                    &&& n == if hub@.checks == u32::MAX {
                        0
                    } else {
                        hub@.checks + 1
                    }
                    &&& final(hub)@ == (HubView { checks: n, ..hub@ })
                    &&& r.1 is Check <==> n % every == 0
                    &&& r.1 matches Tick::Check { preempt } ==> {
                        &&& hub@.config.preempt_every is None ==> !preempt
                        &&& hub@.config.preempt_every matches Some(k) ==> (preempt <==> (n / every)
                            % (if k == 0 {
                            1
                        } else {
                            k
                        }) == 0)
                    }
                }
            },
{
    assert forall|hub: &mut Hub<C>, r: (Event, Tick)| #[trigger]
        call_ensures(Hub::<C>::dispatch, (hub, &info), r)
            && hub.wf() implies (hub@.plan matches Some(p) ==> p.cancel_every >= 1) by {}
}

} // verus!
