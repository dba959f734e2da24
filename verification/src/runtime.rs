//! The state of a VM run by this crate, apart from what Lua itself holds.

use crate::error::IsleError;
use crate::hub::{
    hook_is_set, installed, lemma_hook_is_set, registered, without_hook, Hook, HookId, Hub, HubView,
    Triggers,
};
use crate::lua::{acts_of, function_as_value, lives, Acts};
use crate::protect::{self, holds_the_pieces, is_install_error, is_made, Protect};
use mlua::{debug, Function, Lua, VmState};
use std::time::Duration;
use vstd::prelude::*;

verus! {

/// The length of a duration in nanoseconds.
pub uninterp spec fn nanos(d: Duration) -> u128;

/// `Duration::as_nanos`.
#[verifier::external_body]
pub(crate) fn as_nanos(d: &Duration) -> (r: u128)
    ensures
        r == nanos(*d),
{
    d.as_nanos()
}

/// `Duration::from_nanos`.
#[verifier::external_body]
pub(crate) fn from_nanos(n: u64) -> (r: Duration)
    ensures
        nanos(r) == n,
{
    Duration::from_nanos(n)
}

/// Settings of a VM.  One per VM, read and written through [`Vm`].
#[derive(Clone, Copy, Debug, PartialEq, Eq)]
pub struct Config {
    /// How long a cancelled coroutine request or task may keep running to
    /// finish its cleanup before it is dropped.  One deadline for the
    /// cancelled coroutine and every task it spawned, transitively.
    ///
    /// Default: zero (drop at once).
    pub grace: Duration,
    /// Yield the running coroutine request or task every this many cancel
    /// checks, so that other tasks on the thread can run while it is in a
    /// CPU loop.
    ///
    /// Default: `None` (never preempt).
    pub preempt_every: Option<u32>,
}

impl Default for Config {
    fn default() -> (r: Self)
        ensures
            nanos(r.grace) == 0,
            r.preempt_every is None,
    {
        Config { grace: from_nanos(0), preempt_every: None }
    }
}

impl Config {
    /// The grace in nanoseconds.
    pub fn grace_nanos(&self) -> (r: u128)
        ensures
            r == nanos(self.grace),
    {
        as_nanos(&self.grace)
    }
}

/// The state of a VM: its hook hub, its settings, the pieces it calls Lua
/// with, and its `task` table.  `C` is a hook callback, `K` what the table
/// is kept under.
pub struct Vm<C, K> {
    hub: Hub<C>,
    attached: bool,
    protect: Option<Protect>,
    task: Option<K>,
}

/// A VM as the contracts see it.
pub struct VmView<C, K> {
    pub hub: HubView<C>,
    /// [`Vm::attach`] was called.
    pub attached: bool,
    /// The pieces to call Lua with, once they were made.
    pub protect: Option<Protect>,
    /// The `task` table, once it was made.
    pub task: Option<K>,
}

/// What a request has to do before it runs.
#[derive(Clone, Copy, Debug, PartialEq, Eq, Structural)]
pub enum Setup {
    /// Nothing.
    Ready,
    /// Set the hook again: another one has replaced it.
    Install,
    /// Attach the VM with its stored settings.
    Attach,
}

/// The hub after a callback was registered.
pub open spec fn with_hook<C>(hub: HubView<C>, hook: Hook<C>) -> HubView<C> {
    HubView { hooks: hub.hooks.push(hook), next_id: (hub.next_id + 1) as u64, ..hub }
}

/// The pieces of a VM after they were asked for: those from before, or, if
/// there were none, new ones.
pub open spec fn is_protected(
    lua: Lua,
    handler: Function,
    take: Function,
    before: Option<Protect>,
    after: Option<Protect>,
) -> bool {
    match before {
        Some(_) => after == before,
        None => after matches Some(p) && is_made(p, lua, handler, take),
    }
}

impl<C, K> View for Vm<C, K> {
    type V = VmView<C, K>;

    closed spec fn view(&self) -> VmView<C, K> {
        VmView {
            hub: self.hub@,
            attached: self.attached,
            protect: self.protect,
            task: self.task,
        }
    }
}

impl<C, K> Vm<C, K> {
    /// The hub is in order, and an attached VM has its hook and its pieces.
    pub closed spec fn wf(&self) -> bool {
        &&& self.hub.wf()
        &&& self.attached ==> self.protect is Some && self.hub@.plan is Some
    }

    /// What well-formedness says of the view.
    pub proof fn lemma_wf(&self)
        requires
            self.wf(),
        ensures
            self@.attached ==> self@.protect is Some && self@.hub.plan is Some,
            self@.hub.plan matches Some(p) ==> p.step >= 1 && p.cancel_every >= 1,
            crate::hub::numbered(self@.hub),
    {
    }

    /// A VM that is not attached, with the default settings.
    pub fn new(vm: Lua) -> (r: Self)
        ensures
            r.wf(),
            !r@.attached,
            r@.protect is None,
            r@.task is None,
            r@.hub.hooks.len() == 0,
            r@.hub.next_id == 0,
            r@.hub.plan is None,
            r@.hub.hook is None,
            nanos(r@.hub.config.grace) == 0,
            r@.hub.config.preempt_every is None,
    {
        Vm { hub: Hub::new(vm), attached: false, protect: None, task: None }
    }

    /// Make the pieces to call Lua with, from the two C functions.  Those
    /// that were made before stay.
    pub fn ensure_protected(&mut self, lua: &Lua, handler: Function, take: Function) -> (r: Result<
        (),
        IsleError,
    >)
        requires
            old(self).wf(),
            lives(*lua, function_as_value(handler)),
            lives(*lua, function_as_value(take)),
        ensures
            final(self).wf(),
            final(self)@ == (VmView { protect: final(self)@.protect, ..old(self)@ }),
            match r {
                Ok(()) => is_protected(
                    *lua,
                    handler,
                    take,
                    old(self)@.protect,
                    final(self)@.protect,
                ),
                Err(e) => {
                    &&& old(self)@.protect is None
                    &&& is_install_error(*lua, handler, take, e@)
                    &&& final(self)@.protect is None
                },
            },
    {
        if self.protect.is_some() {
            return Ok(());
        }
        match protect::install(lua, handler, take) {
            Ok(pieces) => {
                self.protect = Some(pieces);
                Ok(())
            },
            Err(e) => Err(e),
        }
    }

    /// The pieces to call Lua with.
    pub fn protected(&self) -> (r: Option<&Protect>)
        ensures
            match r {
                Some(p) => self@.protect == Some(*p),
                None => self@.protect is None,
            },
    {
        self.protect.as_ref()
    }

    /// Make the pieces to call Lua with, set the hook and store `config`.
    ///
    /// Calling it again sets the hook again and replaces the settings; the
    /// pieces, the callbacks and the task table are kept.
    pub fn attach<F>(
        &mut self,
        lua: &Lua,
        handler: Function,
        take: Function,
        config: Config,
        callback: F,
    ) -> (r: Result<(), IsleError>) where
        F: Fn(&Lua, &debug::Debug<'_>) -> Result<VmState, mlua::Error> + 'static,

        requires
            old(self).wf(),
            lives(*lua, function_as_value(handler)),
            lives(*lua, function_as_value(take)),
        ensures
            final(self).wf(),
            match r {
                Ok(()) => {
                    &&& is_protected(
                        *lua,
                        handler,
                        take,
                        old(self)@.protect,
                        final(self)@.protect,
                    )
                    &&& final(self)@ == attached_with(
                        VmView { protect: final(self)@.protect, ..old(self)@ },
                        config,
                        *lua,
                        acts_of(callback),
                    )
                },
                Err(e) => {
                    &&& old(self)@.protect is None
                    &&& is_install_error(*lua, handler, take, e@)
                    &&& final(self)@ == old(self)@
                },
            },
    {
        match self.ensure_protected(lua, handler, take) {
            Ok(()) => {},
            Err(e) => return Err(e),
        }
        match self.hub.install(lua, callback) {
            Ok(()) => {
                self.hub.set_config(config);
                self.attached = true;
                Ok(())
            },
            Err(e) => Err(IsleError::from_mlua(&e, false)),
        }
    }

    /// The VM, if it is attached.
    pub fn of(&self) -> (r: Option<&Self>)
        ensures
            match r {
                Some(vm) => self@.attached && vm == self,
                None => !self@.attached,
            },
    {
        if self.attached {
            Some(self)
        } else {
            None
        }
    }

    /// The VM's settings.
    pub fn config(&self) -> (r: Config)
        ensures
            r == self@.hub.config,
    {
        self.hub.config()
    }

    /// Replace the VM's settings.
    pub fn set_config(&mut self, config: Config)
        requires
            old(self).wf(),
        ensures
            final(self).wf(),
            final(self)@ == (VmView {
                hub: HubView { config, ..old(self)@.hub },
                ..old(self)@
            }),
    {
        self.hub.set_config(config);
    }

    /// Whether no further callback can be registered.
    pub fn is_full(&self) -> (r: bool)
        ensures
            r == (self@.hub.next_id == u64::MAX),
    {
        self.hub.is_full()
    }

    /// Register a hook callback, run after the cancel check at `triggers`.
    pub fn add_hook<F>(&mut self, lua: &Lua, triggers: Triggers, hook: C, callback: F) -> (r:
        Result<HookId, mlua::Error>) where
        F: Fn(&Lua, &debug::Debug<'_>) -> Result<VmState, mlua::Error> + 'static,

        requires
            old(self).wf(),
            old(self)@.hub.next_id < u64::MAX,
        ensures
            final(self).wf(),
            r matches Ok(id) && {
                &&& id.number() == old(self)@.hub.next_id
                &&& final(self)@ == (VmView {
                    hub: installed(
                        with_hook(old(self)@.hub, Hook { id, triggers, callback: hook }),
                        *lua,
                        acts_of(callback),
                    ),
                    ..old(self)@
                })
            },
    {
        let id: HookId = self.hub.add_hook(triggers, hook);
        match self.hub.install(lua, callback) {
            Ok(()) => Ok(id),
            Err(e) => Err(e),
        }
    }

    /// Remove a callback.  Returns whether it was registered.
    pub fn remove_hook<F>(&mut self, lua: &Lua, id: HookId, callback: F) -> (r: Result<
        bool,
        mlua::Error,
    >) where F: Fn(&Lua, &debug::Debug<'_>) -> Result<VmState, mlua::Error> + 'static
        requires
            old(self).wf(),
        ensures
            final(self).wf(),
            r == Ok::<bool, mlua::Error>(registered(old(self)@.hub.hooks, id)),
            if registered(old(self)@.hub.hooks, id) {
                let before = old(self)@.hub;
                let hub = HubView { hooks: without_hook(before.hooks, id), ..before };
                final(self)@ == (VmView {
                    hub: installed(hub, *lua, acts_of(callback)),
                    ..old(self)@
                })
            } else {
                final(self)@ == old(self)@
            },
    {
        let removed: bool = self.hub.remove_hook(id);
        if !removed {
            return Ok(false);
        }
        match self.hub.install(lua, callback) {
            Ok(()) => Ok(true),
            Err(e) => Err(e),
        }
    }

    /// What a request has to do before it runs, when the hook of the VM
    /// stands at the address `raw`.
    pub fn ensure_attached(&self, raw: usize) -> (r: Setup)
        ensures
            r == if !self@.attached {
                Setup::Attach
            } else if self@.hub.installed == 0 || raw != self@.hub.installed {
                Setup::Install
            } else {
                Setup::Ready
            },
    {
        if !self.attached {
            Setup::Attach
        } else if self.hub.needs_install(raw) {
            Setup::Install
        } else {
            Setup::Ready
        }
    }

    /// The settings an actor's VM is attached with after its init closure:
    /// those given, or those the init closure stored.
    pub fn config_after_init(&self, config: Option<Config>) -> (r: Config)
        ensures
            r == match config {
                Some(c) => c,
                None => self@.hub.config,
            },
    {
        match config {
            Some(c) => c,
            None => self.hub.config(),
        }
    }

    /// The hook hub.
    pub fn hub(&self) -> (r: &Hub<C>)
        requires
            self.wf(),
        ensures
            r.wf(),
            r@ == self@.hub,
    {
        &self.hub
    }

    /// Set the hook again, with the settings as they are.
    pub fn reinstall<F>(&mut self, lua: &Lua, callback: F) -> (r: Result<(), mlua::Error>) where
        F: Fn(&Lua, &debug::Debug<'_>) -> Result<VmState, mlua::Error> + 'static,

        requires
            old(self).wf(),
        ensures
            final(self).wf(),
            r is Ok,
            final(self)@ == (VmView {
                hub: installed(old(self)@.hub, *lua, acts_of(callback)),
                ..old(self)@
            }),
    {
        self.hub.install(lua, callback)
    }

    /// The hook stands at the address `raw` now.
    pub fn set_installed(&mut self, raw: usize)
        requires
            old(self).wf(),
        ensures
            final(self).wf(),
            final(self)@ == (VmView {
                hub: HubView { installed: raw, ..old(self)@.hub },
                ..old(self)@
            }),
    {
        self.hub.set_installed(raw);
    }

    /// The hook is called (see [`Hub::dispatch`]).
    pub fn dispatch(&mut self, info: &debug::Debug<'_>) -> (r: Option<(
        crate::hub::Event,
        crate::hub::Tick,
        u32,
    )>)
        requires
            old(self).wf(),
        ensures
            final(self).wf(),
            r is Some == old(self)@.hub.plan is Some,
            r matches Some((event, tick, step)) ==> {
                &&& event == crate::hub::debug_event(*info)
                &&& step == old(self)@.hub.plan->0.step
                &&& if event == crate::hub::Event::Count {
                    let checks = crate::hub::counted(old(self)@.hub.checks);
                    &&& final(self)@ == (VmView {
                        hub: HubView { checks, ..old(self)@.hub },
                        ..old(self)@
                    })
                    &&& tick == crate::hub::tick_at(
                        checks,
                        old(self)@.hub.plan->0.cancel_every,
                        old(self)@.hub.config,
                    )
                } else {
                    final(self)@ == old(self)@ && tick == crate::hub::Tick::Pass
                }
            },
            r is None ==> final(self)@ == old(self)@,
    {
        match self.hub.current_plan() {
            Some(plan) => {
                let (event, tick) = self.hub.dispatch(info);
                Some((event, tick, plan.step))
            },
            None => None,
        }
    }

    /// What the `task` table is kept under, once it was made.
    pub fn task_lib(&self) -> (r: Option<&K>)
        ensures
            match r {
                Some(k) => self@.task == Some(*k),
                None => self@.task is None,
            },
    {
        self.task.as_ref()
    }

    /// Keep a `task` table that was just made.  One that was stored
    /// meanwhile wins.
    pub fn store_task_lib(&mut self, key: K)
        requires
            old(self).wf(),
        ensures
            final(self).wf(),
            final(self)@ == with_task(old(self)@, key),
    {
        if self.task.is_none() {
            self.task = Some(key);
        }
    }
}

/// A VM after it was attached with `config`, its hook set on `lua` and to a
/// callback that acts like this.
pub open spec fn attached_with<C, K>(
    v: VmView<C, K>,
    config: Config,
    lua: Lua,
    acts: Acts,
) -> VmView<C, K> {
    VmView { attached: true, hub: HubView { config, ..installed(v.hub, lua, acts) }, ..v }
}

/// A VM after a `task` table was stored.
pub open spec fn with_task<C, K>(v: VmView<C, K>, key: K) -> VmView<C, K> {
    VmView {
        task: if v.task is Some {
            v.task
        } else {
            Some(key)
        },
        ..v
    }
}

/// A second attach replaces the settings and the hook and keeps everything
/// else: the callbacks and the `task` table.
pub proof fn law_second_attach_wins<C, K>(
    v: VmView<C, K>,
    first: Config,
    second: Config,
    lua: Lua,
    before: Acts,
    after: Acts,
)
    ensures
        ({
            let once = attached_with(v, first, lua, before);
            let twice = attached_with(once, second, lua, after);
            &&& twice == attached_with(v, second, lua, after)
            &&& twice.hub.config == second
            &&& twice.hub.hook matches Some(h) && h.acts == after
            &&& twice.hub.hooks == v.hub.hooks
            &&& twice.task == v.task
        }),
{
}

/// A VM has one `task` table: the first that was stored stays, through any
/// later attach.
pub proof fn law_one_task_table<C, K>(
    v: VmView<C, K>,
    first: K,
    second: K,
    config: Config,
    lua: Lua,
    acts: Acts,
)
    requires
        v.task is None,
    ensures
        with_task(with_task(v, first), second).task == Some(first),
        with_task(attached_with(with_task(v, first), config, lua, acts), second).task == Some(first),
{
}

/// A new VM has the defaults: no grace, no preemption, nothing attached,
/// made, registered or set.
pub proof fn law_a_new_vm_has_the_defaults<C, K>(lua: Lua)
    ensures
        forall|vm: Vm<C, K>| #[trigger]
            call_ensures(Vm::<C, K>::new, (lua,), vm) ==> {
                &&& !vm@.attached && vm@.protect is None && vm@.task is None
                &&& vm@.hub.hooks.len() == 0 && vm@.hub.plan is None && vm@.hub.hook is None
                &&& nanos(vm@.hub.config.grace) == 0
                &&& vm@.hub.config.preempt_every is None
            },
        forall|config: Config| #[trigger]
            call_ensures(<Config as Default>::default, (), config) ==> nanos(config.grace) == 0
                && config.preempt_every is None,
        forall|config: Config, n: u128| #[trigger]
            call_ensures(Config::grace_nanos, (&config,), n) ==> n == nanos(config.grace),
{
}

/// The pieces to call Lua with are made once: those that a VM has stay, and
/// one that has none has them after a success and still none after an error.
/// Nothing else of the VM changes.
pub proof fn law_the_pieces_are_made_once<C, K>(lua: Lua, handler: Function, take: Function)
    ensures
        forall|vm: &mut Vm<C, K>, r: Result<(), IsleError>| #[trigger]
            call_ensures(Vm::<C, K>::ensure_protected, (vm, &lua, handler, take), r) ==> {
                &&& vm@.protect is Some ==> r is Ok && final(vm)@.protect == vm@.protect
                &&& vm@.protect is None && r is Ok ==> (final(vm)@.protect matches Some(p)
                    && holds_the_pieces(p, lua, handler, take))
                &&& r matches Err(e) ==> e@ is Init && final(vm)@.protect is None
                &&& final(vm)@.hub == vm@.hub
                &&& final(vm)@.attached == vm@.attached
                &&& final(vm)@.task == vm@.task
            },
        forall|vm: Vm<C, K>, r: Option<&Protect>| #[trigger]
            call_ensures(Vm::<C, K>::protected, (&vm,), r) ==> (match r {
                Some(p) => vm@.protect == Some(*p),
                None => vm@.protect is None,
            }),
{
}

/// Attaching stores the given settings, sets the hook to the given callback
/// on the given VM, at what the registered callbacks ask for, and keeps the
/// callbacks, the count of checks and the `task` table.  It fails only
/// where the pieces could not be made, and then nothing changes.
pub proof fn law_attaching_stores_and_sets<
    C,
    K,
    F: Fn(&Lua, &debug::Debug<'_>) -> Result<VmState, mlua::Error> + 'static,
>(lua: Lua, handler: Function, take: Function, config: Config, callback: F)
    ensures
        forall|vm: &mut Vm<C, K>, r: Result<(), IsleError>| #[trigger]
            call_ensures(
                Vm::<C, K>::attach::<F>,
                (vm, &lua, handler, take, config, callback),
                r,
            ) ==> {
                &&& vm@.protect is Some ==> r is Ok
                &&& r matches Err(e) ==> e@ is Init && final(vm)@ == vm@
                &&& r is Ok ==> {
                    &&& final(vm)@.attached
                    &&& vm@.protect is None ==> (final(vm)@.protect matches Some(p)
                        && holds_the_pieces(p, lua, handler, take))
                    &&& vm@.protect is Some ==> final(vm)@.protect == vm@.protect
                    &&& final(vm)@.task == vm@.task
                    &&& final(vm)@.hub.config == config
                    &&& final(vm)@.hub.hooks == vm@.hub.hooks
                    &&& final(vm)@.hub.next_id == vm@.hub.next_id
                    &&& final(vm)@.hub.checks == vm@.hub.checks
                    &&& final(vm)@.hub.installed == vm@.hub.installed
                    &&& hook_is_set(final(vm)@.hub, lua, acts_of(callback))
                }
            },
{
    assert forall|hub: HubView<C>, l: Lua, acts: Acts| hook_is_set(
        #[trigger] installed(hub, l, acts),
        l,
        acts,
    ) by {
        lemma_hook_is_set(hub, l, acts);
    }
}

/// A callback that is registered comes behind the others, under a number of
/// its own, and the hook is set for all of them, to the given callback.  It
/// never fails.
pub proof fn law_a_registered_callback_is_hooked<
    C,
    K,
    F: Fn(&Lua, &debug::Debug<'_>) -> Result<VmState, mlua::Error> + 'static,
>(lua: Lua, triggers: Triggers, hook: C, callback: F)
    ensures
        forall|vm: &mut Vm<C, K>, r: Result<HookId, mlua::Error>| #[trigger]
            call_ensures(Vm::<C, K>::add_hook::<F>, (vm, &lua, triggers, hook, callback), r)
                && vm.wf() && vm@.hub.next_id < u64::MAX ==> {
                let before = vm@.hub.hooks;
                let after = final(vm)@.hub.hooks;
                &&& r matches Ok(id) && {
                    &&& after == before + seq![Hook { id, triggers, callback: hook }]
                    &&& forall|i: int| 0 <= i < before.len() ==> (#[trigger] before[i]).id != id
                }
                &&& hook_is_set(final(vm)@.hub, lua, acts_of(callback))
                &&& final(vm)@.hub.config == vm@.hub.config
                &&& final(vm)@.hub.checks == vm@.hub.checks
                &&& final(vm)@.hub.installed == vm@.hub.installed
                &&& final(vm)@.attached == vm@.attached
                &&& final(vm)@.protect == vm@.protect
                &&& final(vm)@.task == vm@.task
            },
{
    assert forall|hub: HubView<C>, l: Lua, acts: Acts| hook_is_set(
        #[trigger] installed(hub, l, acts),
        l,
        acts,
    ) by {
        lemma_hook_is_set(hub, l, acts);
    }
    assert forall|vm: &mut Vm<C, K>, r: Result<HookId, mlua::Error>| #[trigger]
        call_ensures(Vm::<C, K>::add_hook::<F>, (vm, &lua, triggers, hook, callback), r) && vm.wf()
            && vm@.hub.next_id < u64::MAX implies {
        &&& crate::hub::numbered(vm@.hub)
        &&& r matches Ok(id) && final(vm)@.hub.hooks == vm@.hub.hooks + seq![
            Hook { id, triggers, callback: hook },
        ]
    } by {
        vm.lemma_wf();
        assert(final(vm)@.hub.hooks == vm@.hub.hooks.push(
            Hook { id: r->Ok_0, triggers, callback: hook },
        ));
    }
}

/// Removing a callback takes out the one with the number, tells whether there
/// was one, and sets the hook for those that are left exactly if there was.
pub proof fn law_a_removed_callback_is_unhooked<
    C,
    K,
    F: Fn(&Lua, &debug::Debug<'_>) -> Result<VmState, mlua::Error> + 'static,
>(lua: Lua, id: HookId, callback: F)
    ensures
        forall|vm: &mut Vm<C, K>, r: Result<bool, mlua::Error>| #[trigger]
            call_ensures(Vm::<C, K>::remove_hook::<F>, (vm, &lua, id, callback), r) && vm.wf() ==> {
                let before = vm@.hub.hooks;
                let after = final(vm)@.hub.hooks;
                &&& r matches Ok(removed) && {
                    &&& removed <==> exists|i: int|
                        0 <= i < before.len() && (#[trigger] before[i]).id == id
                    &&& !removed ==> final(vm)@ == vm@
                    &&& removed ==> hook_is_set(final(vm)@.hub, lua, acts_of(callback))
                }
                &&& forall|i: int|
                    0 <= i < before.len() && (#[trigger] before[i]).id == id ==> after
                        == before.take(i) + before.skip(i + 1)
                &&& final(vm)@.hub.next_id == vm@.hub.next_id
                &&& final(vm)@.hub.config == vm@.hub.config
                &&& final(vm)@.hub.checks == vm@.hub.checks
                &&& final(vm)@.hub.installed == vm@.hub.installed
                &&& final(vm)@.attached == vm@.attached
                &&& final(vm)@.protect == vm@.protect
                &&& final(vm)@.task == vm@.task
            },
{
    assert forall|hub: HubView<C>, l: Lua, acts: Acts| hook_is_set(
        #[trigger] installed(hub, l, acts),
        l,
        acts,
    ) by {
        lemma_hook_is_set(hub, l, acts);
    }
    assert forall|vm: &mut Vm<C, K>, r: Result<bool, mlua::Error>, i: int| #[trigger]
        call_ensures(Vm::<C, K>::remove_hook::<F>, (vm, &lua, id, callback), r) && vm.wf() && 0
            <= i < vm@.hub.hooks.len() && (
        #[trigger] vm@.hub.hooks[i]).id == id implies final(vm)@.hub.hooks == vm@.hub.hooks.take(i)
        + vm@.hub.hooks.skip(i + 1) by {
        vm.lemma_wf();
        crate::hub::lemma_removed(vm@.hub.hooks, i);
        assert(vm@.hub.hooks.remove(i) == vm@.hub.hooks.take(i) + vm@.hub.hooks.skip(i + 1));
    }
}

/// A request on a VM that is not attached attaches it; on one whose hook was
/// never set, or does not stand where it stood, it sets the hook again; and
/// on any other it has nothing to do.  Setting it again keeps everything but
/// the hook.
pub proof fn law_a_request_finds_the_hook_in_place<
    C,
    K,
    F: Fn(&Lua, &debug::Debug<'_>) -> Result<VmState, mlua::Error> + 'static,
>(raw: usize, lua: Lua, callback: F)
    ensures
        forall|vm: Vm<C, K>, r: Setup| #[trigger]
            call_ensures(Vm::<C, K>::ensure_attached, (&vm, raw), r) ==> {
                &&& r == Setup::Attach <==> !vm@.attached
                &&& r == Setup::Ready <==> vm@.attached && vm@.hub.installed == raw && raw != 0
            },
        forall|vm: Vm<C, K>, r: Option<&Vm<C, K>>| #[trigger]
            call_ensures(Vm::<C, K>::of, (&vm,), r) ==> {
                &&& r is Some <==> vm@.attached
                &&& r matches Some(v) ==> v@ == vm@
            },
        forall|vm: &mut Vm<C, K>, r: ()| #[trigger]
            call_ensures(Vm::<C, K>::set_installed, (vm, raw), r) ==> {
                &&& final(vm)@ == (VmView { hub: final(vm)@.hub, ..vm@ })
                &&& final(vm)@.hub == (HubView { installed: raw, ..vm@.hub })
            },
        forall|vm: &mut Vm<C, K>, r: Result<(), mlua::Error>| #[trigger]
            call_ensures(Vm::<C, K>::reinstall::<F>, (vm, &lua, callback), r) ==> {
                &&& r is Ok
                &&& hook_is_set(final(vm)@.hub, lua, acts_of(callback))
                &&& final(vm)@.hub.hooks == vm@.hub.hooks
                &&& final(vm)@.hub.next_id == vm@.hub.next_id
                &&& final(vm)@.hub.config == vm@.hub.config
                &&& final(vm)@.hub.checks == vm@.hub.checks
                &&& final(vm)@.hub.installed == vm@.hub.installed
                &&& final(vm)@.attached == vm@.attached
                &&& final(vm)@.protect == vm@.protect
                &&& final(vm)@.task == vm@.task
            },
{
    assert forall|hub: HubView<C>, l: Lua, acts: Acts| hook_is_set(
        #[trigger] installed(hub, l, acts),
        l,
        acts,
    ) by {
        lemma_hook_is_set(hub, l, acts);
    }
}

/// The settings that are read are those that were stored last; an actor's VM
/// keeps what its init closure stored unless it was given others.
pub proof fn law_the_last_settings_hold<C, K>(config: Config, given: Option<Config>)
    ensures
        forall|vm: &mut Vm<C, K>, r: ()| #[trigger]
            call_ensures(Vm::<C, K>::set_config, (vm, config), r) ==> {
                &&& final(vm)@.hub == (HubView { config, ..vm@.hub })
                &&& final(vm)@ == (VmView { hub: final(vm)@.hub, ..vm@ })
            },
        forall|vm: Vm<C, K>, r: Config| #[trigger]
            call_ensures(Vm::<C, K>::config, (&vm,), r) ==> r == vm@.hub.config,
        forall|vm: Vm<C, K>, r: Config| #[trigger]
            call_ensures(Vm::<C, K>::config_after_init, (&vm, given), r) ==> {
                &&& given is Some ==> Some(r) == given
                &&& given is None ==> r == vm@.hub.config
            },
{
}

/// A call of the hook is acted on exactly if the hook was set.  At a count
/// event the cancel check is due once in as many as the plan says, and it
/// asks to preempt exactly if the settings say so and the number of the
/// check is a multiple of theirs; at any other event nothing is due and
/// nothing changes.
pub proof fn law_a_dispatch_checks_and_preempts<'a, C, K>(info: debug::Debug<'a>)
    ensures
        forall|vm: &mut Vm<C, K>, r: Option<(crate::hub::Event, crate::hub::Tick, u32)>|
            #[trigger] call_ensures(Vm::<C, K>::dispatch, (vm, &info), r) && vm.wf() ==> {
                &&& r is Some <==> vm@.hub.plan is Some
                &&& r is None ==> final(vm)@ == vm@
                &&& r matches Some((event, tick, step)) ==> {
                    let every = vm@.hub.plan->0.cancel_every;
                    let n = final(vm)@.hub.checks;
                    &&& step == vm@.hub.plan->0.step
                    &&& event == crate::hub::debug_event(info)
                    &&& event != crate::hub::Event::Count ==> {
                        &&& tick == crate::hub::Tick::Pass
                        &&& final(vm)@ == vm@
                    }
                    &&& event == crate::hub::Event::Count ==> {
                        &&& n == if vm@.hub.checks == u32::MAX {
                            0
                        } else {
                            vm@.hub.checks + 1
                        }
                        &&& tick is Check <==> n % every == 0
                        &&& tick matches crate::hub::Tick::Check { preempt } ==> {
                            &&& vm@.hub.config.preempt_every is None ==> !preempt
                            &&& vm@.hub.config.preempt_every matches Some(k) ==> (preempt <==> (n
                                / every) % (if k == 0 {
                                1
                            } else {
                                k
                            }) == 0)
                        }
                        &&& final(vm)@ == (VmView { hub: final(vm)@.hub, ..vm@ })
                        &&& final(vm)@.hub == (HubView { checks: n, ..vm@.hub })
                    }
                }
            },
{
    assert forall|vm: &mut Vm<C, K>, r: Option<(crate::hub::Event, crate::hub::Tick, u32)>|
        #[trigger] call_ensures(Vm::<C, K>::dispatch, (vm, &info), r)
            && vm.wf() implies (vm@.hub.plan matches Some(p) ==> p.step >= 1 && p.cancel_every
        >= 1) by {
        vm.lemma_wf();
    }
}

/// A `task` table is kept if there is none yet, and the first one stays;
/// what is kept is what is read.
pub proof fn law_the_first_task_table_stays<C, K>(key: K)
    ensures
        forall|vm: &mut Vm<C, K>, r: ()| #[trigger]
            call_ensures(Vm::<C, K>::store_task_lib, (vm, key), r) ==> {
                &&& vm@.task is None ==> final(vm)@.task == Some(key)
                &&& vm@.task is Some ==> final(vm)@.task == vm@.task
                &&& final(vm)@ == (VmView { task: final(vm)@.task, ..vm@ })
            },
        forall|vm: Vm<C, K>, r: Option<&K>| #[trigger]
            call_ensures(Vm::<C, K>::task_lib, (&vm,), r) ==> (match r {
                Some(k) => vm@.task == Some(*k),
                None => vm@.task is None,
            }),
        forall|vm: Vm<C, K>, r: &Hub<C>| #[trigger]
            call_ensures(Vm::<C, K>::hub, (&vm,), r) ==> r@ == vm@.hub,
{
}

/// A VM takes callbacks until every number was given out.
pub proof fn law_a_vm_is_full_without_numbers<C, K>()
    ensures
        forall|vm: Vm<C, K>, r: bool| #[trigger]
            call_ensures(Vm::<C, K>::is_full, (&vm,), r) ==> (r <==> vm@.hub.next_id == u64::MAX),
{
}

} // verus!
