//! The hook API under its older names.  Every item here forwards to the
//! [`Vm`].

use crate::error::IsleError;
use crate::hub::{
    self, hook_is_set, installed, lemma_hook_is_set, registered, without_hook, Hook, HubView,
    Triggers,
};
use crate::lua::{acts_of, function_as_value, lives, Acts};
use crate::protect::{holds_the_pieces, is_install_error};
use crate::runtime::{self, is_protected, with_hook, Vm, VmView};
use mlua::{debug, Function, Lua, VmState};
use vstd::prelude::*;

verus! {

/// Handle of a hook callback.
pub type HookId = hub::HookId;

/// Settings of a VM: an alias of [`runtime::Config`].
pub type CancelConfig = runtime::Config;

/// Set the hook (again).  Attaches the VM with its stored settings.
pub fn install<C, K, F>(
    vm: &mut Vm<C, K>,
    lua: &Lua,
    handler: Function,
    take: Function,
    callback: F,
) -> (r: Result<(), IsleError>) where
    F: Fn(&Lua, &debug::Debug<'_>) -> Result<VmState, mlua::Error> + 'static,

    requires
        old(vm).wf(),
        lives(*lua, function_as_value(handler)),
        lives(*lua, function_as_value(take)),
    ensures
        final(vm).wf(),
        match r {
            Ok(()) => {
                &&& is_protected(*lua, handler, take, old(vm)@.protect, final(vm)@.protect)
                &&& final(vm)@ == (VmView {
                    attached: true,
                    protect: final(vm)@.protect,
                    hub: installed(old(vm)@.hub, *lua, acts_of(callback)),
                    ..old(vm)@
                })
            },
            Err(e) => {
                &&& old(vm)@.protect is None
                &&& is_install_error(*lua, handler, take, e@)
                &&& final(vm)@ == old(vm)@
            },
        },
{
    let config: CancelConfig = vm.config();
    vm.attach(lua, handler, take, config, callback)
}

/// Register a hook callback.  Attaches the VM with its stored settings if it
/// is not attached.
pub fn add_hook<C, K, F>(
    vm: &mut Vm<C, K>,
    lua: &Lua,
    handler: Function,
    take: Function,
    triggers: Triggers,
    hook: C,
    callback: F,
) -> (r: Result<HookId, IsleError>) where
    F: Fn(&Lua, &debug::Debug<'_>) -> Result<VmState, mlua::Error> + Clone + 'static,

    requires
        old(vm).wf(),
        lives(*lua, function_as_value(handler)),
        lives(*lua, function_as_value(take)),
        old(vm)@.hub.next_id < u64::MAX,
    ensures
        final(vm).wf(),
        match r {
            Ok(id) => {
                &&& id.number() == old(vm)@.hub.next_id
                &&& old(vm)@.attached ==> final(vm)@.protect == old(vm)@.protect
                &&& !old(vm)@.attached ==> is_protected(
                    *lua,
                    handler,
                    take,
                    old(vm)@.protect,
                    final(vm)@.protect,
                )
                &&& final(vm)@ == (VmView {
                    attached: true,
                    protect: final(vm)@.protect,
                    hub: installed(
                        with_hook(old(vm)@.hub, Hook { id, triggers, callback: hook }),
                        *lua,
                        acts_of(callback),
                    ),
                    ..old(vm)@
                })
            },
            Err(e) => {
                &&& !old(vm)@.attached
                &&& old(vm)@.protect is None
                &&& is_install_error(*lua, handler, take, e@)
                &&& final(vm)@ == old(vm)@
            },
        },
{
    if vm.of().is_none() {
        match install(vm, lua, handler, take, callback.clone()) {
            Ok(()) => {},
            Err(e) => return Err(e),
        }
    }
    match vm.add_hook(lua, triggers, hook, callback) {
        Ok(id) => Ok(id),
        Err(e) => Err(IsleError::from_mlua(&e, false)),
    }
}

/// Remove a hook callback.  Does not attach the VM.
pub fn remove_hook<C, K, F>(vm: &mut Vm<C, K>, lua: &Lua, id: HookId, callback: F) -> (r: Result<
    bool,
    mlua::Error,
>) where F: Fn(&Lua, &debug::Debug<'_>) -> Result<VmState, mlua::Error> + 'static
    requires
        old(vm).wf(),
    ensures
        final(vm).wf(),
        r == Ok::<bool, mlua::Error>(registered(old(vm)@.hub.hooks, id)),
        if registered(old(vm)@.hub.hooks, id) {
            let before = old(vm)@.hub;
            let after = HubView { hooks: without_hook(before.hooks, id), ..before };
            final(vm)@ == (VmView {
                hub: installed(after, *lua, acts_of(callback)),
                ..old(vm)@
            })
        } else {
            final(vm)@ == old(vm)@
        },
{
    vm.remove_hook(lua, id, callback)
}

/// Set the VM's settings.  On a VM that is not attached yet they are
/// stored; this does not attach.
pub fn configure<C, K>(vm: &mut Vm<C, K>, config: CancelConfig)
    requires
        old(vm).wf(),
    ensures
        final(vm).wf(),
        final(vm)@ == (VmView { hub: HubView { config, ..old(vm)@.hub }, ..old(vm)@ }),
{
    vm.set_config(config);
}

/// The VM's settings, the default if none were set.
pub fn config<C, K>(vm: &Vm<C, K>) -> (r: CancelConfig)
    ensures
        r == vm@.hub.config,
{
    vm.config()
}

/// Setting the hook attaches the VM with the settings it has: they stay, as
/// do the callbacks, the count of checks and the `task` table.  It fails
/// only where the pieces could not be made, and then nothing changes.
pub proof fn law_install_keeps_the_settings<
    C,
    K,
    F: Fn(&Lua, &debug::Debug<'_>) -> Result<VmState, mlua::Error> + 'static,
>(lua: Lua, handler: Function, take: Function, callback: F)
    ensures
        forall|vm: &mut Vm<C, K>, r: Result<(), IsleError>| #[trigger]
            call_ensures(install::<C, K, F>, (vm, &lua, handler, take, callback), r) ==> {
                &&& vm@.protect is Some ==> r is Ok
                &&& r matches Err(e) ==> e@ is Init && final(vm)@ == vm@
                &&& r is Ok ==> {
                    &&& final(vm)@.attached
                    &&& vm@.protect is None ==> (final(vm)@.protect matches Some(p)
                        && holds_the_pieces(p, lua, handler, take))
                    &&& vm@.protect is Some ==> final(vm)@.protect == vm@.protect
                    &&& final(vm)@.task == vm@.task
                    &&& final(vm)@.hub.config == vm@.hub.config
                    &&& final(vm)@.hub.hooks == vm@.hub.hooks
                    &&& final(vm)@.hub.next_id == vm@.hub.next_id
                    &&& final(vm)@.hub.checks == vm@.hub.checks
                    &&& final(vm)@.hub.installed == vm@.hub.installed
                    &&& hook_is_set(final(vm)@.hub, lua, acts_of(callback))
                }
            },
{
    assert forall|hub: HubView<C>, l: Lua, acts: Acts| hook_is_set(
        #[trigger] installed(hub, l, acts),
        l,
        acts,
    ) by {
        lemma_hook_is_set(hub, l, acts);
    }
}

/// Registering a callback attaches the VM if it is not attached: it comes
/// behind the others, under a number of its own, and the hook is set for all
/// of them.  On a VM that is attached it never fails; where it fails nothing
/// changes.
pub proof fn law_add_hook_attaches_and_registers<
    C,
    K,
    F: Fn(&Lua, &debug::Debug<'_>) -> Result<VmState, mlua::Error> + Clone + 'static,
>(lua: Lua, handler: Function, take: Function, triggers: Triggers, hook: C, callback: F)
    ensures
        forall|vm: &mut Vm<C, K>, r: Result<HookId, IsleError>| #[trigger]
            call_ensures(
                add_hook::<C, K, F>,
                (vm, &lua, handler, take, triggers, hook, callback),
                r,
            ) && vm.wf() && vm@.hub.next_id < u64::MAX ==> {
                let before = vm@.hub.hooks;
                let after = final(vm)@.hub.hooks;
                &&& vm@.attached || vm@.protect is Some ==> r is Ok
                &&& r matches Err(e) ==> e@ is Init && final(vm)@ == vm@
                &&& r matches Ok(id) ==> {
                    &&& after == before + seq![Hook { id, triggers, callback: hook }]
                    &&& forall|i: int| 0 <= i < before.len() ==> (#[trigger] before[i]).id != id
                    &&& hook_is_set(final(vm)@.hub, lua, acts_of(callback))
                    &&& final(vm)@.attached
                    &&& vm@.protect is None ==> (final(vm)@.protect matches Some(p)
                        && holds_the_pieces(p, lua, handler, take))
                    &&& vm@.protect is Some ==> final(vm)@.protect == vm@.protect
                    &&& final(vm)@.task == vm@.task
                    &&& final(vm)@.hub.config == vm@.hub.config
                    &&& final(vm)@.hub.checks == vm@.hub.checks
                    &&& final(vm)@.hub.installed == vm@.hub.installed
                }
            },
{
    assert forall|hub: HubView<C>, l: Lua, acts: Acts| hook_is_set(
        #[trigger] installed(hub, l, acts),
        l,
        acts,
    ) by {
        lemma_hook_is_set(hub, l, acts);
    }
    assert forall|vm: &mut Vm<C, K>, r: Result<HookId, IsleError>| #[trigger]
        call_ensures(
            add_hook::<C, K, F>,
            (vm, &lua, handler, take, triggers, hook, callback),
            r,
        ) && vm.wf() && vm@.hub.next_id < u64::MAX implies {
        &&& hub::numbered(vm@.hub)
        &&& vm@.attached ==> vm@.protect is Some
        &&& r matches Ok(id) ==> final(vm)@.hub.hooks == vm@.hub.hooks + seq![
            Hook { id, triggers, callback: hook },
        ]
    } by {
        vm.lemma_wf();
        if r is Ok {
            assert(final(vm)@.hub.hooks == vm@.hub.hooks.push(
                Hook { id: r->Ok_0, triggers, callback: hook },
            ));
        }
    }
}

/// Removing a callback takes out the one with the number and tells whether
/// there was one.  It does not attach the VM.
pub proof fn law_remove_hook_does_not_attach<
    C,
    K,
    F: Fn(&Lua, &debug::Debug<'_>) -> Result<VmState, mlua::Error> + 'static,
>(lua: Lua, id: HookId, callback: F)
    ensures
        forall|vm: &mut Vm<C, K>, r: Result<bool, mlua::Error>| #[trigger]
            call_ensures(remove_hook::<C, K, F>, (vm, &lua, id, callback), r) && vm.wf() ==> {
                let before = vm@.hub.hooks;
                let after = final(vm)@.hub.hooks;
                &&& r matches Ok(removed) && {
                    &&& removed <==> exists|i: int|
                        0 <= i < before.len() && (#[trigger] before[i]).id == id
                    &&& !removed ==> final(vm)@ == vm@
                    &&& removed ==> hook_is_set(final(vm)@.hub, lua, acts_of(callback))
                }
                &&& forall|i: int|
                    0 <= i < before.len() && (#[trigger] before[i]).id == id ==> after
                        == before.take(i) + before.skip(i + 1)
                &&& final(vm)@.hub.config == vm@.hub.config
                &&& final(vm)@.hub.checks == vm@.hub.checks
                &&& final(vm)@.hub.installed == vm@.hub.installed
                &&& final(vm)@.attached == vm@.attached
                &&& final(vm)@.protect == vm@.protect
                &&& final(vm)@.task == vm@.task
            },
{
    assert forall|hub: HubView<C>, l: Lua, acts: Acts| hook_is_set(
        #[trigger] installed(hub, l, acts),
        l,
        acts,
    ) by {
        lemma_hook_is_set(hub, l, acts);
    }
    assert forall|vm: &mut Vm<C, K>, r: Result<bool, mlua::Error>, i: int| #[trigger]
        call_ensures(remove_hook::<C, K, F>, (vm, &lua, id, callback), r) && vm.wf() && 0 <= i
            < vm@.hub.hooks.len() && (
        #[trigger] vm@.hub.hooks[i]).id == id implies final(vm)@.hub.hooks == vm@.hub.hooks.take(i)
        + vm@.hub.hooks.skip(i + 1) by {
        vm.lemma_wf();
        hub::lemma_removed(vm@.hub.hooks, i);
        assert(vm@.hub.hooks.remove(i) == vm@.hub.hooks.take(i) + vm@.hub.hooks.skip(i + 1));
    }
}

/// The settings that are read are those that were stored last, and storing
/// them does not attach the VM or change anything else.
pub proof fn law_configured_settings_are_read<C, K>(given: CancelConfig)
    ensures
        forall|vm: &mut Vm<C, K>, r: ()| #[trigger]
            call_ensures(configure::<C, K>, (vm, given), r) ==> {
                &&& final(vm)@.hub == (HubView { config: given, ..vm@.hub })
                &&& final(vm)@.attached == vm@.attached
                &&& final(vm)@.protect == vm@.protect
                &&& final(vm)@.task == vm@.task
            },
        forall|vm: Vm<C, K>, r: CancelConfig| #[trigger]
            call_ensures(config::<C, K>, (&vm,), r) ==> r == vm@.hub.config,
{
}

} // verus!
