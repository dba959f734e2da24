//! The Lua `task` library: its Lua part, and the rules of the host
//! functions under it.

use crate::error::Fault;
use crate::lua::{
    self, all_live, compiles, error_tree, function_as_value, lives, table_as_value, value_view,
    values_of, were_made, Call, Calls, ErrorTree, Outcome, Shape, Source, ValueView,
};
use crate::protect::{escaped, was_called};
use mlua::{Function, Lua, MultiValue, Table, Value};
use std::collections::HashMap;
use vstd::prelude::*;

verus! {

broadcast use vstd::std_specs::hash::group_hash_axioms;

/// The Lua part: `task.spawn`, the task methods, `task.CANCELLED` and
/// `task.is_cancelled`, on top of the host functions.
pub const LIB: &'static str =
    "
local spawn_raw, join_raw, cancel_raw, done_raw, release_raw, is_cancel_error, CANCELLED = ...
local rawequal = rawequal

local Task = {}
Task.__index = Task

function Task:join()
  if self._joined then error('task already joined', 2) end
  self._joined = true
  return join_raw(self._id)
end

function Task:cancel()
  if not self._joined then cancel_raw(self._id) end
end

function Task:done()
  return self._joined or done_raw(self._id)
end

Task.__close = function(self)
  if not self._joined then
    cancel_raw(self._id)
    self:join()
  end
end

Task.__gc = function(self)
  if not self._joined then release_raw(self._id) end
end

local task = { CANCELLED = CANCELLED }

function task.is_cancelled(err)
  return rawequal(err, CANCELLED) or is_cancel_error(err)
end

function task.spawn(f, ...)
  return setmetatable({ _id = spawn_raw(f, ...) }, Task)
end

return task
";

/// The chunk name of [`LIB`].
pub const LIB_CHUNK: &'static str = "=mlua_isle.tasks";

/// How `task.CANCELLED` prints.
pub const CANCELLED_TEXT: &'static str = "task.CANCELLED";

/// The error of a task that is not known (any more).
pub const UNKNOWN_TASK: &'static str = "unknown task";

/// The error of a spawn outside a coroutine request or task.
pub const NOT_IN_A_SCOPE: &'static str =
    "task.spawn: not inside a coroutine request or task (sync requests cannot spawn)";

/// The tasks that Lua code has a handle of.
pub struct Registry<T> {
    tasks: HashMap<u64, T>,
    next_id: u64,
}

impl<T> View for Registry<T> {
    type V = Map<u64, T>;

    closed spec fn view(&self) -> Map<u64, T> {
        self.tasks@
    }
}

impl<T> Registry<T> {
    /// The number the next task gets.
    pub closed spec fn next_id(&self) -> u64 {
        self.next_id
    }

    /// Every number in use was given out.
    pub open spec fn wf(&self) -> bool {
        forall|id: u64| #[trigger] self@.contains_key(id) ==> id < self.next_id()
    }

    /// No tasks.
    pub fn new() -> (r: Self)
        ensures
            r.wf(),
            r@ == Map::<u64, T>::empty(),
            r.next_id() == 0,
    {
        Registry { tasks: HashMap::new(), next_id: 0 }
    }

    /// Whether every number has been given out.
    pub fn is_full(&self) -> (r: bool)
        ensures
            r == (self.next_id() == u64::MAX),
    {
        self.next_id == u64::MAX
    }

    /// The task `id`, or the error that it is not known.
    pub fn get(&self, id: u64) -> (r: Result<&T, mlua::Error>)
        ensures
            match r {
                Ok(t) => self@.contains_key(id) && *t == self@[id],
                Err(e) => !self@.contains_key(id) && error_tree(e) == ErrorTree::Runtime(
                    UNKNOWN_TASK@,
                ),
            },
    {
        match self.tasks.get(&id) {
            Some(t) => Ok(t),
            None => Err(lua::runtime_error(UNKNOWN_TASK)),
        }
    }

    /// Enter a task that was just spawned, and give it a number.
    pub fn insert(&mut self, task: T) -> (id: u64)
        requires
            old(self).wf(),
            old(self).next_id() < u64::MAX,
        ensures
            final(self).wf(),
            id == old(self).next_id(),
            final(self).next_id() == id + 1,
            !old(self)@.contains_key(id),
            final(self)@ == old(self)@.insert(id, task),
    {
        let id: u64 = self.next_id;
        self.next_id = id + 1;
        let _ = self.tasks.insert(id, task);
        proof {
            assert forall|x: u64| #[trigger] self@.contains_key(x) implies x < self.next_id() by {
                if x != id {
                    assert(old(self)@.contains_key(x));
                }
            }
        }
        id
    }

    /// Take a task out: it was joined, or its handle is gone.
    pub fn remove(&mut self, id: u64) -> (r: Option<T>)
        requires
            old(self).wf(),
        ensures
            final(self).wf(),
            final(self).next_id() == old(self).next_id(),
            final(self)@ == old(self)@.remove(id),
            match r {
                Some(t) => old(self)@.contains_key(id) && t == old(self)@[id],
                None => !old(self)@.contains_key(id),
            },
    {
        let r: Option<T> = self.tasks.remove(&id);
        assert(self@ =~= old(self)@.remove(id));
        r
    }
}

/// The error of a spawn outside a coroutine request or task.
pub fn not_in_a_scope() -> (r: mlua::Error)
    ensures
        error_tree(r) == ErrorTree::Runtime(NOT_IN_A_SCOPE@),
{
    lua::runtime_error(NOT_IN_A_SCOPE)
}

/// `r` is the result of a task whose body returned the values `v`.
pub open spec fn is_task_result(v: Seq<Value>, cancelled: bool, r: Option<MultiValue>) -> bool {
    if v.len() > 0 && value_view(v[0]) == ValueView::Boolean(false) && cancelled {
        r is None
    } else {
        r matches Some(m) && values_of(m) == v
    }
}

/// The result of a task, from what its body returned (`None` if it was
/// dropped) and whether its token is cancelled.  `None` means cancelled.
///
/// A body that failed after its token was cancelled counts as cancelled; an
/// error that escaped the body becomes `false, err`.
pub fn task_result(out: Option<Result<MultiValue, mlua::Error>>, cancelled: bool) -> (r: Option<
    MultiValue,
>)
    ensures
        match out {
            None => r is None,
            Some(Ok(values)) => is_task_result(values_of(values), cancelled, r),
            Some(Err(e)) => if cancelled {
                r is None
            } else {
                &&& r matches Some(m)
                &&& values_of(m).len() == 2
                &&& value_view(values_of(m)[0]) == ValueView::Boolean(false)
                &&& value_view(values_of(m)[1]) == ValueView::Error(error_tree(e))
            },
        },
{
    match out {
        None => None,
        Some(Ok(values)) => {
            let values: Vec<Value> = lua::into_values(values);
            let failed: bool = values.len() > 0 && match lua::shape_of(&values[0]) {
                Shape::Boolean(b) => !b,
                _ => false,
            };
            if failed && cancelled {
                None
            } else {
                Some(lua::from_values(values))
            }
        },
        Some(Err(e)) => {
            if cancelled {
                None
            } else {
                let mut values: Vec<Value> = Vec::new();
                values.push(lua::boolean_value(false));
                values.push(lua::error_value(e));
                Some(lua::from_values(values))
            }
        },
    }
}

/// What `join` returns: the task's result, or `false, task.CANCELLED`.
pub fn join_result(result: Option<MultiValue>, marker: Table) -> (r: MultiValue)
    ensures
        match result {
            Some(m) => r == m,
            None => {
                &&& values_of(r).len() == 2
                &&& value_view(values_of(r)[0]) == ValueView::Boolean(false)
                &&& values_of(r)[1] == table_as_value(marker)
            },
        },
{
    match result {
        Some(values) => values,
        None => {
            let mut values: Vec<Value> = Vec::new();
            values.push(lua::boolean_value(false));
            values.push(lua::table_value(marker));
            lua::from_values(values)
        },
    }
}

/// The Rust error that a Lua value is, to be asked whether it carries the
/// cancellation; a value that is no Rust error does not.
pub fn raised_error(value: &Value) -> (r: Option<mlua::Error>)
    ensures
        match value_view(*value) {
            ValueView::Error(tree) => r matches Some(e) && error_tree(e) == tree,
            _ => r is None,
        },
{
    lua::error_of(value)
}

/// The host functions under the library.
pub struct HostFunctions {
    pub spawn: Function,
    pub join: Function,
    pub cancel: Function,
    pub done: Function,
    pub release: Function,
    pub is_cancel_error: Function,
}

/// The Lua part of the library.
pub open spec fn lib_source() -> Source {
    Source { code: LIB@, name: Some(LIB_CHUNK@) }
}

/// What the Lua part is given: the host functions and the value that
/// `task.CANCELLED` is.
pub open spec fn lib_args(host: HostFunctions, marker: Table) -> Seq<Value> {
    seq![
        function_as_value(host.spawn),
        function_as_value(host.join),
        function_as_value(host.cancel),
        function_as_value(host.done),
        function_as_value(host.release),
        function_as_value(host.is_cancel_error),
        table_as_value(marker),
    ]
}

/// The Lua part of the library, compiled, and what it is given.
pub fn lib_chunk(lua: &Lua, host: HostFunctions, marker: Table) -> (r: Result<
    (Function, MultiValue),
    mlua::Error,
>)
    ensures
        match r {
            Ok((chunk, args)) => {
                &&& lives(*lua, function_as_value(chunk))
                &&& compiles(lib_source(), Ok(chunk))
                &&& values_of(args) == lib_args(host, marker)
            },
            Err(e) => compiles(lib_source(), Err(error_tree(e))),
        },
{
    let mut args: Vec<Value> = Vec::new();
    args.push(lua::function_value(host.spawn));
    args.push(lua::function_value(host.join));
    args.push(lua::function_value(host.cancel));
    args.push(lua::function_value(host.done));
    args.push(lua::function_value(host.release));
    args.push(lua::function_value(host.is_cancel_error));
    args.push(lua::table_value(marker));
    assert(args@ == lib_args(host, marker));
    match lua::compile(lua, LIB, LIB_CHUNK) {
        Ok(chunk) => Ok((chunk, lua::from_values(args))),
        Err(e) => Err(e),
    }
}

/// `r` is the error of a Lua part that does not compile, or what the one
/// call in `made` came to: of the Lua part, with what it is given.
pub open spec fn is_created(
    host: HostFunctions,
    marker: Table,
    made: Seq<Call>,
    r: Result<Table, Fault>,
) -> bool {
    ||| {
        &&& made.len() == 0
        &&& r matches Err(Fault::Lua { error, traceback: None })
        &&& compiles(lib_source(), Err(error_tree(error)))
    }
    ||| {
        &&& made.len() == 1
        &&& was_called(lib_source(), lib_args(host, marker), made[0])
        &&& match r {
            Ok(t) => {
                &&& made[0].outcome matches Outcome::Returned(out)
                &&& out.len() > 0
                &&& out[0] == table_as_value(t)
            },
            Err(fault) => escaped(made[0].outcome, fault),
        }
    }
}

/// Create the `task` table: what the Lua part of the library returns.
pub fn create(lua: &Lua, host: HostFunctions, marker: Table, calls: &mut Calls) -> (r: Result<
    Table,
    Fault,
>)
    requires
        all_live(*lua, lib_args(host, marker)),
    ensures
        r matches Ok(t) ==> lives(*lua, table_as_value(t)),
        exists|made: Seq<Call>| #[trigger]
            were_made(old(calls).made(), made, final(calls).made()) && is_created(
                host,
                marker,
                made,
                r,
            ),
{
    let ghost start = calls.made();
    match lib_chunk(lua, host, marker) {
        Ok((chunk, args)) => {
            let answer: Result<Table, mlua::Error> = lua::call_for_table(lua, &chunk, args, calls);
            proof {
                lua::lemma_one_more(start, calls.made(), function_as_value(chunk), values_of(args));
            }
            match answer {
                Ok(t) => Ok(t),
                Err(e) => Err(Fault::lua(e)),
            }
        },
        Err(e) => {
            assert(were_made(start, Seq::empty(), calls.made()));
            Err(Fault::lua(e))
        },
    }
}

/// A number is given out once: a task that was taken out is not known
/// again, whatever is entered later.
pub proof fn law_numbers_are_not_reused<T>(before: Map<u64, T>, next: u64, gone: u64, task: T)
    requires
        forall|id: u64| #[trigger] before.contains_key(id) ==> id < next,
        gone < next,
    ensures
        !before.remove(gone).contains_key(gone),
        !before.remove(gone).insert(next, task).contains_key(gone),
{
}

/// A task that is entered is found under its number until it is taken out,
/// and no other task is touched; a number that is not in use is unknown.
pub proof fn law_a_task_is_found_until_it_is_taken_out<T>(id: u64, task: T, other: u64)
    ensures
        forall|reg: Registry<T>, r: Result<&T, mlua::Error>| #[trigger]
            call_ensures(Registry::<T>::get, (&reg, id), r) ==> {
                &&& r is Ok <==> reg@.contains_key(id)
                &&& r matches Ok(t) ==> *t == reg@[id]
                &&& r matches Err(e) ==> error_tree(e) == ErrorTree::Runtime("unknown task"@)
            },
        forall|reg: &mut Registry<T>, n: u64| #[trigger]
            call_ensures(Registry::<T>::insert, (reg, task), n) ==> {
                &&& !reg@.contains_key(n)
                &&& final(reg)@.contains_key(n) && final(reg)@[n] == task
                &&& n < final(reg).next_id()
                &&& other != n ==> final(reg)@.contains_key(other) == reg@.contains_key(other)
                &&& other != n && reg@.contains_key(other) ==> final(reg)@[other] == reg@[other]
            },
        forall|reg: &mut Registry<T>, r: Option<T>| #[trigger]
            call_ensures(Registry::<T>::remove, (reg, id), r) ==> {
                &&& r is Some <==> reg@.contains_key(id)
                &&& r matches Some(t) ==> t == reg@[id]
                &&& !final(reg)@.contains_key(id)
                &&& final(reg).next_id() == reg.next_id()
                &&& other != id ==> final(reg)@.contains_key(other) == reg@.contains_key(other)
                &&& other != id && reg@.contains_key(other) ==> final(reg)@[other] == reg@[other]
            },
        forall|reg: Registry<T>| #[trigger]
            call_ensures(Registry::<T>::new, (), reg) ==> !reg@.contains_key(id),
{
}

/// A task whose body was dropped is cancelled, and so is one that failed
/// after its token was cancelled.  One that returned gives its values,
/// cancelled or not, and one that failed without a cancel gives them too; an
/// error that escaped the body is given behind `false`.
pub proof fn law_a_task_is_cancelled_only_by_a_cancel(
    values: MultiValue,
    error: mlua::Error,
    cancelled: bool,
)
    ensures
        forall|r: Option<MultiValue>| #[trigger]
            call_ensures(
                task_result,
                (Some(Ok::<MultiValue, mlua::Error>(values)), cancelled),
                r,
            ) ==> {
                &&& r is None <==> cancelled && values_of(values).len() > 0 && value_view(
                    values_of(values)[0],
                ) == ValueView::Boolean(false)
                &&& r matches Some(m) ==> values_of(m) == values_of(values)
            },
        forall|r: Option<MultiValue>| #[trigger]
            call_ensures(
                task_result,
                (Some(Err::<MultiValue, mlua::Error>(error)), cancelled),
                r,
            ) ==> {
                &&& r is None <==> cancelled
                &&& r matches Some(m) ==> {
                    &&& values_of(m).len() == 2
                    &&& value_view(values_of(m)[0]) == ValueView::Boolean(false)
                    &&& value_view(values_of(m)[1]) == ValueView::Error(error_tree(error))
                }
            },
        forall|r: Option<MultiValue>| #[trigger]
            call_ensures(
                task_result,
                (None::<Result<MultiValue, mlua::Error>>, cancelled),
                r,
            ) ==> r is None,
{
}

/// A join gives the task's own values, and `false` with the marker for a task
/// that was cancelled.
pub proof fn law_a_join_gives_the_result_or_the_marker(values: MultiValue, marker: Table)
    ensures
        forall|r: MultiValue| #[trigger]
            call_ensures(join_result, (Some(values), marker), r) ==> r == values,
        forall|r: MultiValue| #[trigger]
            call_ensures(join_result, (None::<MultiValue>, marker), r) ==> {
                &&& values_of(r).len() == 2
                &&& value_view(values_of(r)[0]) == ValueView::Boolean(false)
                &&& values_of(r)[1] == table_as_value(marker)
            },
{
}

/// Only a Rust error can carry the cancellation; a spawn outside a coroutine
/// says so.
pub proof fn law_only_a_rust_error_is_asked(value: Value)
    ensures
        forall|r: Option<mlua::Error>| #[trigger]
            call_ensures(raised_error, (&value,), r) ==> {
                &&& r is Some <==> value_view(value) is Error
                &&& r matches Some(e) ==> value_view(value) == ValueView::Error(error_tree(e))
            },
        forall|r: mlua::Error| #[trigger]
            call_ensures(not_in_a_scope, (), r) ==> error_tree(r) == ErrorTree::Runtime(
                "task.spawn: not inside a coroutine request or task (sync requests cannot spawn)"@,
            ),
{
}

/// The `task` table is what the Lua part of the library returns, called once
/// with the host functions and the marker, each in its place; where it does
/// not compile nothing is called, and where the call fails its error is
/// carried on.
pub proof fn law_the_task_table_is_made_of_the_host_functions(
    lua: Lua,
    host: HostFunctions,
    marker: Table,
)
    ensures
        forall|r: Result<(Function, MultiValue), mlua::Error>| #[trigger]
            call_ensures(lib_chunk, (&lua, host, marker), r) ==> {
                &&& r matches Ok((chunk, args)) ==> {
                    &&& compiles(
                        Source { code: LIB@, name: Some("=mlua_isle.tasks"@) },
                        Ok(chunk),
                    )
                    &&& values_of(args).len() == 7
                    &&& values_of(args)[0] == function_as_value(host.spawn)
                    &&& values_of(args)[1] == function_as_value(host.join)
                    &&& values_of(args)[2] == function_as_value(host.cancel)
                    &&& values_of(args)[3] == function_as_value(host.done)
                    &&& values_of(args)[4] == function_as_value(host.release)
                    &&& values_of(args)[5] == function_as_value(host.is_cancel_error)
                    &&& values_of(args)[6] == table_as_value(marker)
                }
                &&& r matches Err(e) ==> compiles(
                    Source { code: LIB@, name: Some("=mlua_isle.tasks"@) },
                    Err(error_tree(e)),
                )
            },
        forall|calls: &mut Calls, r: Result<Table, Fault>| #[trigger]
            call_ensures(create, (&lua, host, marker, calls), r) ==> {
                let before = calls.made();
                let after = final(calls).made();
                let n = before.len() as int;
                &&& after.len() == n || after.len() == n + 1
                &&& after.take(n) == before
                &&& after.len() == n ==> (r matches Err(Fault::Lua { error, traceback: None })
                    && compiles(
                    Source { code: LIB@, name: Some("=mlua_isle.tasks"@) },
                    Err(error_tree(error)),
                ))
                &&& after.len() == n + 1 ==> {
                    &&& after[n].args == seq![
                        function_as_value(host.spawn),
                        function_as_value(host.join),
                        function_as_value(host.cancel),
                        function_as_value(host.done),
                        function_as_value(host.release),
                        function_as_value(host.is_cancel_error),
                        table_as_value(marker),
                    ]
                    &&& r matches Ok(t) ==> (after[n].outcome matches Outcome::Returned(out)
                        && out.len() > 0 && out[0] == table_as_value(t))
                    &&& r matches Err(fault) ==> (after[n].outcome matches Outcome::Failed(tree)
                        && fault matches Fault::Lua { error, traceback: None } && error_tree(error)
                        == tree)
                }
            },
{
}

/// The registry takes tasks until every number was given out.
pub proof fn law_a_registry_is_full_without_numbers<T>()
    ensures
        forall|reg: Registry<T>, r: bool| #[trigger]
            call_ensures(Registry::<T>::is_full, (&reg,), r) ==> (r <==> reg.next_id() == u64::MAX),
{
}

} // verus!
