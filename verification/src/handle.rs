//! The life of a VM thread: how it starts, what its spawner and its
//! shutdown report, and what a request that cannot be sent reports.

use crate::error::{
    failure_of, lemma_reports, panic_message, plain, reports, IsleError, IsleErrorView,
    LuaErrorKind, LuaFailure, PanicPayload,
};
use crate::lua::{alike, error_tree, ErrorTree};
use vstd::prelude::*;

verus! {

/// How far the setup of a VM thread is.
pub enum Startup {
    /// Create the pieces to call Lua with, before anything else runs.
    Protect,
    /// Run the init closure.
    Init,
    /// Attach the VM.
    Attach,
    /// Build the thread's runtime, where it has one.
    Runtime,
    /// Serve requests.
    Serving,
    /// Report the error and end.
    Failed(IsleError),
}

impl Startup {
    /// What comes next, given how the present step went.
    pub fn advance(self, outcome: Result<(), IsleError>, with_runtime: bool) -> (r: Self)
        ensures
            match (self, outcome) {
                (Startup::Serving, _) => r is Serving,
                (Startup::Failed(_), _) => r == self,
                (_, Err(e)) => r == Startup::Failed(e),
                (Startup::Protect, Ok(())) => r is Init,
                (Startup::Init, Ok(())) => r is Attach,
                (Startup::Attach, Ok(())) => if with_runtime {
                    r is Runtime
                } else {
                    r is Serving
                },
                (Startup::Runtime, Ok(())) => r is Serving,
            },
            stage_of(r) == stage_step(stage_of(self), outcome is Ok, with_runtime),
    {
        match (self, outcome) {
            (Startup::Serving, _) => Startup::Serving,
            (Startup::Failed(e), _) => Startup::Failed(e),
            (_, Err(e)) => Startup::Failed(e),
            (Startup::Protect, Ok(())) => Startup::Init,
            (Startup::Init, Ok(())) => Startup::Attach,
            (Startup::Attach, Ok(())) => if with_runtime {
                Startup::Runtime
            } else {
                Startup::Serving
            },
            (Startup::Runtime, Ok(())) => Startup::Serving,
        }
    }
}

/// The error of an init closure.
pub fn init_error(e: &mlua::Error) -> (r: IsleError)
    ensures
        exists|tree: ErrorTree| #[trigger]
            alike(tree, error_tree(*e)) && r@ == IsleErrorView::Init(failure_of(tree)),
{
    IsleError::Init(LuaFailure::from_mlua(e))
}

/// The error when the operating system refuses the thread, or the thread's
/// runtime cannot be built.
pub fn setup_error(message: String) -> (r: IsleError)
    ensures
        r@ == IsleErrorView::Init(plain(LuaErrorKind::External, message@)),
{
    IsleError::Init(LuaFailure::new(LuaErrorKind::External, message))
}

/// The message of what a thread panicked with.
pub open spec fn payload_text(p: PanicPayload) -> Option<Seq<char>> {
    match p {
        PanicPayload::Str(s) => Some(s@),
        PanicPayload::Text(s) => Some(s@),
        PanicPayload::Other => None,
    }
}

/// What spawning a VM reports: what the thread reported, or, when it ended
/// without a report, that it panicked.
pub fn spawn_outcome(report: Option<Result<(), IsleError>>, panic: Option<PanicPayload>) -> (r:
    Result<(), IsleError>)
    ensures
        match report {
            Some(result) => r == result,
            None => r matches Err(e) && e@ == IsleErrorView::ThreadPanic(
                match panic {
                    Some(p) => payload_text(p),
                    None => None,
                },
            ),
        },
{
    match report {
        Some(result) => result,
        None => Err(
            IsleError::ThreadPanic(
                match &panic {
                    Some(p) => panic_message(p),
                    None => None,
                },
            ),
        ),
    }
}

/// How joining a VM thread went.
pub enum Join {
    /// The lock of the join handle is poisoned.
    Poisoned,
    /// It was joined before.
    Gone,
    /// The thread ended.
    Ended,
    /// The thread panicked.
    Panicked(PanicPayload),
}

/// A shutdown that joined the thread like this succeeded.
pub open spec fn shut_down(join: Join) -> bool {
    join is Ended || join is Gone
}

/// What a shutdown reports.
pub fn shutdown_outcome(join: Join) -> (r: Result<(), IsleError>)
    ensures
        r is Ok == shut_down(join),
        match join {
            Join::Poisoned => r matches Err(e) && e@ == IsleErrorView::ThreadPanic(None),
            Join::Gone => r is Ok,
            Join::Ended => r is Ok,
            Join::Panicked(p) => r matches Err(e) && e@ == IsleErrorView::ThreadPanic(
                payload_text(p),
            ),
        },
{
    match join {
        Join::Poisoned => Err(IsleError::ThreadPanic(None)),
        Join::Gone => Ok(()),
        Join::Ended => Ok(()),
        Join::Panicked(p) => Err(IsleError::ThreadPanic(panic_message(&p))),
    }
}

/// A thread that is there and has not finished is alive.
pub open spec fn alive(finished: Option<bool>) -> bool {
    finished == Some(false)
}

/// Whether a VM thread is alive, given whether it has finished, as its join
/// handle or its channel tells (`None`: there is no join handle, or its lock
/// is poisoned).
pub fn is_alive(finished: Option<bool>) -> (r: bool)
    ensures
        r == alive(finished),
{
    match finished {
        Some(f) => !f,
        None => false,
    }
}

/// Why a request could not be sent.
#[derive(Clone, Copy, Debug, PartialEq, Eq, Structural)]
pub enum Refusal {
    /// The bounded channel has no capacity left.
    Full,
    /// The VM thread has ended.
    Closed,
}

/// The error that a request which could not be sent reports.
pub open spec fn refused_as(refusal: Refusal) -> IsleErrorView {
    match refusal {
        Refusal::Full => IsleErrorView::ChannelFull,
        Refusal::Closed => IsleErrorView::Shutdown,
    }
}

/// The error of a request that could not be sent: a full channel is
/// transient, a closed one permanent.
pub fn try_send_to_isle_error(refusal: Refusal) -> (r: IsleError)
    ensures
        r@ == refused_as(refusal),
{
    match refusal {
        Refusal::Full => IsleError::ChannelFull,
        Refusal::Closed => IsleError::Shutdown,
    }
}

/// What the VM thread received.
pub enum Received<J> {
    /// A request.
    Run(J),
    /// The signal to end.
    Shutdown,
    /// Every handle is gone.
    Disconnected,
}

/// The request in what was received, if it is one.
pub open spec fn request_in<J>(received: Received<J>) -> Option<J> {
    match received {
        Received::Run(job) => Some(job),
        _ => None,
    }
}

/// The request to run next; `None` ends the VM thread's loop.
pub fn next_request<J>(received: Received<J>) -> (r: Option<J>)
    ensures
        r == request_in(received),
{
    match received {
        Received::Run(job) => Some(job),
        Received::Shutdown => None,
        Received::Disconnected => None,
    }
}

/// One round of the VM thread's loop: run the request that was received.
/// Returns whether the loop goes on.
pub fn serve<J, X: FnOnce(J)>(received: Received<J>, run: X) -> (goes_on: bool)
    requires
        request_in(received) matches Some(job) ==> call_requires(run, (job,)),
    ensures
        goes_on == (request_in(received) is Some),
        request_in(received) matches Some(job) ==> call_ensures(run, (job,), ()),
{
    match next_request(received) {
        Some(job) => {
            run(job);
            true
        },
        None => false,
    }
}

/// `send` was handed what `run` returned.
pub open spec fn was_answered<T, X: FnOnce() -> T, S: FnOnce(T) -> bool>(run: X, send: S) -> bool {
    exists|result: T, listening: bool| #[trigger]
        call_ensures(send, (result,), listening) && call_ensures(run, (), result)
}

/// Run a request and send what came of it, an error too, to whoever asked
/// for it.  It does not matter whether anyone still listens.
pub fn answer<T, X: FnOnce() -> T, S: FnOnce(T) -> bool>(run: X, send: S)
    requires
        call_requires(run, ()),
        forall|result: T| #[trigger] call_requires(send, (result,)),
    ensures
        was_answered(run, send),
{
    let result: T = run();
    let _listening: bool = send(result);
}

/// The requests that a loop runs, in order, when it receives `messages`: it
/// goes on as long as [`serve`] says so.
pub open spec fn served<J>(messages: Seq<Received<J>>) -> Seq<J>
    decreases messages.len(),
{
    if messages.len() == 0 {
        Seq::empty()
    } else {
        match request_in(messages[0]) {
            Some(job) => seq![job] + served(messages.skip(1)),
            None => Seq::empty(),
        }
    }
}

/// Every request that comes before the signal to end is run exactly once, in
/// the order of arrival; none that comes after it is run.
pub proof fn law_requests_run_once_in_order<J>(messages: Seq<Received<J>>, end: int)
    requires
        0 <= end <= messages.len(),
        forall|i: int| 0 <= i < end ==> (#[trigger] messages[i]) is Run,
        end < messages.len() ==> !(messages[end] is Run),
    ensures
        served(messages).len() == end,
        forall|i: int| 0 <= i < end ==> #[trigger] served(messages)[i] == messages[i]->Run_0,
    decreases messages.len(),
{
    if end > 0 {
        let rest = messages.skip(1);
        assert forall|i: int| 0 <= i < end - 1 implies (#[trigger] rest[i]) is Run by {
            assert(messages[i + 1] is Run);
        }
        assert(messages[0] is Run);
        law_requests_run_once_in_order(rest, end - 1);
        assert forall|i: int| 0 <= i < end implies #[trigger] served(messages)[i]
            == messages[i]->Run_0 by {
            if i > 0 {
                assert(served(messages)[i] == served(rest)[i - 1]);
                assert(rest[i - 1] == messages[i]);
            }
        }
    }
}

/// Once the signal to end was received, nothing more is run, whatever
/// `later` messages there are.
pub proof fn law_shutdown_ends_the_service<J>(
    messages: Seq<Received<J>>,
    later: Seq<Received<J>>,
)
    requires
        messages.len() > 0,
        messages.last() is Shutdown,
    ensures
        served(messages + later) == served(messages),
    decreases messages.len(),
{
    assert((messages + later)[0] == messages[0]);
    if messages.len() > 1 {
        let rest = messages.skip(1);
        assert(rest.last() == messages.last());
        assert((messages + later).skip(1) == rest + later);
        law_shutdown_ends_the_service(rest, later);
    }
}

/// A VM thread and the channel to it.
pub struct Service<J> {
    /// What was sent and not received yet, oldest first.
    pub queue: Seq<Received<J>>,
    /// The requests that were run, in order.
    pub ran: Seq<J>,
    /// The loop has ended, and the receiving end of the channel, which it
    /// owns, is gone.
    pub ended: bool,
    /// The thread was joined.
    pub joined: bool,
}

/// One thing that happens to a VM thread.
pub enum ServiceOp<J> {
    /// A handle sends a message, which the channel takes or refuses.
    Sent { message: Received<J>, refusal: Option<Refusal> },
    /// The loop receives a message and [`serve`]s it.
    Served(Received<J>),
    /// A request panics.
    Panicked,
    /// The thread is joined.
    Joined(Join),
}

/// `after` is what `op` makes of `before`.
///
/// Of the channel this says what its documentation does: it hands messages
/// over in the order in which they were sent, and refuses them as closed
/// once the receiving end is gone, and only then.
pub open spec fn proceeds<J>(before: Service<J>, op: ServiceOp<J>, after: Service<J>) -> bool {
    match op {
        ServiceOp::Sent { message, refusal } => {
            &&& refusal == Some(Refusal::Closed) <==> before.ended
            &&& after == match refusal {
                Some(_) => before,
                None => Service { queue: before.queue.push(message), ..before },
            }
        },
        ServiceOp::Served(received) => {
            &&& !before.ended
            &&& if before.queue.len() > 0 {
                received == before.queue[0]
            } else {
                received is Disconnected
            }
            &&& after == match request_in(received) {
                Some(job) => Service {
                    queue: before.queue.skip(1),
                    ran: before.ran.push(job),
                    ..before
                },
                None => Service { ended: true, queue: Seq::empty(), ..before },
            }
        },
        ServiceOp::Panicked => after == (Service { ended: true, queue: Seq::empty(), ..before }),
        ServiceOp::Joined(join) => match join {
            Join::Poisoned => after == before,
            Join::Gone => before.joined && after == before,
            _ => before.ended && after == (Service { joined: true, ..before }),
        },
    }
}

/// A thread that serves, and has served nothing yet.
pub open spec fn fresh<J>(s: Service<J>) -> bool {
    s.queue.len() == 0 && s.ran.len() == 0 && !s.ended && !s.joined
}

proof fn lemma_ended_stays<J>(states: Seq<Service<J>>, ops: Seq<ServiceOp<J>>, k: int, i: int)
    requires
        states.len() == ops.len() + 1,
        forall|n: int| 0 <= n < ops.len() ==> proceeds(states[n], #[trigger] ops[n], states[n + 1]),
        0 <= k <= i < states.len(),
    ensures
        states[k].ended ==> states[i].ended && states[i].ran == states[k].ran,
    decreases i - k,
{
    if k < i {
        lemma_ended_stays(states, ops, k, i - 1);
        assert(proceeds(states[i - 1], ops[i - 1], states[i]));
    }
}

proof fn lemma_joined_has_ended<J>(states: Seq<Service<J>>, ops: Seq<ServiceOp<J>>, i: int)
    requires
        states.len() == ops.len() + 1,
        fresh(states[0]),
        forall|n: int| 0 <= n < ops.len() ==> proceeds(states[n], #[trigger] ops[n], states[n + 1]),
        0 <= i < states.len(),
    ensures
        states[i].joined ==> states[i].ended,
    decreases i,
{
    if i > 0 {
        lemma_joined_has_ended(states, ops, i - 1);
        assert(proceeds(states[i - 1], ops[i - 1], states[i]));
    }
}

/// After a shutdown that succeeded, no handle finds the thread alive, every
/// later request is refused with the shutdown error, and nothing more is
/// run.
pub proof fn law_nothing_runs_after_a_shutdown<J>(
    states: Seq<Service<J>>,
    ops: Seq<ServiceOp<J>>,
    shutdown: int,
    later: int,
)
    requires
        states.len() == ops.len() + 1,
        fresh(states[0]),
        forall|n: int| 0 <= n < ops.len() ==> proceeds(states[n], #[trigger] ops[n], states[n + 1]),
        0 <= shutdown < later <= ops.len(),
        ops[shutdown] matches ServiceOp::Joined(join) && shut_down(join),
    ensures
        !alive(Some(states[later].ended)),
        states[later].ran == states[shutdown].ran,
        later < ops.len() ==> (ops[later] matches ServiceOp::Sent { refusal, .. } ==> {
            &&& refusal matches Some(why)
            &&& refused_as(why) == IsleErrorView::Shutdown
            &&& states[later + 1] == states[later]
        }),
{
    assert(proceeds(states[shutdown], ops[shutdown], states[shutdown + 1]));
    lemma_joined_has_ended(states, ops, shutdown);
    lemma_ended_stays(states, ops, shutdown, later);
    if later < ops.len() {
        assert(proceeds(states[later], ops[later], states[later + 1]));
    }
}

/// How far the setup is after `outcomes`, one per step.
pub open spec fn stage_after(outcomes: Seq<bool>, with_runtime: bool) -> nat
    decreases outcomes.len(),
{
    if outcomes.len() == 0 {
        0
    } else {
        let before = stage_after(outcomes.drop_last(), with_runtime);
        stage_step(before, outcomes.last(), with_runtime)
    }
}

/// The steps of the setup as numbers: creating the pieces, the init
/// closure, attaching, the runtime, serving, failed.
pub open spec fn stage_step(stage: nat, ok: bool, with_runtime: bool) -> nat {
    if stage >= 4 {
        stage
    } else if !ok {
        5
    } else if stage == 2 && !with_runtime {
        4
    } else {
        stage + 1
    }
}

/// The number of a step.
pub open spec fn stage_of(s: Startup) -> nat {
    match s {
        Startup::Protect => 0,
        Startup::Init => 1,
        Startup::Attach => 2,
        Startup::Runtime => 3,
        Startup::Serving => 4,
        Startup::Failed(_) => 5,
    }
}

/// Requests are served only after every step of the setup went well.
pub proof fn law_serving_needs_every_step(outcomes: Seq<bool>, with_runtime: bool)
    ensures
        stage_after(outcomes, with_runtime) == 4 ==> outcomes.len() >= if with_runtime {
            4int
        } else {
            3int
        } && forall|i: int|
            0 <= i < (if with_runtime {
                4int
            } else {
                3int
            }) ==> outcomes[i],
        stage_after(outcomes, with_runtime) < 4 ==> outcomes.len() == stage_after(
            outcomes,
            with_runtime,
        ) && forall|i: int| 0 <= i < outcomes.len() ==> outcomes[i],
        stage_after(outcomes, with_runtime) <= 5,
        !with_runtime ==> stage_after(outcomes, with_runtime) != 3,
    decreases outcomes.len(),
{
    if outcomes.len() > 0 {
        law_serving_needs_every_step(outcomes.drop_last(), with_runtime);
        let front = outcomes.drop_last();
        assert forall|i: int| 0 <= i < front.len() implies outcomes[i] == #[trigger] front[i] by {}
        assert forall|i: int| 0 <= i < front.len() implies #[trigger] outcomes[i] == front[i] by {}
    }
}

/// A setup goes through its steps in order, and only ever forward: the
/// pieces, the init closure, attaching, the runtime where there is one, and
/// then it serves.  A step that fails ends it with that step's error, and
/// what has ended or serves stays as it is, whatever is reported to it.
pub proof fn law_a_setup_goes_step_by_step(
    with_runtime: bool,
    ok: Result<(), IsleError>,
    e: IsleError,
)
    requires
        ok is Ok,
    ensures
        forall|r: Startup| #[trigger]
            call_ensures(Startup::advance, (Startup::Protect, ok, with_runtime), r) ==> r is Init,
        forall|r: Startup| #[trigger]
            call_ensures(Startup::advance, (Startup::Init, ok, with_runtime), r) ==> r is Attach,
        forall|r: Startup| #[trigger]
            call_ensures(Startup::advance, (Startup::Attach, ok, with_runtime), r) ==> {
                &&& with_runtime ==> r is Runtime
                &&& !with_runtime ==> r is Serving
            },
        forall|r: Startup| #[trigger]
            call_ensures(Startup::advance, (Startup::Runtime, ok, with_runtime), r) ==> r is Serving,
        forall|s: Startup, r: Startup| #[trigger]
            call_ensures(Startup::advance, (s, Err::<(), IsleError>(e), with_runtime), r) && !(
            s is Serving) && !(s is Failed) ==> r == Startup::Failed(e),
        forall|s: Startup, outcome: Result<(), IsleError>, r: Startup| #[trigger]
            call_ensures(Startup::advance, (s, outcome, with_runtime), r) && (s is Serving
                || s is Failed) ==> r == s,
{
}

/// A setup whose steps all go well serves after as many steps as there are,
/// and not before; one with a step that fails reports the error of the first
/// that does, however many steps are reported after it.
pub proof fn law_a_setup_reports_the_first_error(
    states: Seq<Startup>,
    outcomes: Seq<Result<(), IsleError>>,
    with_runtime: bool,
    k: int,
)
    requires
        states.len() == outcomes.len() + 1,
        states[0] is Protect,
        forall|i: int|
            0 <= i < outcomes.len() ==> call_ensures(
                Startup::advance,
                (states[i], #[trigger] outcomes[i], with_runtime),
                states[i + 1],
            ),
        0 <= k < states.len(),
        forall|i: int| 0 <= i < k ==> (#[trigger] outcomes[i]) is Ok,
    ensures
        states[k] is Serving <==> k >= if with_runtime {
            4int
        } else {
            3int
        },
        !(states[k] is Failed),
        k < outcomes.len() && k < (if with_runtime {
            4int
        } else {
            3int
        }) && outcomes[k] is Err ==> forall|i: int|
            k < i < states.len() ==> #[trigger] states[i] == Startup::Failed(outcomes[k]->Err_0),
    decreases k,
{
    if k > 0 {
        law_a_setup_reports_the_first_error(states, outcomes, with_runtime, k - 1);
        assert(call_ensures(
            Startup::advance,
            (states[k - 1], outcomes[k - 1], with_runtime),
            states[k],
        ));
        lemma_next_step(states, outcomes, with_runtime, k);
    }
    if k < outcomes.len() && k < (if with_runtime {
        4int
    } else {
        3int
    }) && outcomes[k] is Err {
        assert(call_ensures(
            Startup::advance,
            (states[k], outcomes[k], with_runtime),
            states[k + 1],
        ));
        assert forall|i: int| k < i < states.len() implies #[trigger] states[i] == Startup::Failed(
            outcomes[k]->Err_0,
        ) by {
            lemma_failed_stays(states, outcomes, with_runtime, k + 1, i);
        }
    }
}

proof fn lemma_next_step(
    states: Seq<Startup>,
    outcomes: Seq<Result<(), IsleError>>,
    with_runtime: bool,
    k: int,
)
    requires
        states.len() == outcomes.len() + 1,
        states[0] is Protect,
        forall|i: int|
            0 <= i < outcomes.len() ==> call_ensures(
                Startup::advance,
                (states[i], #[trigger] outcomes[i], with_runtime),
                states[i + 1],
            ),
        0 <= k < states.len(),
        forall|i: int| 0 <= i < k ==> (#[trigger] outcomes[i]) is Ok,
    ensures
        states[k] is Protect <==> k == 0,
        states[k] is Init <==> k == 1,
        states[k] is Attach <==> k == 2,
        states[k] is Runtime <==> k == 3 && with_runtime,
        !(states[k] is Failed),
    decreases k,
{
    if k > 0 {
        lemma_next_step(states, outcomes, with_runtime, k - 1);
        assert(call_ensures(
            Startup::advance,
            (states[k - 1], outcomes[k - 1], with_runtime),
            states[k],
        ));
    }
}

proof fn lemma_failed_stays(
    states: Seq<Startup>,
    outcomes: Seq<Result<(), IsleError>>,
    with_runtime: bool,
    k: int,
    i: int,
)
    requires
        states.len() == outcomes.len() + 1,
        forall|i: int|
            0 <= i < outcomes.len() ==> call_ensures(
                Startup::advance,
                (states[i], #[trigger] outcomes[i], with_runtime),
                states[i + 1],
            ),
        0 <= k <= i < states.len(),
        states[k] is Failed,
    ensures
        states[i] == states[k],
    decreases i - k,
{
    if k < i {
        lemma_failed_stays(states, outcomes, with_runtime, k, i - 1);
        assert(call_ensures(
            Startup::advance,
            (states[i - 1], outcomes[i - 1], with_runtime),
            states[i],
        ));
    }
}

/// An init closure's error is a failure of the setup, reported by what it is
/// made of; a thread or runtime that cannot be had is one of kind External
/// with the given message.
pub proof fn law_a_setup_failure_is_an_init_error(e: mlua::Error, message: String)
    ensures
        forall|r: IsleError| #[trigger]
            call_ensures(init_error, (&e,), r) ==> (r@ matches IsleErrorView::Init(f) && reports(
                error_tree(e),
                f,
            )),
        forall|r: IsleError| #[trigger]
            call_ensures(setup_error, (message,), r) ==> (r@ matches IsleErrorView::Init(f) && {
                &&& f.kind == LuaErrorKind::External
                &&& f.message == message@
                &&& f.traceback is None && f.value is None
            }),
{
    assert forall|tree: ErrorTree| #[trigger] alike(tree, error_tree(e)) implies reports(
        error_tree(e),
        failure_of(tree),
    ) by {
        lemma_reports(tree, error_tree(e));
    }
}

/// Spawning gives what the thread reported, and a panic with the message of
/// its payload when the thread ended without a report.
pub proof fn law_a_spawn_gives_the_report(
    report: Option<Result<(), IsleError>>,
    panic: Option<PanicPayload>,
)
    ensures
        forall|r: Result<(), IsleError>| #[trigger]
            call_ensures(spawn_outcome, (report, panic), r) ==> {
                &&& report matches Some(given) ==> r == given
                &&& report is None ==> (r matches Err(e) && e@ matches IsleErrorView::ThreadPanic(m)
                    && m == match panic {
                    Some(PanicPayload::Str(s)) => Some(s@),
                    Some(PanicPayload::Text(s)) => Some(s@),
                    _ => None,
                })
            },
{
}

/// A shutdown succeeds exactly if the thread ended or was joined before; else
/// it reports the panic, with the message of its payload.
pub proof fn law_a_shutdown_reports_a_panic(join: Join)
    ensures
        forall|r: Result<(), IsleError>| #[trigger]
            call_ensures(shutdown_outcome, (join,), r) ==> {
                &&& r is Ok <==> join is Ended || join is Gone
                &&& r matches Err(e) ==> (e@ matches IsleErrorView::ThreadPanic(m) && m
                    == match join {
                    Join::Panicked(PanicPayload::Str(s)) => Some(s@),
                    Join::Panicked(PanicPayload::Text(s)) => Some(s@),
                    _ => None,
                })
            },
{
}

/// A thread is alive exactly if it is known not to have finished.
pub proof fn law_only_an_unfinished_thread_is_alive(finished: Option<bool>)
    ensures
        forall|r: bool| #[trigger]
            call_ensures(is_alive, (finished,), r) ==> (r <==> finished is Some && !finished->0),
{
}

/// A full channel is told from one whose thread has ended.
pub proof fn law_a_full_channel_is_not_a_shutdown()
    ensures
        forall|r: IsleError| #[trigger]
            call_ensures(try_send_to_isle_error, (Refusal::Full,), r) ==> r is ChannelFull,
        forall|r: IsleError| #[trigger]
            call_ensures(try_send_to_isle_error, (Refusal::Closed,), r) ==> r is Shutdown,
{
}

/// A request that is received is run, and the loop goes on; anything else
/// runs nothing and ends it.
pub proof fn law_a_received_request_is_run<J, X: FnOnce(J)>(received: Received<J>, run: X)
    ensures
        forall|r: Option<J>| #[trigger]
            call_ensures(next_request::<J>, (received,), r) ==> {
                &&& r is Some <==> received is Run
                &&& received matches Received::Run(job) ==> r == Some(job)
            },
        forall|goes_on: bool| #[trigger]
            call_ensures(serve::<J, X>, (received, run), goes_on) ==> {
                &&& goes_on <==> received is Run
                &&& received matches Received::Run(job) ==> call_ensures(run, (job,), ())
            },
{
}

/// What a request came to is what is sent.
pub proof fn law_a_request_is_answered_with_its_result<T, X: FnOnce() -> T, S: FnOnce(T) -> bool>(
    run: X,
    send: S,
)
    ensures
        forall|r: ()| #[trigger]
            call_ensures(answer::<T, X, S>, (run, send), r) ==> exists|result: T, listening: bool|
                #[trigger] call_ensures(send, (result,), listening) && call_ensures(
                    run,
                    (),
                    result,
                ),
{
}

} // verus!
