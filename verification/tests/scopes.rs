//! Scopes: how long tasks live, and how a scope ends.

use mlua_isle::hook::TokenTree;
use mlua_isle::scope::{
    Phase, Run, RunAction, RunEvent, ScopeHandle, ScopeTree, ScopedTask, Spawned,
};
use mlua_isle::{CancelToken, IsleError};

const MS: u128 = 1_000_000;

struct Thread {
    tokens: TokenTree,
    scopes: ScopeTree,
}

impl Thread {
    fn new() -> Thread {
        Thread {
            tokens: TokenTree::new(),
            scopes: ScopeTree::new(),
        }
    }

    fn root(&mut self, grace: u128) -> (u64, CancelToken) {
        let token = CancelToken::new(&mut self.tokens);
        (self.scopes.open_root(token, grace), token)
    }

    fn spawn(&mut self, owner: u64, grace: u128, now: u128) -> (u64, CancelToken) {
        match self.scopes.spawn(owner, grace, now, &mut self.tokens) {
            Spawned::Started { task, token } => (task, token),
            Spawned::Refused { .. } => panic!("refused"),
        }
    }

    fn step(&mut self, run: &mut Run, event: RunEvent, now: u128) -> RunAction {
        run.step(event, now, &mut self.scopes, &mut self.tokens)
    }

    fn handle(&self, scope: u64) -> ScopeHandle {
        ScopeHandle::new(scope, &self.scopes)
    }

    fn spawn_local(&mut self, handle: ScopeHandle, now: u128) -> ScopedTask {
        handle.spawn_local(now, &mut self.scopes, &mut self.tokens)
    }

    /// The task that a run waits for finishes, and nothing else.
    fn finish(&mut self, task: u64, now: u128) {
        let mut run = Run::new(task);
        let done = self.step(&mut run, RunEvent::BodyDone, now);
        assert_eq!(done, RunAction::Resolve { finished: true });
        self.scopes.finish(task);
    }
}

#[test]
fn cancelling_vm_run_waits_for_a_host_task_to_drop() {
    let mut t = Thread::new();
    let (root, token) = t.root(0);
    let (task, task_token) = t.spawn(root, 0, 0);
    let mut run = Run::new(root);
    token.cancel(&mut t.tokens);
    assert!(task_token.is_cancelled(&t.tokens));
    let now = 5 * MS;
    assert_eq!(
        t.step(&mut run, RunEvent::CancelSeen, now),
        RunAction::RaceUntil(now)
    );
    assert_eq!(
        t.step(&mut run, RunEvent::TimeUp, now),
        RunAction::WaitFor(task)
    );
    // Still waiting while the task has not dropped.
    assert_eq!(
        t.step(&mut run, RunEvent::TaskDone, now),
        RunAction::WaitFor(task)
    );
    t.finish(task, now);
    assert_eq!(
        t.step(&mut run, RunEvent::TaskDone, now),
        RunAction::Resolve { finished: false }
    );
    assert_eq!(t.scopes.scope(root).phase, Phase::Closed);
}

#[test]
fn a_host_task_spawned_from_a_host_task_is_waited_for_too() {
    let mut t = Thread::new();
    let (root, token) = t.root(0);
    let (outer, outer_token) = t.spawn(root, 0, 0);
    let (inner, inner_token) = t.spawn(outer, 0, 0);
    token.cancel(&mut t.tokens);
    assert!(outer_token.is_cancelled(&t.tokens));
    assert!(inner_token.is_cancelled(&t.tokens));
    let mut outer_run = Run::new(outer);
    assert_eq!(
        t.step(&mut outer_run, RunEvent::CancelSeen, 1),
        RunAction::RaceUntil(1)
    );
    assert_eq!(
        t.step(&mut outer_run, RunEvent::TimeUp, 1),
        RunAction::WaitFor(inner)
    );
    let mut run = Run::new(root);
    assert_eq!(
        t.step(&mut run, RunEvent::BodyDone, 1),
        RunAction::WaitFor(outer)
    );
    t.finish(inner, 1);
    assert_eq!(
        t.step(&mut outer_run, RunEvent::TaskDone, 1),
        RunAction::Resolve { finished: false }
    );
    t.scopes.finish(outer);
    assert_eq!(
        t.step(&mut run, RunEvent::TaskDone, 1),
        RunAction::Resolve { finished: true }
    );
}

#[test]
fn an_unjoined_host_task_is_cancelled_and_waited_for_when_the_request_ends() {
    let mut t = Thread::new();
    let (root, token) = t.root(0);
    let handle = t.handle(root);
    let task = t.spawn_local(handle, 0);
    let mut run = Run::new(root);
    assert_eq!(
        t.step(&mut run, RunEvent::BodyDone, 3),
        RunAction::WaitFor(root + 1)
    );
    assert!(!token.is_cancelled(&t.tokens));
    assert_eq!(t.scopes.scope(root).phase, Phase::Draining);
    let mut task_run = Run::new(root + 1);
    assert_eq!(
        t.step(&mut task_run, RunEvent::CancelSeen, 3),
        RunAction::RaceUntil(3)
    );
    assert_eq!(
        t.step(&mut task_run, RunEvent::TimeUp, 3),
        RunAction::Resolve { finished: false }
    );
    t.scopes.finish(root + 1);
    assert_eq!(
        t.step(&mut run, RunEvent::TaskDone, 3),
        RunAction::Resolve { finished: true }
    );
    assert!(matches!(
        task.poll::<()>(&t.scopes, None),
        Some(Err(IsleError::Cancelled))
    ));
    task.let_go(&t.scopes, &mut t.tokens);
}

#[test]
fn an_awaited_scoped_task_yields_its_value() {
    let mut t = Thread::new();
    let (root, _) = t.root(0);
    let handle = t.handle(root);
    let task = t.spawn_local(handle, 0);
    assert!(!task.is_done(&t.scopes));
    assert!(task.poll::<i64>(&t.scopes, None).is_none());
    t.finish(root + 1, 0);
    assert!(matches!(task.poll(&t.scopes, Some(42)), Some(Ok(42))));
    task.let_go(&t.scopes, &mut t.tokens);
}

#[test]
fn dropping_a_scoped_task_cancels_it_and_the_request_still_waits() {
    let mut t = Thread::new();
    let (root, token) = t.root(50 * MS);
    let handle = t.handle(root);
    let task = t.spawn_local(handle, 0);
    let task_token = t.scopes.scope(root + 1).token;
    task.let_go(&t.scopes, &mut t.tokens);
    assert!(task_token.is_cancelled(&t.tokens));
    assert!(!token.is_cancelled(&t.tokens));
    let mut run = Run::new(root);
    assert_eq!(
        t.step(&mut run, RunEvent::BodyDone, 30 * MS),
        RunAction::WaitFor(root + 1)
    );
}

#[test]
fn a_detached_host_task_runs_on_and_is_still_cancelled_and_waited_for() {
    let mut t = Thread::new();
    let (root, token) = t.root(0);
    let handle = t.handle(root);
    let mut task = t.spawn_local(handle, 0);
    let task_token = t.scopes.scope(root + 1).token;
    task.detach();
    task.let_go(&t.scopes, &mut t.tokens);
    assert!(!task_token.is_cancelled(&t.tokens));
    token.cancel(&mut t.tokens);
    assert!(task_token.is_cancelled(&t.tokens));
    let mut run = Run::new(root);
    t.step(&mut run, RunEvent::CancelSeen, 1);
    assert_eq!(
        t.step(&mut run, RunEvent::TimeUp, 1),
        RunAction::WaitFor(root + 1)
    );
}

#[test]
fn a_host_task_spawned_while_its_scope_drains_is_cancelled_and_waited_for() {
    let mut t = Thread::new();
    let (root, _) = t.root(200 * MS);
    let (first, _) = t.spawn(root, 200 * MS, 0);
    let mut run = Run::new(root);
    assert_eq!(
        t.step(&mut run, RunEvent::BodyDone, 0),
        RunAction::WaitFor(first)
    );
    let (late, late_token) = t.spawn(root, 200 * MS, 100 * MS);
    assert!(late_token.is_cancelled(&t.tokens));
    t.finish(first, 100 * MS);
    assert_eq!(
        t.step(&mut run, RunEvent::TaskDone, 100 * MS),
        RunAction::WaitFor(late)
    );
    t.finish(late, 100 * MS);
    assert_eq!(
        t.step(&mut run, RunEvent::TaskDone, 100 * MS),
        RunAction::Resolve { finished: true }
    );
}

#[test]
fn spawning_through_a_handle_after_its_request_ended_starts_nothing() {
    let mut t = Thread::new();
    let (root, _) = t.root(0);
    let handle = t.handle(root);
    t.finish(root, 0);
    let task = t.spawn_local(handle, 0);
    assert!(task.is_done(&t.scopes));
    assert!(matches!(
        task.poll::<()>(&t.scopes, None),
        Some(Err(IsleError::Cancelled))
    ));
    task.let_go(&t.scopes, &mut t.tokens);
}

#[test]
fn a_host_task_spawned_during_cleanup_gets_the_remaining_grace() {
    let mut t = Thread::new();
    let (root, token) = t.root(1000 * MS);
    let cancelled_at = 50 * MS;
    token.cancel(&mut t.tokens);
    let mut run = Run::new(root);
    let deadline = cancelled_at + 1000 * MS;
    assert_eq!(
        t.step(&mut run, RunEvent::CancelSeen, cancelled_at),
        RunAction::RaceUntil(deadline)
    );
    // Spawned 600 ms into the cleanup: one deadline, not a fresh grace.
    let later = cancelled_at + 600 * MS;
    let (task, _) = t.spawn(root, 1000 * MS, later);
    let mut task_run = Run::new(task);
    assert_eq!(
        t.step(&mut task_run, RunEvent::CancelSeen, later),
        RunAction::RaceUntil(deadline)
    );
    // A grandchild shares it too, and a shorter grace stays shorter.
    let (inner, _) = t.spawn(task, 100 * MS, later);
    let mut inner_run = Run::new(inner);
    assert_eq!(
        t.step(&mut inner_run, RunEvent::CancelSeen, later),
        RunAction::RaceUntil(later + 100 * MS)
    );
}

#[test]
fn tasks_spawned_into_a_draining_scope_share_its_remaining_time() {
    let mut t = Thread::new();
    let (root, _) = t.root(300 * MS);
    let (first, _) = t.spawn(root, 300 * MS, 0);
    let mut run = Run::new(root);
    assert_eq!(
        t.step(&mut run, RunEvent::BodyDone, 0),
        RunAction::WaitFor(first)
    );
    let (second, _) = t.spawn(root, 300 * MS, 150 * MS);
    let mut second_run = Run::new(second);
    assert_eq!(
        t.step(&mut second_run, RunEvent::CancelSeen, 150 * MS),
        RunAction::RaceUntil(300 * MS)
    );
    assert!(matches!(
        t.scopes.spawn(root, 300 * MS, 300 * MS, &mut t.tokens),
        Spawned::Refused { .. }
    ));
}

#[test]
fn a_spawn_after_the_drain_deadline_starts_nothing() {
    let mut t = Thread::new();
    let (root, _) = t.root(50 * MS);
    let handle = t.handle(root);
    let (first, _) = t.spawn(root, 50 * MS, 0);
    let mut run = Run::new(root);
    assert_eq!(
        t.step(&mut run, RunEvent::BodyDone, 0),
        RunAction::WaitFor(first)
    );
    let in_time = t.spawn_local(handle, 49 * MS);
    assert!(!in_time.is_done(&t.scopes));
    let refused = t.spawn_local(handle, 50 * MS);
    assert!(refused.is_done(&t.scopes));
    assert!(matches!(
        refused.poll::<()>(&t.scopes, None),
        Some(Err(IsleError::Cancelled))
    ));
    in_time.let_go(&t.scopes, &mut t.tokens);
    refused.let_go(&t.scopes, &mut t.tokens);
}

#[test]
fn a_dropped_run_aborts_its_tasks_without_waiting() {
    let mut t = Thread::new();
    let (root, _) = t.root(0);
    let (one, one_token) = t.spawn(root, 0, 0);
    let (two, _) = t.spawn(root, 0, 0);
    t.finish(one, 0);
    let abort = t.scopes.abandon(root, &mut t.tokens);
    assert_eq!(abort, vec![two]);
    assert!(one_token.is_cancelled(&t.tokens));
    assert_eq!(t.scopes.scope(root).phase, Phase::Closed);
    assert!(t.scopes.scope(root).abandoned);
    // A second drop does nothing.
    assert!(t.scopes.abandon(root, &mut t.tokens).is_empty());
    assert!(matches!(
        t.scopes.spawn(root, 0, 0, &mut t.tokens),
        Spawned::Refused { .. }
    ));
}

#[test]
fn events_that_come_too_late_change_nothing() {
    let mut t = Thread::new();
    let (root, _) = t.root(7);
    let mut run = Run::new(root);
    assert_eq!(t.step(&mut run, RunEvent::TimeUp, 0), RunAction::Race);
    assert_eq!(
        t.step(&mut run, RunEvent::CancelSeen, 1),
        RunAction::RaceUntil(8)
    );
    // The deadline is taken once.
    assert_eq!(
        t.step(&mut run, RunEvent::CancelSeen, 5),
        RunAction::RaceUntil(8)
    );
    assert_eq!(
        t.step(&mut run, RunEvent::BodyDone, 5),
        RunAction::Resolve { finished: true }
    );
}

#[test]
fn finished_scopes_leave_the_tree() {
    let mut t = Thread::new();
    let (root, _) = t.root(0);
    let (task, _) = t.spawn(root, 0, 0);
    t.finish(task, 0);
    t.scopes.release(task);
    assert_eq!(t.scopes.next_pending(root), None);
    t.finish(root, 0);
    t.scopes.release(root);
    assert!(!t.scopes.is_full());
    let (again, _) = t.root(0);
    assert_eq!(again, task + 1);
}

#[test]
fn the_token_of_a_handle_is_its_owners() {
    let mut t = Thread::new();
    let (root, token) = t.root(0);
    assert_eq!(t.handle(root).token(), token);
}
