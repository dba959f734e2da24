//! Cancellation tokens and what is current.

use mlua_isle::hook::{current_is_cancelled, current_token, Current, TokenTree};
use mlua_isle::task::{Polled, Task};
use mlua_isle::{CancelToken, IsleError};

#[test]
fn token_default_not_cancelled() {
    let mut tree = TokenTree::new();
    let token = CancelToken::new(&mut tree);
    assert!(!token.is_cancelled(&tree));
}

#[test]
fn token_cancel_sets_flag() {
    let mut tree = TokenTree::new();
    let token = CancelToken::new(&mut tree);
    let clone = token;
    token.cancel(&mut tree);
    assert!(clone.is_cancelled(&tree));
}

#[test]
fn a_cancel_reaches_descendants_and_no_others() {
    let mut tree = TokenTree::new();
    let root = CancelToken::new(&mut tree);
    let left = root.child_token(&mut tree);
    let right = root.child_token(&mut tree);
    let leaf = left.child_token(&mut tree);
    let other = CancelToken::new(&mut tree);
    left.cancel(&mut tree);
    assert!(left.is_cancelled(&tree));
    assert!(leaf.is_cancelled(&tree));
    assert!(!root.is_cancelled(&tree));
    assert!(!right.is_cancelled(&tree));
    root.cancel(&mut tree);
    assert!(right.is_cancelled(&tree));
    assert!(!other.is_cancelled(&tree));
    assert!(!tree.is_full());
}

#[test]
fn a_child_of_a_cancelled_token_is_cancelled() {
    let mut tree = TokenTree::new();
    let root = CancelToken::new(&mut tree);
    root.cancel(&mut tree);
    assert!(root.child_token(&mut tree).is_cancelled(&tree));
}

#[test]
fn letting_go_of_a_token_changes_nothing_for_the_rest() {
    let mut tree = TokenTree::new();
    let root = CancelToken::new(&mut tree);
    let middle = root.child_token(&mut tree);
    let leaf = middle.child_token(&mut tree);
    // The middle token stays while the leaf descends from it.
    middle.release(&mut tree);
    assert!(!leaf.is_cancelled(&tree));
    root.cancel(&mut tree);
    assert!(leaf.is_cancelled(&tree));
    leaf.release(&mut tree);
    assert!(root.is_cancelled(&tree));
    root.release(&mut tree);
    let fresh = CancelToken::new(&mut tree);
    assert!(!fresh.is_cancelled(&tree));
}

#[test]
fn hook_hook_ignores_cancelled_token_that_is_not_current() {
    let mut tree = TokenTree::new();
    let mut current: Current<CancelToken> = Current::new();
    let other = CancelToken::new(&mut tree);
    other.cancel(&mut tree);
    let token = CancelToken::new(&mut tree);
    let outer = current.enter(other);
    let inner = current.enter(token);
    assert!(!current_is_cancelled(&current, &tree));
    current.leave(inner);
    assert!(current_is_cancelled(&current, &tree));
    current.leave(outer);
    assert!(current.get().is_none());
    assert!(current_token(&current).is_none());
    assert!(!current_is_cancelled(&current, &tree));
}

#[test]
fn guards_nest() {
    let mut current: Current<u32> = Current::new();
    let a = current.enter(1);
    let b = current.enter(2);
    assert_eq!(current.get(), Some(&2));
    current.leave(b);
    let c = current.enter(3);
    current.leave(c);
    assert_eq!(current.get(), Some(&1));
    current.leave(a);
    assert_eq!(current.get(), None);
}

#[test]
fn cancel_token_accessor() {
    let mut tree = TokenTree::new();
    let task = Task::new(CancelToken::new(&mut tree));
    let token = task.cancel_token();
    assert!(!token.is_cancelled(&tree));
    task.cancel(&mut tree);
    assert!(task.cancel_token().is_cancelled(&tree));
    task.let_go(&mut tree);
}

#[test]
fn dropping_a_sync_task_cancels_it_and_detach_does_not() {
    let mut tree = TokenTree::new();
    let dropped = CancelToken::new(&mut tree);
    Task::new(dropped).let_go(&mut tree);
    assert!(dropped.is_cancelled(&tree));

    let detached = CancelToken::new(&mut tree);
    let mut task = Task::new(detached);
    task.detach();
    task.let_go(&mut tree);
    assert!(!detached.is_cancelled(&tree));
}

#[test]
fn a_received_result_releases_the_task() {
    let mut tree = TokenTree::new();
    let token = CancelToken::new(&mut tree);
    let mut task = Task::new(token);
    assert!(task.try_recv::<i64>(None).is_none());
    assert!(matches!(task.try_recv(Some(Ok(4))), Some(Ok(4))));
    task.let_go(&mut tree);
    assert!(!token.is_cancelled(&tree));

    let token = CancelToken::new(&mut tree);
    let mut task = Task::new(token);
    assert!(task.poll::<i64>(Polled::Pending).is_none());
    assert!(matches!(task.poll(Polled::Ready(Ok(5))), Some(Ok(5))));
    task.let_go(&mut tree);
    assert!(!token.is_cancelled(&tree));
}

#[test]
fn a_closed_response_channel_is_recv_failed() {
    let mut tree = TokenTree::new();
    let mut task = Task::new(CancelToken::new(&mut tree));
    assert!(matches!(task.wait::<()>(None), Err(IsleError::RecvFailed)));
    let mut task = Task::new(CancelToken::new(&mut tree));
    assert!(matches!(
        task.poll::<()>(Polled::Closed),
        Some(Err(IsleError::RecvFailed))
    ));
    let mut task = Task::new(CancelToken::new(&mut tree));
    assert!(matches!(task.wait(Some(Ok(1))), Ok(1)));
}

#[test]
fn root_current_token_forwards() {
    let mut tree = TokenTree::new();
    let mut current = Current::new();
    assert!(mlua_isle::current_token(&current).is_none());
    let guard = current.enter(CancelToken::new(&mut tree));
    let r = (
        mlua_isle::current_token(&current).is_some(),
        mlua_isle::hook::current_token(&current).is_some(),
    );
    assert_eq!(r, (true, true));
    current.leave(guard);
    assert!(mlua_isle::current_token(&current).is_none());
}
