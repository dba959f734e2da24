//! The handle of a pending Lua operation: its result, and what letting go
//! of it does.
//!
//! Dropping a handle before its result was received cancels the operation.

use crate::error::{IsleError, IsleErrorView};
use crate::forest::{above, replaced};
use crate::hook::{self, cancelled, CancelToken, TokenTree};
use vstd::prelude::*;

verus! {

/// What polling the response channel gave.
pub enum Polled<T> {
    /// No response yet.
    Pending,
    /// The response.
    Ready(Result<T, IsleError>),
    /// The channel was dropped before a response was sent.
    Closed,
}

/// Handle to a pending Lua operation.
#[must_use]
pub struct Task {
    cancel: CancelToken,
    /// Result received or detached: dropping must not cancel.
    released: bool,
}

/// The handle that asynchronous code holds.
pub type AsyncTask = Task;

impl Task {
    /// The token of the operation.
    pub closed spec fn token(&self) -> CancelToken {
        self.cancel
    }

    /// The result was received, or the handle was detached.
    pub closed spec fn is_released(&self) -> bool {
        self.released
    }

    /// The handle of an operation that runs under `cancel`.
    pub fn new(cancel: CancelToken) -> (r: Self)
        ensures
            r.token() == cancel,
            !r.is_released(),
    {
        Task { cancel, released: false }
    }

    /// The result of a blocking wait: what was received, or
    /// [`IsleError::RecvFailed`] when the channel was dropped.
    pub fn wait<T>(&mut self, received: Option<Result<T, IsleError>>) -> (r: Result<T, IsleError>)
        ensures
            final(self).token() == old(self).token(),
            final(self).is_released(),
            match received {
                Some(result) => r == result,
                None => r matches Err(e) && e@ == IsleErrorView::RecvFailed,
            },
    {
        self.released = true;
        match received {
            Some(result) => result,
            None => Err(IsleError::RecvFailed),
        }
    }

    /// The result of a poll without blocking: what was received, if
    /// anything was.
    pub fn try_recv<T>(&mut self, received: Option<Result<T, IsleError>>) -> (r: Option<
        Result<T, IsleError>,
    >)
        ensures
            r == received,
            final(self).token() == old(self).token(),
            final(self).is_released() == (old(self).is_released() || received is Some),
    {
        if received.is_some() {
            self.released = true;
        }
        received
    }

    /// The result of an asynchronous poll, `None` while it is pending.
    pub fn poll<T>(&mut self, polled: Polled<T>) -> (r: Option<Result<T, IsleError>>)
        ensures
            final(self).token() == old(self).token(),
            match polled {
                Polled::Pending => r is None && final(self).is_released()
                    == old(self).is_released(),
                Polled::Ready(result) => r == Some(result) && final(self).is_released(),
                Polled::Closed => {
                    &&& r matches Some(Err(e)) && e@ == IsleErrorView::RecvFailed
                    &&& final(self).is_released()
                },
            },
    {
        match polled {
            Polled::Pending => None,
            Polled::Ready(result) => {
                self.released = true;
                Some(result)
            },
            Polled::Closed => {
                self.released = true;
                Some(Err(IsleError::RecvFailed))
            },
        }
    }

    /// Let the operation run to completion without this handle.
    pub fn detach(&mut self)
        ensures
            final(self).token() == old(self).token(),
            final(self).is_released(),
    {
        self.released = true;
    }

    /// Cancel the operation.
    pub fn cancel(&self, tree: &mut TokenTree)
        requires
            old(tree).wf(),
            old(tree)@.contains_key(self.token().id()),
        ensures
            final(tree).wf(),
            final(tree).next() == old(tree).next(),
            final(tree)@ == replaced(old(tree)@, self.token().id(), true),
    {
        self.cancel.cancel(tree);
    }

    /// Access the cancel token.
    pub fn cancel_token(&self) -> (r: CancelToken)
        ensures
            r == self.token(),
    {
        self.cancel
    }

    /// The handle is dropped: an operation whose result was neither
    /// received nor detached is cancelled.
    pub fn let_go(self, tree: &mut TokenTree)
        requires
            old(tree).wf(),
            old(tree)@.contains_key(self.token().id()),
        ensures
            final(tree).wf(),
            final(tree).next() == old(tree).next(),
            final(tree)@ == if self.is_released() {
                old(tree)@
            } else {
                replaced(old(tree)@, self.token().id(), true)
            },
    {
        if !self.released {
            self.cancel.cancel(tree);
        }
    }
}

/// A wait and a poll give what was received as it is, and the failure to
/// receive where the channel is gone; a poll gives nothing while the result
/// is pending.  The handle is released exactly by receiving a result or its
/// failure, or by detaching.
pub proof fn law_a_handle_gives_what_was_received<T>(received: Option<Result<T, IsleError>>)
    ensures
        forall|task: &mut Task, r: Result<T, IsleError>| #[trigger]
            call_ensures(Task::wait::<T>, (task, received), r) ==> {
                &&& received matches Some(result) ==> r == result
                &&& received is None ==> (r matches Err(e) && e is RecvFailed)
                &&& final(task).is_released()
                &&& final(task).token() == task.token()
            },
        forall|task: &mut Task, r: Option<Result<T, IsleError>>| #[trigger]
            call_ensures(Task::try_recv::<T>, (task, received), r) ==> {
                &&& r == received
                &&& received is Some ==> final(task).is_released()
                &&& received is None ==> final(task).is_released() == task.is_released()
                &&& final(task).token() == task.token()
            },
        forall|task: &mut Task, polled: Polled<T>, r: Option<Result<T, IsleError>>| #[trigger]
            call_ensures(Task::poll::<T>, (task, polled), r) ==> {
                &&& r is None <==> polled is Pending
                &&& polled is Pending ==> final(task).is_released() == task.is_released()
                &&& !(polled is Pending) ==> final(task).is_released()
                &&& polled matches Polled::Ready(result) ==> r == Some(result)
                &&& polled is Closed ==> (r matches Some(Err(e)) && e is RecvFailed)
                &&& final(task).token() == task.token()
            },
        forall|task: &mut Task, r: ()| #[trigger]
            call_ensures(Task::detach, (task,), r) ==> final(task).is_released()
                && final(task).token() == task.token(),
        forall|token: CancelToken, r: Task| #[trigger]
            call_ensures(Task::new, (token,), r) ==> r.token() == token && !r.is_released(),
        forall|task: Task, r: CancelToken| #[trigger]
            call_ensures(Task::cancel_token, (&task,), r) ==> r == task.token(),
{
}

/// Cancelling an operation cancels its token and what descends from it, and
/// nothing else.  Letting go of its handle does so exactly if the result was
/// neither received nor the handle detached; else nothing is cancelled.
pub proof fn law_letting_go_cancels_what_was_not_received(task: Task, d: u64)
    ensures
        forall|tree: &mut TokenTree, r: ()| #[trigger]
            call_ensures(Task::cancel, (&task, tree), r) && tree.wf() && tree@.contains_key(
                task.token().id(),
            ) && tree@.contains_key(d) ==> (cancelled(final(tree)@, d) <==> cancelled(tree@, d)
                || above(tree@, task.token().id(), d)),
        forall|tree: &mut TokenTree, r: ()| #[trigger]
            call_ensures(Task::let_go, (task, tree), r) && tree.wf() && tree@.contains_key(
                task.token().id(),
            ) && tree@.contains_key(d) ==> (cancelled(final(tree)@, d) <==> cancelled(tree@, d)
                || !task.is_released() && above(tree@, task.token().id(), d)),
{
    assert forall|tree: TokenTree| #[trigger]
        tree.wf() && tree@.contains_key(task.token().id()) && tree@.contains_key(d) implies cancelled(
        replaced(tree@, task.token().id(), true),
        d,
    ) == (cancelled(tree@, d) || above(tree@, task.token().id(), d)) by {
        tree.lemma_wf();
        hook::law_cancel_reaches_exactly_the_descendants(tree@, tree.next(), task.token().id(), d);
    }
}

} // verus!
