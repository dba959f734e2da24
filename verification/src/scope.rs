//! Structured execution: scopes, the tasks spawned into them, and how a
//! scope ends.
//!
//! Every coroutine request and every task runs in a **scope**: a token and
//! the set of tasks spawned from it.  A task has a scope of its own, under
//! the scope it was spawned into, so the scopes of a request form a tree.
//! When the body of a scope ends, the scope cancels its tasks and waits for
//! them, so no task outlives the request or task that spawned it.
//!
//! Times are nanoseconds on one clock that never runs backwards.

use crate::error::{IsleError, IsleErrorView};
use crate::forest::{self, above, added, linked, replaced, Forest, SlotView};
use crate::hook::{self, cancelled, CancelToken, TokenTree, Tokens};
use vstd::prelude::*;

verus! {

/// Where a scope is in its life.
#[derive(Clone, Copy, Debug, PartialEq, Eq, Structural)]
pub enum Phase {
    /// Its body (coroutine or host future) is running.
    Running,
    /// The body ended; the scope cancels its tasks and waits for them.
    Draining,
    /// The scope waited for its tasks, or was dropped before it could.
    /// Nothing can be added any more.
    Closed,
}

/// A scope.  The scope of a task stands for the task too.
#[derive(Clone, Copy, Debug)]
pub struct Scope {
    /// The token of the request or task that owns the scope.
    pub token: CancelToken,
    /// How long the body may go on once the token is cancelled.
    pub grace: u128,
    /// Where the scope is in its life.
    pub phase: Phase,
    /// When the body is dropped, set once it has observed its cancel or has
    /// ended.
    pub deadline: Option<u128>,
    /// The request or task has finished, or its future was dropped.
    pub done: bool,
    /// The future was dropped before the scope had waited for its tasks.
    pub abandoned: bool,
}

/// The scopes of a thread as the contracts see them.
pub type Scopes = Map<u64, SlotView<Scope>>;

/// The scopes of a thread.
pub struct ScopeTree {
    scopes: Forest<Scope>,
}

/// A scope whose body has not been polled yet.
pub open spec fn fresh(token: CancelToken, grace: u128) -> Scope {
    Scope {
        token,
        grace,
        phase: Phase::Running,
        deadline: None,
        done: false,
        abandoned: false,
    }
}

/// The smaller of two times, where `None` is no time at all.
pub open spec fn earlier(a: Option<u128>, b: Option<u128>) -> Option<u128> {
    match (a, b) {
        (Some(x), Some(y)) => Some(if x <= y { x } else { y }),
        (Some(x), None) => Some(x),
        (None, y) => y,
    }
}

/// The earliest deadline among the scopes above `id` that have one.
pub open spec fn ancestors_deadline(m: Scopes, id: u64) -> Option<u128>
    decreases id,
{
    match m[id].parent {
        Some(p) => if p < id {
            earlier(m[p].data.deadline, ancestors_deadline(m, p))
        } else {
            None
        },
        None => None,
    }
}

/// The deadline the scope `id` takes at `now`: its grace from now on, or
/// the earliest deadline above it.
pub open spec fn deadline_at(m: Scopes, id: u64, now: u128) -> u128 {
    earlier(Some((now + m[id].data.grace) as u128), ancestors_deadline(m, id))->0
}

/// Whether a spawn into `scope` at `now` comes too late: the scope is
/// closed, or it is ending and its time has run out.
pub open spec fn out_of_time(scope: Scope, now: u128) -> bool {
    match scope.phase {
        Phase::Running => false,
        Phase::Draining => scope.deadline matches Some(d) && d <= now,
        Phase::Closed => true,
    }
}

/// `t` after the tokens of `tasks` were cancelled.
pub open spec fn cancelled_each(t: Tokens, m: Scopes, tasks: Seq<u64>) -> Tokens
    decreases tasks.len(),
{
    if tasks.len() == 0 {
        t
    } else {
        replaced(
            cancelled_each(t, m, tasks.drop_last()),
            m[tasks.last()].data.token.id(),
            true,
        )
    }
}

/// The scope after its body ended at `now`.
pub open spec fn ended(m: Scopes, id: u64, now: u128) -> Scope {
    Scope {
        deadline: match m[id].data.deadline {
            Some(d) => Some(d),
            None => Some(deadline_at(m, id, now)),
        },
        phase: Phase::Draining,
        ..m[id].data
    }
}

/// What holds of every scope, whatever was done to the tree.
pub open spec fn sound(m: Scopes) -> bool {
    forall|id: u64| #[trigger] m.contains_key(id) ==> sound_at(m, id)
}

/// What holds of one scope.
pub open spec fn sound_at(m: Scopes, id: u64) -> bool {
    let s = m[id].data;
    &&& m[id].released ==> s.done
    &&& s.done ==> s.phase == Phase::Closed
    &&& s.abandoned ==> s.phase == Phase::Closed
    &&& s.phase == Phase::Draining ==> s.deadline is Some
    &&& s.phase == Phase::Closed && !s.abandoned ==> {
        &&& s.deadline is Some
        &&& forall|c: u64| #[trigger] m[id].children.contains(c) ==> m[c].data.done
    }
}

/// The tokens of the scopes are those of a tree of the same shape, and the
/// tasks of a scope that has ended are cancelled.
pub open spec fn tied(m: Scopes, t: Tokens) -> bool {
    &&& forall|id: u64| #[trigger] m.contains_key(id) ==> t.contains_key(m[id].data.token.id())
    &&& forall|id: u64|
        #[trigger] m.contains_key(id) ==> (m[id].parent matches Some(p) ==> {
            &&& t[m[id].data.token.id()].parent == Some(m[p].data.token.id())
            &&& m[p].data.phase != Phase::Running ==> {
                ||| m[id].data.done
                ||| cancelled(t, m[id].data.token.id())
            }
        })
}

/// What became of a spawn.
pub enum Spawned {
    /// The task runs in the scope `task`, under `token`.
    Started { task: u64, token: CancelToken },
    /// The spawn came too late: nothing was started, and the task counts as
    /// finished and cancelled.
    Refused { token: CancelToken },
}

/// The token of a spawned task.
pub open spec fn spawned_token(r: Spawned) -> CancelToken {
    match r {
        Spawned::Started { token, .. } => token,
        Spawned::Refused { token } => token,
    }
}

/// What a spawn does: `m` and `t` are the scopes and the tokens before it,
/// `n` and `u` after it.
///
/// The task's token is a new child of the owner's.  Unless the spawn came
/// too late, the task's scope stands under the owner, and its token is
/// cancelled if the owner is ending.  A spawn that came too late leaves the
/// scopes alone, and its token is cancelled.
pub open spec fn spawns(
    m: Scopes,
    next: u64,
    t: Tokens,
    last: u64,
    owner: u64,
    grace: u128,
    now: u128,
    r: Spawned,
    n: Scopes,
    u: Tokens,
) -> bool {
    let o = m[owner].data;
    let made = added(t, last, Some(o.token.id()), false);
    let stopped = replaced(made, last, true);
    &&& spawned_token(r).id() == last
    &&& match r {
        Spawned::Started { task, token } => {
            &&& !out_of_time(o, now)
            &&& task == next
            &&& n == added(m, task, Some(owner), fresh(token, grace))
            &&& u == if o.phase == Phase::Draining {
                stopped
            } else {
                made
            }
        },
        Spawned::Refused { .. } => {
            &&& out_of_time(o, now)
            &&& n == m
            &&& u == stopped
        },
    }
}

impl View for ScopeTree {
    type V = Scopes;

    closed spec fn view(&self) -> Scopes {
        self.scopes@
    }
}

impl ScopeTree {
    /// The number the next scope gets.
    pub closed spec fn next(&self) -> u64 {
        self.scopes.next()
    }

    /// The links agree with each other, and every scope is sound.
    pub closed spec fn wf(&self) -> bool {
        self.scopes.wf() && sound(self@)
    }

    /// What well-formedness says of the view.
    pub proof fn lemma_wf(&self)
        requires
            self.wf(),
        ensures
            linked(self@, self.next()),
            sound(self@),
    {
    }

    /// A tree without scopes.
    pub fn new() -> (r: Self)
        ensures
            r.wf(),
            r@ == Map::<u64, SlotView<Scope>>::empty(),
            r.next() == 0,
    {
        ScopeTree { scopes: Forest::new() }
    }

    /// Whether no further scope can be made.
    pub fn is_full(&self) -> (r: bool)
        ensures
            r == (self.next() == u64::MAX),
    {
        self.scopes.is_full()
    }

    /// The scope `id`.
    pub fn scope(&self, id: u64) -> (r: Scope)
        requires
            self@.contains_key(id),
        ensures
            r == self@[id].data,
    {
        *self.scopes.data(id)
    }

    /// Open the scope of a root, under `token`.
    pub fn open_root(&mut self, token: CancelToken, grace: u128) -> (id: u64)
        requires
            old(self).wf(),
            old(self).next() < u64::MAX,
        ensures
            final(self).wf(),
            id == old(self).next(),
            final(self).next() == id + 1,
            final(self)@ == added(old(self)@, id, None, fresh(token, grace)),
    {
        let scope: Scope = Scope {
            token,
            grace,
            phase: Phase::Running,
            deadline: None,
            done: false,
            abandoned: false,
        };
        let id: u64 = self.scopes.add(None, scope);
        proof {
            assert forall|x: u64| #[trigger] self@.contains_key(x) implies sound_at(self@, x) by {
                if x != id {
                    assert(old(self)@.contains_key(x));
                    assert(sound_at(old(self)@, x));
                }
            }
        }
        id
    }

    /// The earliest deadline among the scopes above `id` that have one.
    fn ancestors_deadline(&self, id: u64) -> (r: Option<u128>)
        requires
            self.wf(),
            self@.contains_key(id),
        ensures
            r == ancestors_deadline(self@, id),
    {
        let mut earliest: Option<u128> = None;
        let mut at: u64 = id;
        loop
            invariant
                self.wf(),
                self@.contains_key(at),
                earlier(earliest, ancestors_deadline(self@, at)) == ancestors_deadline(self@, id),
            decreases at,
        {
            match self.scopes.parent(at) {
                Some(p) => {
                    earliest = sooner(earliest, self.scopes.data(p).deadline);
                    at = p;
                },
                None => {
                    return earliest;
                },
            }
        }
    }

    /// The deadline the scope `id` takes at `now`.
    fn deadline_at(&self, id: u64, now: u128) -> (r: u128)
        requires
            self.wf(),
            self@.contains_key(id),
            now + self@[id].data.grace <= u128::MAX,
        ensures
            r == deadline_at(self@, id, now),
    {
        let own: u128 = now + self.scopes.data(id).grace;
        match self.ancestors_deadline(id) {
            Some(d) => if d < own {
                d
            } else {
                own
            },
            None => own,
        }
    }

    /// Start a task in the scope `owner` at `now`.
    ///
    /// The task's token is a child of the owner's, and its scope stands
    /// under the owner.  A task started in a scope that is ending is
    /// cancelled at once.  On a closed scope, and on an ending scope whose
    /// time has run out, nothing is started.
    pub fn spawn(&mut self, owner: u64, grace: u128, now: u128, tokens: &mut TokenTree) -> (r:
        Spawned)
        requires
            old(self).wf(),
            old(tokens).wf(),
            tied(old(self)@, old(tokens)@),
            old(self)@.contains_key(owner),
            old(self).next() < u64::MAX,
            old(tokens).next() < u64::MAX,
        ensures
            final(self).wf(),
            final(tokens).wf(),
            tied(final(self)@, final(tokens)@),
            final(tokens).next() == old(tokens).next() + 1,
            spawns(
                old(self)@,
                old(self).next(),
                old(tokens)@,
                old(tokens).next(),
                owner,
                grace,
                now,
                r,
                final(self)@,
                final(tokens)@,
            ),
            final(tokens)@.contains_key(spawned_token(r).id()),
            match r {
                Spawned::Started { task, .. } => final(self).next() == task + 1
                    && final(self)@.contains_key(task),
                Spawned::Refused { .. } => final(self).next() == old(self).next(),
            },
    {
        proof {
            old(tokens).lemma_wf();
        }
        let o: Scope = *self.scopes.data(owner);
        let token: CancelToken = o.token.child_token(tokens);
        let late: bool = match o.phase {
            Phase::Running => false,
            Phase::Draining => match o.deadline {
                Some(d) => d <= now,
                None => false,
            },
            Phase::Closed => true,
        };
        let ghost made = tokens@;
        proof {
            lemma_token_made(self@, old(tokens)@, token.id(), o.token.id());
            tokens.lemma_wf();
        }
        if late {
            token.cancel(tokens);
            proof {
                lemma_token_cancelled(self@, made, (token.id() + 1) as u64, token.id());
            }
            return Spawned::Refused { token };
        }
        if o.phase == Phase::Draining {
            token.cancel(tokens);
            proof {
                lemma_token_cancelled(self@, made, (token.id() + 1) as u64, token.id());
            }
        }
        let scope: Scope = Scope {
            token,
            grace,
            phase: Phase::Running,
            deadline: None,
            done: false,
            abandoned: false,
        };
        let task: u64 = self.scopes.add(Some(owner), scope);
        proof {
            assert forall|x: u64| #[trigger] self@.contains_key(x) implies sound_at(self@, x) by {
                if x != task {
                    assert(old(self)@.contains_key(x));
                    assert(sound_at(old(self)@, x));
                    if x != owner {
                        assert forall|c: u64| #[trigger]
                            self@[x].children.contains(c) implies self@[c].data
                            == old(self)@[c].data by {
                            assert(old(self)@[x].children.contains(c));
                            assert(old(self)@.contains_key(c));
                        }
                    }
                }
            }
            assert forall|x: u64| #[trigger] self@.contains_key(x) implies (
            self@[x].parent matches Some(p) ==> {
                &&& tokens@[self@[x].data.token.id()].parent == Some(self@[p].data.token.id())
                &&& self@[p].data.phase != Phase::Running ==> {
                    ||| self@[x].data.done
                    ||| cancelled(tokens@, self@[x].data.token.id())
                }
            }) by {
                if x != task {
                    assert(old(self)@.contains_key(x));
                }
            }
        }
        Spawned::Started { task, token }
    }

    /// The body of `id` has seen its cancel at `now`: from here on it has
    /// until the returned deadline.
    pub fn observe_cancel(&mut self, id: u64, now: u128) -> (deadline: u128)
        requires
            old(self).wf(),
            old(self)@.contains_key(id),
            old(self)@[id].data.deadline is None,
            now + old(self)@[id].data.grace <= u128::MAX,
        ensures
            final(self).wf(),
            final(self).next() == old(self).next(),
            deadline == deadline_at(old(self)@, id, now),
            final(self)@ == replaced(
                old(self)@,
                id,
                Scope { deadline: Some(deadline), ..old(self)@[id].data },
            ),
            forall|t: Tokens| tied(old(self)@, t) ==> #[trigger] tied(final(self)@, t),
    {
        let deadline: u128 = self.deadline_at(id, now);
        let s: Scope = *self.scopes.data(id);
        let _ = self.scopes.replace(id, Scope { deadline: Some(deadline), ..s });
        proof {
            lemma_relabelled(old(self)@, self@, id);
        }
        deadline
    }

    /// The body of `id` ended at `now`: the scope takes its deadline if it
    /// has none yet, stops taking new work, and cancels its tasks.
    pub fn body_ended(&mut self, id: u64, now: u128, tokens: &mut TokenTree)
        requires
            old(self).wf(),
            old(tokens).wf(),
            tied(old(self)@, old(tokens)@),
            old(self)@.contains_key(id),
            old(self)@[id].data.phase == Phase::Running,
            now + old(self)@[id].data.grace <= u128::MAX,
        ensures
            final(self).wf(),
            final(tokens).wf(),
            tied(final(self)@, final(tokens)@),
            final(self).next() == old(self).next(),
            final(tokens).next() == old(tokens).next(),
            final(self)@ == replaced(old(self)@, id, ended(old(self)@, id, now)),
            final(tokens)@ == cancelled_each(old(tokens)@, old(self)@, old(self)@[id].children),
    {
        let s: Scope = *self.scopes.data(id);
        let deadline: u128 = match s.deadline {
            Some(d) => d,
            None => self.deadline_at(id, now),
        };
        self.cancel_all(id, tokens);
        let _ = self.scopes.replace(
            id,
            Scope { deadline: Some(deadline), phase: Phase::Draining, ..s },
        );
        proof {
            lemma_relabelled(old(self)@, self@, id);
            assert forall|x: u64| #[trigger] self@.contains_key(x) implies (
            self@[x].parent matches Some(p) ==> {
                &&& tokens@[self@[x].data.token.id()].parent == Some(self@[p].data.token.id())
                &&& self@[p].data.phase != Phase::Running ==> {
                    ||| self@[x].data.done
                    ||| cancelled(tokens@, self@[x].data.token.id())
                }
            }) by {
                assert(old(self)@.contains_key(x));
            }
        }
    }

    /// Cancel the tasks of `id`.
    fn cancel_all(&self, id: u64, tokens: &mut TokenTree)
        requires
            self.wf(),
            old(tokens).wf(),
            tied(self@, old(tokens)@),
            self@.contains_key(id),
        ensures
            final(tokens).wf(),
            tied(self@, final(tokens)@),
            final(tokens).next() == old(tokens).next(),
            final(tokens)@ == cancelled_each(old(tokens)@, self@, self@[id].children),
            forall|c: u64| #[trigger]
                self@[id].children.contains(c) ==> cancelled(
                    final(tokens)@,
                    self@[c].data.token.id(),
                ),
    {
        let children: &Vec<u64> = self.scopes.children(id);
        let mut i: usize = 0;
        while i < children.len()
            invariant
                i <= children@.len(),
                children@ == self@[id].children,
                self.wf(),
                self@.contains_key(id),
                tokens.wf(),
                tokens.next() == old(tokens).next(),
                tied(self@, tokens@),
                tokens@ == cancelled_each(old(tokens)@, self@, children@.take(i as int)),
                forall|j: int|
                    0 <= j < i ==> cancelled(
                        tokens@,
                        self@[#[trigger] children@[j]].data.token.id(),
                    ),
            decreases children@.len() - i,
        {
            proof {
                tokens.lemma_wf();
                assert forall|j: int| 0 <= j < children@.len() implies tokens@.contains_key(
                    self@[#[trigger] children@[j]].data.token.id(),
                ) by {
                    assert(self@[id].children.contains(children@[j]));
                }
            }
            let c: u64 = children[i];
            assert(self@[id].children.contains(c));
            let token: CancelToken = self.scopes.data(c).token;
            let ghost before = tokens@;
            token.cancel(tokens);
            proof {
                lemma_token_cancelled(self@, before, tokens.next(), token.id());
                lemma_still_cancelled(self@, before, tokens.next(), children@, i as int);
                assert(children@.take(i + 1).drop_last() == children@.take(i as int));
            }
            i += 1;
        }
        proof {
            assert(children@.take(children@.len() as int) == children@);
        }
    }

    /// A task of `id` that has not finished, the oldest one.
    pub fn next_pending(&self, id: u64) -> (r: Option<u64>)
        requires
            self.wf(),
            self@.contains_key(id),
        ensures
            r matches Some(c) ==> oldest_pending(self@, id, c),
            r is None ==> all_done(self@, id),
    {
        let children: &Vec<u64> = self.scopes.children(id);
        let mut i: usize = 0;
        while i < children.len()
            invariant
                i <= children@.len(),
                children@ == self@[id].children,
                self.wf(),
                self@.contains_key(id),
                forall|j: int| 0 <= j < i ==> self@[#[trigger] children@[j]].data.done,
            decreases children@.len() - i,
        {
            let c: u64 = children[i];
            assert(self@[id].children.contains(c));
            if !self.scopes.data(c).done {
                return Some(c);
            }
            i += 1;
        }
        None
    }

    /// The scope has waited for its tasks.
    pub fn close(&mut self, id: u64)
        requires
            old(self).wf(),
            old(self)@.contains_key(id),
            old(self)@[id].data.phase == Phase::Draining,
            forall|c: u64| #[trigger]
                old(self)@[id].children.contains(c) ==> old(self)@[c].data.done,
        ensures
            final(self).wf(),
            final(self).next() == old(self).next(),
            final(self)@ == replaced(
                old(self)@,
                id,
                Scope { phase: Phase::Closed, ..old(self)@[id].data },
            ),
            forall|t: Tokens| tied(old(self)@, t) ==> #[trigger] tied(final(self)@, t),
    {
        let s: Scope = *self.scopes.data(id);
        let _ = self.scopes.replace(id, Scope { phase: Phase::Closed, ..s });
        proof {
            lemma_relabelled(old(self)@, self@, id);
        }
    }

    /// The task (or root) `id` has finished, after its scope closed.
    pub fn finish(&mut self, id: u64)
        requires
            old(self).wf(),
            old(self)@.contains_key(id),
            old(self)@[id].data.phase == Phase::Closed,
        ensures
            final(self).wf(),
            final(self).next() == old(self).next(),
            final(self)@ == replaced(
                old(self)@,
                id,
                Scope { done: true, ..old(self)@[id].data },
            ),
            forall|t: Tokens| tied(old(self)@, t) ==> #[trigger] tied(final(self)@, t),
    {
        let s: Scope = *self.scopes.data(id);
        let _ = self.scopes.replace(id, Scope { done: true, ..s });
        proof {
            lemma_relabelled(old(self)@, self@, id);
        }
    }

    /// The future of `id` was dropped.  If its scope had not closed, it
    /// closes now without waiting: its tasks are cancelled, and those that
    /// have not finished are returned, to be aborted.
    pub fn abandon(&mut self, id: u64, tokens: &mut TokenTree) -> (abort: Vec<u64>)
        requires
            old(self).wf(),
            old(tokens).wf(),
            tied(old(self)@, old(tokens)@),
            old(self)@.contains_key(id),
        ensures
            final(self).wf(),
            final(tokens).wf(),
            tied(final(self)@, final(tokens)@),
            final(self).next() == old(self).next(),
            final(tokens).next() == old(tokens).next(),
            old(self)@[id].data.phase == Phase::Closed ==> {
                &&& final(self)@ == old(self)@
                &&& final(tokens)@ == old(tokens)@
                &&& abort@.len() == 0
            },
            old(self)@[id].data.phase != Phase::Closed ==> {
                &&& final(self)@ == replaced(
                    old(self)@,
                    id,
                    Scope { phase: Phase::Closed, abandoned: true, ..old(self)@[id].data },
                )
                &&& final(tokens)@ == cancelled_each(
                    old(tokens)@,
                    old(self)@,
                    old(self)@[id].children,
                )
                &&& forall|c: u64| #[trigger]
                    abort@.contains(c) <==> old(self)@[id].children.contains(c)
                        && !old(self)@[c].data.done
            },
    {
        let s: Scope = *self.scopes.data(id);
        if s.phase == Phase::Closed {
            return Vec::new();
        }
        let abort: Vec<u64> = self.unfinished(id);
        self.cancel_all(id, tokens);
        let _ = self.scopes.replace(id, Scope { phase: Phase::Closed, abandoned: true, ..s });
        proof {
            lemma_relabelled(old(self)@, self@, id);
            assert forall|x: u64| #[trigger] self@.contains_key(x) implies (
            self@[x].parent matches Some(p) ==> {
                &&& tokens@[self@[x].data.token.id()].parent == Some(self@[p].data.token.id())
                &&& self@[p].data.phase != Phase::Running ==> {
                    ||| self@[x].data.done
                    ||| cancelled(tokens@, self@[x].data.token.id())
                }
            }) by {
                assert(old(self)@.contains_key(x));
            }
        }
        abort
    }

    /// The tasks of `id` that have not finished.
    fn unfinished(&self, id: u64) -> (r: Vec<u64>)
        requires
            self.wf(),
            self@.contains_key(id),
        ensures
            forall|c: u64| #[trigger]
                r@.contains(c) <==> self@[id].children.contains(c) && !self@[c].data.done,
    {
        let children: &Vec<u64> = self.scopes.children(id);
        let mut out: Vec<u64> = Vec::new();
        let mut i: usize = 0;
        while i < children.len()
            invariant
                i <= children@.len(),
                children@ == self@[id].children,
                self.wf(),
                self@.contains_key(id),
                forall|c: u64| #[trigger]
                    out@.contains(c) <==> children@.take(i as int).contains(c)
                        && !self@[c].data.done,
            decreases children@.len() - i,
        {
            let c: u64 = children[i];
            assert(self@[id].children.contains(c));
            let ghost before = out@;
            let ghost seen = children@.take(i as int);
            if !self.scopes.data(c).done {
                out.push(c);
            }
            proof {
                assert(children@.take(i + 1) == seen.push(c));
                assert forall|x: u64| #[trigger]
                    out@.contains(x) <==> children@.take(i + 1).contains(x)
                        && !self@[x].data.done by {
                    lemma_push_contains(seen, c, x);
                    lemma_push_contains(before, c, x);
                }
            }
            i += 1;
        }
        proof {
            assert(children@.take(children@.len() as int) == children@);
        }
        out
    }

    /// Nothing refers to the finished scope `id` any more: it leaves the
    /// tree, at once or with the last scope under it.
    pub fn release(&mut self, id: u64)
        requires
            old(self).wf(),
            old(self)@.contains_key(id),
            old(self)@[id].data.done,
        ensures
            final(self).wf(),
            final(self).next() == old(self).next(),
            final(self)@ == forest::released(old(self)@, id),
            forall|t: Tokens| tied(old(self)@, t) ==> #[trigger] tied(final(self)@, t),
    {
        let ghost marked = old(self)@.insert(id, SlotView { released: true, ..old(self)@[id] });
        self.scopes.release(id);
        proof {
            forest::law_release_keeps_the_rest(old(self)@, id, old(self).next());
            forest::lemma_marked(old(self)@, id, old(self).next());
            forest::lemma_pruned(marked, id, old(self).next());
            assert forall|x: u64| #[trigger] self@.contains_key(x) implies sound_at(self@, x) by {
                assert(old(self)@.contains_key(x));
                assert(sound_at(old(self)@, x));
                assert(marked.contains_key(x));
                assert forall|c: u64| #[trigger] self@[x].children.contains(c) implies self@[c].data
                    == old(self)@[c].data && old(self)@[x].children.contains(c) by {
                    assert(marked[x].children.contains(c));
                    assert(self@.contains_key(c));
                }
            }
            assert forall|t: Tokens| tied(old(self)@, t) implies #[trigger] tied(self@, t) by {
                assert forall|x: u64| #[trigger] self@.contains_key(x) implies (
                self@[x].parent matches Some(p) ==> {
                    &&& t[self@[x].data.token.id()].parent == Some(self@[p].data.token.id())
                    &&& self@[p].data.phase != Phase::Running ==> {
                        ||| self@[x].data.done
                        ||| cancelled(t, self@[x].data.token.id())
                    }
                }) by {
                    assert(old(self)@.contains_key(x));
                    match self@[x].parent {
                        Some(p) => {
                            assert(self@.contains_key(p));
                        },
                        None => {},
                    }
                }
            }
        }
    }
}

proof fn lemma_push_contains(s: Seq<u64>, c: u64, x: u64)
    ensures
        s.push(c).contains(x) <==> s.contains(x) || x == c,
{
    if s.contains(x) {
        let i = choose|i: int| 0 <= i < s.len() && s[i] == x;
        assert(s.push(c)[i] == x);
    }
    assert(s.push(c)[s.len() as int] == c);
    if s.push(c).contains(x) && x != c {
        let i = choose|i: int| 0 <= i < s.push(c).len() && s.push(c)[i] == x;
        assert(s[i] == x);
    }
}

/// Making a token keeps the scopes tied.
proof fn lemma_token_made(m: Scopes, t: Tokens, id: u64, parent: u64)
    requires
        linked(t, id),
        t.contains_key(parent),
        tied(m, t),
    ensures
        tied(m, added(t, id, Some(parent), false)),
{
    let u = added(t, id, Some(parent), false);
    assert forall|x: u64| #[trigger] m.contains_key(x) implies (m[x].parent matches Some(p) ==> {
        &&& u[m[x].data.token.id()].parent == Some(m[p].data.token.id())
        &&& m[p].data.phase != Phase::Running ==> {
            ||| m[x].data.done
            ||| cancelled(u, m[x].data.token.id())
        }
    }) by {
        hook::law_new_token_changes_no_other(t, id, Some(parent), m[x].data.token.id());
    }
}

/// Cancelling a token keeps the scopes tied.
proof fn lemma_token_cancelled(m: Scopes, t: Tokens, next: u64, id: u64)
    requires
        linked(t, next),
        t.contains_key(id),
        tied(m, t),
    ensures
        tied(m, replaced(t, id, true)),
{
    let u = replaced(t, id, true);
    assert forall|x: u64| #[trigger] m.contains_key(x) implies (m[x].parent matches Some(p) ==> {
        &&& u[m[x].data.token.id()].parent == Some(m[p].data.token.id())
        &&& m[p].data.phase != Phase::Running ==> {
            ||| m[x].data.done
            ||| cancelled(u, m[x].data.token.id())
        }
    }) by {
        hook::law_cancel_reaches_exactly_the_descendants(t, next, id, m[x].data.token.id());
    }
}

/// Cancelling the token of one more task leaves the others cancelled.
proof fn lemma_still_cancelled(m: Scopes, t: Tokens, next: u64, tasks: Seq<u64>, i: int)
    requires
        linked(t, next),
        0 <= i < tasks.len(),
        forall|j: int|
            0 <= j < tasks.len() ==> t.contains_key(m[#[trigger] tasks[j]].data.token.id()),
        forall|j: int| 0 <= j < i ==> cancelled(t, m[#[trigger] tasks[j]].data.token.id()),
    ensures
        forall|j: int|
            0 <= j < i + 1 ==> cancelled(
                replaced(t, m[tasks[i]].data.token.id(), true),
                m[#[trigger] tasks[j]].data.token.id(),
            ),
{
    let id = m[tasks[i]].data.token.id();
    assert forall|j: int| 0 <= j < i + 1 implies cancelled(
        replaced(t, id, true),
        m[#[trigger] tasks[j]].data.token.id(),
    ) by {
        hook::law_cancel_reaches_exactly_the_descendants(
            t,
            next,
            id,
            m[tasks[j]].data.token.id(),
        );
    }
}

/// A step that changes one scope, and that scope soundly, keeps them all
/// sound.
proof fn lemma_relabelled(m: Scopes, n: Scopes, id: u64)
    requires
        sound(m),
        m.contains_key(id),
        n == replaced(m, id, n[id].data),
        sound_at(n, id),
        m[id].data.done ==> n[id].data.done,
    ensures
        sound(n),
{
    assert forall|x: u64| #[trigger] n.contains_key(x) implies sound_at(n, x) by {
        assert(m.contains_key(x));
        assert(sound_at(m, x));
    }
}

/// How far the run of a body is.
#[derive(Clone, Copy, Debug, PartialEq, Eq, Structural)]
pub enum Stage {
    /// The body runs, and its token has not been seen cancelled.
    Open,
    /// The cancel was seen: the body has until the scope's deadline.
    Grace,
    /// The body ended: the scope waits for its tasks.
    Drain,
}

/// The run of one body in its scope, from its first poll until the scope
/// has closed.
pub struct Run {
    scope: u64,
    stage: Stage,
    finished: bool,
}

/// What happened to a run.
#[derive(Clone, Copy, Debug, PartialEq, Eq, Structural)]
pub enum RunEvent {
    /// The body returned.
    BodyDone,
    /// The token of the scope is cancelled.
    CancelSeen,
    /// The deadline passed, and the body was dropped.
    TimeUp,
    /// The task that was waited for has finished.
    TaskDone,
}

/// What a run waits for next.
#[derive(Clone, Copy, Debug, PartialEq, Eq, Structural)]
pub enum RunAction {
    /// The body, or the cancel.
    Race,
    /// The body, or the moment given.
    RaceUntil(u128),
    /// One of the tasks.
    WaitFor(u64),
    /// Nothing: the scope has closed.  `finished` tells whether the body
    /// returned, or was dropped.
    Resolve { finished: bool },
}

/// Every task of `id` has finished.
pub open spec fn all_done(m: Scopes, id: u64) -> bool {
    forall|c: u64| #[trigger] m[id].children.contains(c) ==> m[c].data.done
}

/// `c` is the oldest task of `id` that has not finished.
pub open spec fn oldest_pending(m: Scopes, id: u64, c: u64) -> bool {
    &&& !m[c].data.done
    &&& exists|k: int|
        #![trigger m[id].children[k]]
        {
            &&& 0 <= k < m[id].children.len()
            &&& m[id].children[k] == c
            &&& forall|j: int| 0 <= j < k ==> m[#[trigger] m[id].children[j]].data.done
        }
}

/// What a scope that has ended does next: it waits for the oldest task that
/// has not finished, or, when there is none, closes.
pub open spec fn drains(before: Scopes, id: u64, after: Scopes, finished: bool, r: RunAction) -> bool {
    match r {
        RunAction::WaitFor(c) => {
            &&& after == before
            &&& oldest_pending(before, id, c)
        },
        RunAction::Resolve { finished: f } => {
            &&& f == finished
            &&& forall|c: u64| #[trigger] before[id].children.contains(c) ==> before[c].data.done
            &&& after == replaced(
                before,
                id,
                Scope { phase: Phase::Closed, ..before[id].data },
            )
        },
        _ => false,
    }
}

impl Run {
    /// The scope of the body.
    pub closed spec fn scope(&self) -> u64 {
        self.scope
    }

    /// How far the run is.
    pub closed spec fn stage(&self) -> Stage {
        self.stage
    }

    /// The body returned (rather than being dropped).
    pub closed spec fn finished(&self) -> bool {
        self.finished
    }

    /// The run and the scope agree on how far they are.
    pub open spec fn fits(&self, m: Scopes) -> bool {
        &&& m.contains_key(self.scope())
        &&& match self.stage() {
            Stage::Open => m[self.scope()].data.phase == Phase::Running
                && m[self.scope()].data.deadline is None,
            Stage::Grace => m[self.scope()].data.phase == Phase::Running
                && m[self.scope()].data.deadline is Some,
            Stage::Drain => m[self.scope()].data.phase == Phase::Draining,
        }
    }

    /// The run of a body that has not been polled yet.
    pub fn new(scope: u64) -> (r: Self)
        ensures
            r.scope() == scope,
            r.stage() == Stage::Open,
            !r.finished(),
    {
        Run { scope, stage: Stage::Open, finished: false }
    }

    /// Something happened: what the run waits for next.
    ///
    /// The first cancel that is seen sets the deadline; a body that
    /// returned or was dropped ends the scope, which cancels its tasks and
    /// then waits for them one by one, those added meanwhile too.
    pub fn step(
        &mut self,
        event: RunEvent,
        now: u128,
        scopes: &mut ScopeTree,
        tokens: &mut TokenTree,
    ) -> (r: RunAction)
        requires
            old(scopes).wf(),
            old(tokens).wf(),
            tied(old(scopes)@, old(tokens)@),
            old(self).fits(old(scopes)@),
            now + old(scopes)@[old(self).scope()].data.grace <= u128::MAX,
        ensures
            final(scopes).wf(),
            final(tokens).wf(),
            tied(final(scopes)@, final(tokens)@),
            final(scopes).next() == old(scopes).next(),
            final(tokens).next() == old(tokens).next(),
            final(self).scope() == old(self).scope(),
            !(r is Resolve) ==> final(self).fits(final(scopes)@),
            ({
                let id = old(self).scope();
                let m = old(scopes)@;
                match (old(self).stage(), event) {
                    (Stage::Open, RunEvent::CancelSeen) => {
                        let deadline = deadline_at(m, id, now);
                        &&& r == RunAction::RaceUntil(deadline)
                        &&& final(self).stage() == Stage::Grace
                        &&& final(self).finished() == old(self).finished()
                        &&& final(scopes)@ == replaced(
                            m,
                            id,
                            Scope { deadline: Some(deadline), ..m[id].data },
                        )
                        &&& final(tokens)@ == old(tokens)@
                    },
                    (Stage::Open, RunEvent::BodyDone) | (Stage::Grace, RunEvent::BodyDone) | (
                        Stage::Grace,
                        RunEvent::TimeUp,
                    ) => {
                        &&& drains(
                            replaced(m, id, ended(m, id, now)),
                            id,
                            final(scopes)@,
                            event == RunEvent::BodyDone,
                            r,
                        )
                        &&& final(self).stage() == Stage::Drain
                        &&& final(self).finished() == (event == RunEvent::BodyDone)
                        &&& final(tokens)@ == cancelled_each(old(tokens)@, m, m[id].children)
                    },
                    (Stage::Drain, _) => {
                        &&& drains(m, id, final(scopes)@, old(self).finished(), r)
                        &&& final(self).stage() == Stage::Drain
                        &&& final(self).finished() == old(self).finished()
                        &&& final(tokens)@ == old(tokens)@
                    },
                    (Stage::Open, _) => {
                        &&& r == RunAction::Race
                        &&& *final(self) == *old(self)
                        &&& final(scopes)@ == m
                        &&& final(tokens)@ == old(tokens)@
                    },
                    (Stage::Grace, _) => {
                        &&& r == RunAction::RaceUntil(m[id].data.deadline->0)
                        &&& *final(self) == *old(self)
                        &&& final(scopes)@ == m
                        &&& final(tokens)@ == old(tokens)@
                    },
                }
            }),
    {
        match (self.stage, event) {
            (Stage::Open, RunEvent::CancelSeen) => {
                self.stage = Stage::Grace;
                RunAction::RaceUntil(scopes.observe_cancel(self.scope, now))
            },
            (Stage::Open, RunEvent::BodyDone) | (Stage::Grace, RunEvent::BodyDone) | (
                Stage::Grace,
                RunEvent::TimeUp,
            ) => {
                scopes.body_ended(self.scope, now, tokens);
                self.stage = Stage::Drain;
                self.finished = event == RunEvent::BodyDone;
                self.drain(scopes)
            },
            (Stage::Drain, _) => self.drain(scopes),
            (Stage::Open, _) => RunAction::Race,
            (Stage::Grace, _) => match scopes.scope(self.scope).deadline {
                Some(d) => RunAction::RaceUntil(d),
                None => RunAction::Race,
            },
        }
    }

    /// Wait for the next task, or close the scope.
    fn drain(&self, scopes: &mut ScopeTree) -> (r: RunAction)
        requires
            old(scopes).wf(),
            old(scopes)@.contains_key(self.scope()),
            old(scopes)@[self.scope()].data.phase == Phase::Draining,
        ensures
            final(scopes).wf(),
            final(scopes).next() == old(scopes).next(),
            drains(old(scopes)@, self.scope(), final(scopes)@, self.finished(), r),
            forall|t: Tokens| tied(old(scopes)@, t) ==> #[trigger] tied(final(scopes)@, t),
    {
        match scopes.next_pending(self.scope) {
            Some(c) => RunAction::WaitFor(c),
            None => {
                scopes.close(self.scope);
                RunAction::Resolve { finished: self.finished }
            },
        }
    }
}

/// The scope of a coroutine request or task, for spawning host tasks into
/// it.
#[derive(Clone, Copy, Debug)]
pub struct ScopeHandle {
    scope: u64,
    token: CancelToken,
}

impl ScopeHandle {
    /// The scope.
    pub closed spec fn scope(&self) -> u64 {
        self.scope
    }

    /// The handle of a scope.
    pub fn new(scope: u64, scopes: &ScopeTree) -> (r: Self)
        requires
            scopes@.contains_key(scope),
        ensures
            r.scope() == scope,
            r.owner() == scopes@[scope].data.token,
    {
        ScopeHandle { scope, token: scopes.scope(scope).token }
    }

    /// The token of the request or task that owns the scope.
    pub closed spec fn owner(&self) -> CancelToken {
        self.token
    }

    /// The token of the request or task that owns the scope.  The tokens
    /// of tasks spawned through the handle are its children.
    pub fn token(&self) -> (r: CancelToken)
        ensures
            r == self.owner(),
    {
        self.token
    }

    /// Start a host task in the scope at `now`, with the scope's grace.
    pub fn spawn_local(&self, now: u128, scopes: &mut ScopeTree, tokens: &mut TokenTree) -> (r:
        ScopedTask)
        requires
            old(scopes).wf(),
            old(tokens).wf(),
            tied(old(scopes)@, old(tokens)@),
            old(scopes)@.contains_key(self.scope()),
            old(scopes).next() < u64::MAX,
            old(tokens).next() < u64::MAX,
        ensures
            final(scopes).wf(),
            final(tokens).wf(),
            tied(final(scopes)@, final(tokens)@),
            r.fits(final(scopes)@, final(tokens)@),
            !r.detached(),
            spawns(
                old(scopes)@,
                old(scopes).next(),
                old(tokens)@,
                old(tokens).next(),
                self.scope(),
                old(scopes)@[self.scope()].data.grace,
                now,
                r.spawned(),
                final(scopes)@,
                final(tokens)@,
            ),
    {
        let grace: u128 = scopes.scope(self.scope).grace;
        match scopes.spawn(self.scope, grace, now, tokens) {
            Spawned::Started { task, token } => ScopedTask {
                task: Some(task),
                token,
                detached: false,
            },
            Spawned::Refused { token } => ScopedTask { task: None, token, detached: false },
        }
    }
}

/// A host task started with [`ScopeHandle::spawn_local`].
///
/// Await it for the task's output, drop it to cancel the task now, or
/// detach it to let the task run on in its scope without a handle.
#[must_use]
pub struct ScopedTask {
    /// The task, `None` when nothing was started.
    task: Option<u64>,
    token: CancelToken,
    /// The drop then leaves the task alone.
    detached: bool,
}

/// Whether a task has finished; one that was never started has.
pub open spec fn finished(task: Option<u64>, m: Scopes) -> bool {
    match task {
        Some(id) => m[id].data.done,
        None => true,
    }
}

impl ScopedTask {
    /// The task, `None` when nothing was started.
    pub closed spec fn task(&self) -> Option<u64> {
        self.task
    }

    /// The task's token.
    pub closed spec fn token(&self) -> CancelToken {
        self.token
    }

    /// The handle was detached.
    pub closed spec fn detached(&self) -> bool {
        self.detached
    }

    /// What the spawn of the task came to.
    pub open spec fn spawned(&self) -> Spawned {
        match self.task() {
            Some(task) => Spawned::Started { task, token: self.token() },
            None => Spawned::Refused { token: self.token() },
        }
    }

    /// The task and its token are known.
    pub open spec fn fits(&self, m: Scopes, t: Tokens) -> bool {
        &&& self.task() matches Some(id) ==> m.contains_key(id)
        &&& t.contains_key(self.token().id())
    }

    /// What the spawn of the task came to.
    pub fn outcome(&self) -> (r: Spawned)
        ensures
            r == self.spawned(),
    {
        match self.task {
            Some(task) => Spawned::Started { task, token: self.token },
            None => Spawned::Refused { token: self.token },
        }
    }

    /// Let the task run on without this handle.
    pub fn detach(&mut self)
        ensures
            final(self).task() == old(self).task(),
            final(self).token() == old(self).token(),
            final(self).detached(),
    {
        self.detached = true;
    }

    /// Whether the task has finished.
    pub fn is_done(&self, scopes: &ScopeTree) -> (r: bool)
        requires
            self.task() matches Some(id) ==> scopes@.contains_key(id),
        ensures
            r == finished(self.task(), scopes@),
    {
        match self.task {
            Some(id) => scopes.scope(id).done,
            None => true,
        }
    }

    /// The task's output: `None` while it runs; once it has finished, what
    /// it left in its slot, or [`IsleError::Cancelled`] when it left
    /// nothing.
    pub fn poll<T>(&self, scopes: &ScopeTree, slot: Option<T>) -> (r: Option<Result<T, IsleError>>)
        requires
            self.task() matches Some(id) ==> scopes@.contains_key(id),
        ensures
            if !finished(self.task(), scopes@) {
                r is None
            } else {
                match slot {
                    Some(v) => r == Some(Ok::<T, IsleError>(v)),
                    None => r matches Some(Err(e)) && e@ == IsleErrorView::Cancelled,
                }
            },
    {
        if !self.is_done(scopes) {
            return None;
        }
        match slot {
            Some(v) => Some(Ok(v)),
            None => Some(Err(IsleError::Cancelled)),
        }
    }

    /// The handle is dropped: a task that has not finished is cancelled,
    /// unless it was detached.
    pub fn let_go(self, scopes: &ScopeTree, tokens: &mut TokenTree)
        requires
            old(tokens).wf(),
            self.fits(scopes@, old(tokens)@),
        ensures
            final(tokens).wf(),
            final(tokens).next() == old(tokens).next(),
            final(tokens)@ == if self.detached() || finished(self.task(), scopes@) {
                old(tokens)@
            } else {
                replaced(old(tokens)@, self.token().id(), true)
            },
    {
        if !self.detached && !self.is_done(scopes) {
            self.token.cancel(tokens);
        }
    }
}

/// The earlier of two times, where `None` is no time at all.
fn sooner(a: Option<u128>, b: Option<u128>) -> (r: Option<u128>)
    ensures
        r == earlier(a, b),
{
    match (a, b) {
        (Some(x), Some(y)) => Some(if x <= y {
            x
        } else {
            y
        }),
        (Some(x), None) => Some(x),
        (None, y) => y,
    }
}

/// No scope under `root` was dropped before it had waited for its tasks.
pub open spec fn all_waited(m: Scopes, root: u64) -> bool {
    forall|d: u64| #[trigger] m.contains_key(d) && above(m, root, d) ==> !m[d].data.abandoned
}

/// When a scope has closed, nothing that was started under it, directly or
/// through other tasks, is alive: every such task has finished.
///
/// (A scope whose future was dropped early waits for nothing, so the law
/// speaks of trees in which that did not happen.)
pub proof fn law_closed_scope_leaves_nothing_alive(m: Scopes, next: u64, root: u64, task: u64)
    requires
        linked(m, next),
        sound(m),
        m.contains_key(root),
        m[root].data.phase == Phase::Closed,
        all_waited(m, root),
        m.contains_key(task),
        above(m, root, task),
        task != root,
    ensures
        m[task].data.done,
    decreases task,
{
    let p = m[task].parent->0;
    assert(m.contains_key(p));
    assert(above(m, root, root));
    if p != root {
        law_closed_scope_leaves_nothing_alive(m, next, root, p);
    }
    assert(sound_at(m, p));
    assert(m[p].children.contains(task));
}

/// A task leaves the tree only after it has finished.
pub proof fn law_only_finished_tasks_leave(m: Scopes, next: u64, id: u64, task: u64)
    requires
        linked(m, next),
        sound(m),
        m.contains_key(id),
        m[id].data.done,
        m.contains_key(task),
        !forest::released(m, id).contains_key(task),
    ensures
        m[task].data.done,
{
    forest::law_release_keeps_the_rest(m, id, next);
    assert(sound_at(m, task));
}

/// The tokens of a scope and of a task under it stand in the same relation.
proof fn lemma_tokens_above(m: Scopes, next: u64, t: Tokens, last: u64, root: u64, task: u64)
    requires
        linked(m, next),
        linked(t, last),
        tied(m, t),
        m.contains_key(root),
        m.contains_key(task),
        above(m, root, task),
    ensures
        above(t, m[root].data.token.id(), m[task].data.token.id()),
    decreases task,
{
    if root != task {
        let p = m[task].parent->0;
        lemma_tokens_above(m, next, t, last, root, p);
        assert(t.contains_key(m[task].data.token.id()));
    }
}

/// Cancelling the token of a request or task cancels every task under it.
pub proof fn law_cancel_reaches_every_task(
    m: Scopes,
    next: u64,
    t: Tokens,
    last: u64,
    root: u64,
    task: u64,
)
    requires
        linked(m, next),
        linked(t, last),
        tied(m, t),
        m.contains_key(root),
        m.contains_key(task),
        above(m, root, task),
    ensures
        cancelled(replaced(t, m[root].data.token.id(), true), m[task].data.token.id()),
{
    lemma_tokens_above(m, next, t, last, root, task);
    hook::law_cancel_reaches_exactly_the_descendants(
        t,
        last,
        m[root].data.token.id(),
        m[task].data.token.id(),
    );
}

/// Whatever others do to the tree of tokens (making tokens, cancelling
/// them, letting go of tokens that no scope holds), the scopes stay tied.
pub proof fn law_scopes_stay_tied(m: Scopes, t: Tokens, u: Tokens)
    requires
        tied(m, t),
        forall|id: u64| #[trigger]
            m.contains_key(id) ==> {
                let token = m[id].data.token.id();
                &&& u.contains_key(token)
                &&& u[token].parent == t[token].parent
                &&& cancelled(t, token) ==> cancelled(u, token)
            },
    ensures
        tied(m, u),
{
}

/// The grace of a task is no longer than that of the scope it runs in.
pub open spec fn graces_nested(m: Scopes) -> bool {
    forall|id: u64|
        #[trigger] m.contains_key(id) ==> (m[id].parent matches Some(p) ==> m[id].data.grace
            <= m[p].data.grace)
}

/// No scope that has a deadline ends after a scope above it that has one.
pub open spec fn deadlines_nested(m: Scopes) -> bool {
    forall|id: u64, a: u64|
        m.contains_key(id) && m.contains_key(a) && #[trigger] above(m, a, id) && m[id].data.deadline
            is Some && m[a].data.deadline is Some ==> m[id].data.deadline->0
            <= m[a].data.deadline->0
}

/// Every deadline was taken at `now` or before.
pub open spec fn taken_by(m: Scopes, now: u128) -> bool {
    forall|id: u64|
        #[trigger] m.contains_key(id) && m[id].data.deadline is Some ==> m[id].data.deadline->0
            <= now + m[id].data.grace
}

/// The deadlines of a tree are one deadline: a task never has more time
/// than the request or task it runs in.
pub open spec fn one_deadline(m: Scopes, now: u128) -> bool {
    graces_nested(m) && deadlines_nested(m) && taken_by(m, now)
}

proof fn lemma_grace_above(m: Scopes, next: u64, a: u64, id: u64)
    requires
        linked(m, next),
        graces_nested(m),
        m.contains_key(id),
        above(m, a, id),
    ensures
        m.contains_key(a),
        m[id].data.grace <= m[a].data.grace,
    decreases id,
{
    if a != id {
        lemma_grace_above(m, next, a, m[id].parent->0);
    }
}

proof fn lemma_ancestors_deadline(m: Scopes, next: u64, id: u64)
    requires
        linked(m, next),
        m.contains_key(id),
    ensures
        forall|a: u64| #[trigger]
            above(m, a, id) && a != id && m[a].data.deadline is Some ==> ancestors_deadline(
                m,
                id,
            ) is Some && ancestors_deadline(m, id)->0 <= m[a].data.deadline->0,
        ancestors_deadline(m, id) matches Some(d) ==> exists|a: u64| #[trigger]
            above(m, a, id) && a != id && m.contains_key(a) && m[a].data.deadline == Some(d),
    decreases id,
{
    match m[id].parent {
        Some(p) => {
            lemma_ancestors_deadline(m, next, p);
            assert(above(m, p, p));
            assert(above(m, p, id));
            assert forall|a: u64| #[trigger]
                above(m, a, id) && a != id && m[a].data.deadline is Some implies ancestors_deadline(
                m,
                id,
            ) is Some && ancestors_deadline(m, id)->0 <= m[a].data.deadline->0 by {
                assert(above(m, a, p));
            }
            if ancestors_deadline(m, id) != m[p].data.deadline && ancestors_deadline(m, id) is Some {
                let d = ancestors_deadline(m, p)->0;
                let a = choose|a: u64| #[trigger]
                    above(m, a, p) && a != p && m.contains_key(a) && m[a].data.deadline == Some(d);
                lemma_above_le(m, a, p);
                assert(above(m, a, id));
            }
        },
        None => {},
    }
}

proof fn lemma_above_transitive(m: Scopes, a: u64, b: u64, c: u64)
    requires
        above(m, a, b),
        above(m, b, c),
    ensures
        above(m, a, c),
    decreases c,
{
    if b != c {
        lemma_above_transitive(m, a, b, m[c].parent->0);
    }
}

proof fn lemma_above_le(m: Scopes, a: u64, b: u64)
    requires
        above(m, a, b),
    ensures
        a <= b,
    decreases b,
{
    if a != b {
        lemma_above_le(m, a, m[b].parent->0);
    }
}

/// A scope that is replaced by one with the same links has the same scopes
/// above and below it.
proof fn lemma_above_same(m: Scopes, n: Scopes, a: u64, b: u64)
    requires
        forall|id: u64| #[trigger] n[id].parent == m[id].parent,
    ensures
        above(n, a, b) == above(m, a, b),
    decreases b,
{
    assert(n[b].parent == m[b].parent);
    match m[b].parent {
        Some(p) => if p < b {
            lemma_above_same(m, n, a, p);
        },
        None => {},
    }
}

/// Taking a deadline keeps the deadlines of the tree one deadline, as long
/// as the clock does not run backwards.
pub proof fn law_taking_a_deadline_keeps_one_deadline(
    m: Scopes,
    next: u64,
    id: u64,
    before: u128,
    now: u128,
    after: Scope,
)
    requires
        linked(m, next),
        one_deadline(m, before),
        before <= now,
        m.contains_key(id),
        m[id].data.deadline is None,
        now + m[id].data.grace <= u128::MAX,
        after.grace == m[id].data.grace,
        after.deadline == Some(deadline_at(m, id, now)),
    ensures
        one_deadline(replaced(m, id, after), now),
{
    let n = replaced(m, id, after);
    lemma_ancestors_deadline(m, next, id);
    assert forall|x: u64| #[trigger] n[x].parent == m[x].parent by {}
    assert forall|x: u64, a: u64|
        n.contains_key(x) && n.contains_key(a) && #[trigger] above(n, a, x) && n[x].data.deadline
            is Some && n[a].data.deadline is Some implies n[x].data.deadline->0
        <= n[a].data.deadline->0 by {
        lemma_above_same(m, n, a, x);
        if a != x {
            if x == id {
                assert(above(m, a, id));
            } else if a == id {
                lemma_grace_above(m, next, id, x);
                if ancestors_deadline(m, id) is Some {
                    let b = choose|b: u64| #[trigger]
                        above(m, b, id) && b != id && m.contains_key(b) && m[b].data.deadline
                            == ancestors_deadline(m, id);
                    lemma_above_transitive(m, b, id, x);
                }
            }
        }
    }
    assert forall|x: u64| #[trigger] n.contains_key(x) implies (n[x].parent matches Some(p)
        ==> n[x].data.grace <= n[p].data.grace) by {
        assert(m.contains_key(x));
    }
    assert forall|x: u64| #[trigger]
        n.contains_key(x) && n[x].data.deadline is Some implies n[x].data.deadline->0 <= now
        + n[x].data.grace by {
        assert(m.contains_key(x));
    }
}

/// Spawning a task whose grace is that of its scope, or less, keeps the
/// deadlines of the tree one deadline.
pub proof fn law_spawning_keeps_one_deadline(
    m: Scopes,
    id: u64,
    owner: u64,
    token: CancelToken,
    grace: u128,
    now: u128,
)
    requires
        linked(m, id),
        one_deadline(m, now),
        m.contains_key(owner),
        grace <= m[owner].data.grace,
    ensures
        one_deadline(added(m, id, Some(owner), fresh(token, grace)), now),
{
    let n = added(m, id, Some(owner), fresh(token, grace));
    assert forall|x: u64, a: u64|
        n.contains_key(x) && n.contains_key(a) && #[trigger] above(n, a, x) && n[x].data.deadline
            is Some && n[a].data.deadline is Some implies n[x].data.deadline->0
        <= n[a].data.deadline->0 by {
        assert(x != id && a != id);
        lemma_above_added(m, id, owner, token, grace, a, x);
    }
    assert forall|x: u64| #[trigger] n.contains_key(x) implies (n[x].parent matches Some(p)
        ==> n[x].data.grace <= n[p].data.grace) by {
        if x != id {
            assert(m.contains_key(x));
        }
    }
    assert forall|x: u64| #[trigger]
        n.contains_key(x) && n[x].data.deadline is Some implies n[x].data.deadline->0 <= now
        + n[x].data.grace by {
        assert(m.contains_key(x));
    }
}

proof fn lemma_above_added(
    m: Scopes,
    id: u64,
    owner: u64,
    token: CancelToken,
    grace: u128,
    a: u64,
    x: u64,
)
    requires
        linked(m, id),
        m.contains_key(owner),
        m.contains_key(x),
    ensures
        above(added(m, id, Some(owner), fresh(token, grace)), a, x) == above(m, a, x),
    decreases x,
{
    match m[x].parent {
        Some(p) => {
            lemma_above_added(m, id, owner, token, grace, a, p);
        },
        None => {},
    }
}

/// When the run of a request or task resolves, nothing that it started,
/// directly or through other tasks, is alive.
pub proof fn law_resolved_run_leaves_nothing_alive(
    before: Scopes,
    after: Scopes,
    next: u64,
    root: u64,
    returned: bool,
    task: u64,
)
    requires
        before.contains_key(root),
        drains(before, root, after, returned, RunAction::Resolve { finished: returned }),
        linked(after, next),
        sound(after),
        all_waited(after, root),
        after.contains_key(task),
        above(after, root, task),
        task != root,
    ensures
        after[task].data.done,
{
    law_closed_scope_leaves_nothing_alive(after, next, root, task);
}

/// Once a scope has closed, a spawn into it starts nothing, and neither
/// does a spawn into an ending scope whose time has run out: the task
/// counts as cancelled.
pub proof fn law_late_spawn_starts_nothing(
    m: Scopes,
    next: u64,
    t: Tokens,
    last: u64,
    owner: u64,
    grace: u128,
    now: u128,
    r: Spawned,
    n: Scopes,
    u: Tokens,
)
    requires
        spawns(m, next, t, last, owner, grace, now, r, n, u),
        ({
            ||| m[owner].data.phase == Phase::Closed
            ||| m[owner].data.phase == Phase::Draining && m[owner].data.deadline is Some
                && m[owner].data.deadline->0 <= now
        }),
    ensures
        r is Refused,
        n == m,
        cancelled(u, spawned_token(r).id()),
{
}

/// A task spawned into an ending scope is cancelled at once.
pub proof fn law_spawn_into_an_ending_scope_is_cancelled(
    m: Scopes,
    next: u64,
    t: Tokens,
    last: u64,
    owner: u64,
    grace: u128,
    now: u128,
    r: Spawned,
    n: Scopes,
    u: Tokens,
)
    requires
        spawns(m, next, t, last, owner, grace, now, r, n, u),
        m[owner].data.phase == Phase::Draining,
    ensures
        cancelled(u, spawned_token(r).id()),
{
}

/// A task gets no more time than the scope it runs in has left, and no more
/// than its own grace.
pub proof fn law_task_shares_the_remaining_time(m: Scopes, next: u64, task: u64, now: u128)
    requires
        linked(m, next),
        m.contains_key(task),
        now + m[task].data.grace <= u128::MAX,
    ensures
        deadline_at(m, task, now) <= now + m[task].data.grace,
        m[task].parent matches Some(p) ==> (m[p].data.deadline matches Some(d) ==> deadline_at(
            m,
            task,
            now,
        ) <= d),
{
}

/// Cancelling the tokens of `tasks` one by one cancels them and what
/// descends from them.
proof fn lemma_cancelled_each(t: Tokens, last: u64, m: Scopes, tasks: Seq<u64>, d: u64)
    requires
        linked(t, last),
        forall|i: int|
            0 <= i < tasks.len() ==> t.contains_key(m[#[trigger] tasks[i]].data.token.id()),
        t.contains_key(d),
    ensures
        linked(cancelled_each(t, m, tasks), last),
        cancelled_each(t, m, tasks).dom() == t.dom(),
        forall|x: u64| #[trigger] cancelled_each(t, m, tasks)[x].parent == t[x].parent,
        cancelled(cancelled_each(t, m, tasks), d) <==> cancelled(t, d) || exists|c: u64|
            #[trigger] tasks.contains(c) && above(t, m[c].data.token.id(), d),
    decreases tasks.len(),
{
    if tasks.len() > 0 {
        let front = tasks.drop_last();
        let c = tasks.last();
        let token = m[c].data.token.id();
        assert forall|i: int| 0 <= i < front.len() implies t.contains_key(
            m[#[trigger] front[i]].data.token.id(),
        ) by {
            assert(front[i] == tasks[i]);
        }
        lemma_cancelled_each(t, last, m, front, d);
        let u = cancelled_each(t, m, front);
        assert(tasks[tasks.len() - 1] == c);
        assert(u.contains_key(token));
        hook::law_cancel_reaches_exactly_the_descendants(u, last, token, d);
        lemma_above_by_parents(t, u, token, d);
        let v = replaced(u, token, true);
        assert(v.dom() =~= t.dom());
        lemma_flag_keeps_links(u, last, token);
        if exists|x: u64| #[trigger] front.contains(x) && above(t, m[x].data.token.id(), d) {
            let x = choose|x: u64| #[trigger]
                front.contains(x) && above(t, m[x].data.token.id(), d);
            let i = choose|i: int| 0 <= i < front.len() && front[i] == x;
            assert(tasks[i] == x);
            assert(tasks.contains(x));
        }
        if exists|x: u64| #[trigger] tasks.contains(x) && above(t, m[x].data.token.id(), d) {
            let x = choose|x: u64| #[trigger]
                tasks.contains(x) && above(t, m[x].data.token.id(), d);
            let i = choose|i: int| 0 <= i < tasks.len() && tasks[i] == x;
            if i < front.len() {
                assert(front[i] == x);
                assert(front.contains(x));
            }
        }
        assert(tasks.contains(c));
    }
}

proof fn lemma_flag_keeps_links(t: Tokens, last: u64, id: u64)
    requires
        linked(t, last),
        t.contains_key(id),
    ensures
        linked(replaced(t, id, true), last),
{
    let u = replaced(t, id, true);
    assert forall|x: u64, c: u64|
        u.contains_key(x) && #[trigger] u[x].children.contains(c) implies u.contains_key(c)
            && u[c].parent == Some(x) by {
        assert(t.contains_key(x) && t[x].children.contains(c));
    }
    assert forall|x: u64| #[trigger] u.contains_key(x) implies (u[x].parent matches Some(p) ==> {
        &&& p < x
        &&& u.contains_key(p)
        &&& u[p].children.contains(x)
    }) by {
        assert(t.contains_key(x));
    }
}

proof fn lemma_above_by_parents(t: Tokens, u: Tokens, a: u64, d: u64)
    requires
        forall|x: u64| #[trigger] u[x].parent == t[x].parent,
    ensures
        above(u, a, d) == above(t, a, d),
    decreases d,
{
    assert(u[d].parent == t[d].parent);
    match t[d].parent {
        Some(p) => if p < d {
            lemma_above_by_parents(t, u, a, p);
        },
        None => {},
    }
}

/// `u` is `t` after the tasks of the scope `id` were cancelled: exactly their
/// tokens, and those that descend from them, are cancelled besides those that
/// were.
spec fn only_tasks_cancelled(m: Scopes, id: u64, t: Tokens, u: Tokens) -> bool {
    &&& u.dom() == t.dom()
    &&& forall|d: u64| #[trigger]
        t.contains_key(d) ==> (cancelled(u, d) <==> cancelled(t, d) || exists|c: u64|
            #[trigger] m[id].children.contains(c) && above(t, m[c].data.token.id(), d))
}

proof fn lemma_only_tasks_cancelled(m: Scopes, next: u64, t: Tokens, last: u64, id: u64)
    requires
        linked(m, next),
        linked(t, last),
        tied(m, t),
        m.contains_key(id),
    ensures
        only_tasks_cancelled(m, id, t, cancelled_each(t, m, m[id].children)),
        forall|a: u64, c: u64|
            m.contains_key(a) && above(m, a, id) && #[trigger] m[id].children.contains(c)
                ==> !#[trigger] above(t, m[c].data.token.id(), m[a].data.token.id()),
{
    let tasks = m[id].children;
    let u = cancelled_each(t, m, tasks);
    assert forall|i: int| 0 <= i < tasks.len() implies t.contains_key(
        m[#[trigger] tasks[i]].data.token.id(),
    ) by {
        assert(tasks.contains(tasks[i]));
    }
    assert(t.contains_key(m[id].data.token.id()));
    lemma_cancelled_each(t, last, m, tasks, m[id].data.token.id());
    assert forall|d: u64| #[trigger] t.contains_key(d) implies (cancelled(u, d) <==> cancelled(t, d)
        || exists|c: u64| #[trigger]
        tasks.contains(c) && above(t, m[c].data.token.id(), d)) by {
        lemma_cancelled_each(t, last, m, tasks, d);
    }
    assert forall|a: u64, c: u64|
        m.contains_key(a) && above(m, a, id) && #[trigger] tasks.contains(c) implies !#[trigger] above(
        t,
        m[c].data.token.id(),
        m[a].data.token.id(),
    ) by {
        let own = m[id].data.token.id();
        let task = m[c].data.token.id();
        assert(m.contains_key(c) && m[c].parent == Some(id));
        assert(t.contains_key(task) && t[task].parent == Some(own));
        lemma_tokens_above(m, next, t, last, a, id);
        forest::lemma_above_is_no_larger(t, m[a].data.token.id(), own);
        if above(t, task, m[a].data.token.id()) {
            forest::lemma_above_is_no_larger(t, task, m[a].data.token.id());
        }
    }
}

/// The tasks of a scope above `id` do not descend from the tasks of `id`.
proof fn lemma_other_tasks_stand_apart(
    m: Scopes,
    next: u64,
    t: Tokens,
    last: u64,
    id: u64,
    a: u64,
    b: u64,
)
    requires
        linked(m, next),
        linked(t, last),
        tied(m, t),
        m.contains_key(id),
        m.contains_key(a),
        above(m, a, id),
        a != id,
        m[a].children.contains(b),
    ensures
        t.contains_key(m[b].data.token.id()),
        forall|c: u64| #[trigger]
            m[id].children.contains(c) ==> !above(
                t,
                m[c].data.token.id(),
                m[b].data.token.id(),
            ),
{
    let p = m[id].parent->0;
    let own = m[id].data.token.id();
    let spawner = m[a].data.token.id();
    let other = m[b].data.token.id();
    assert(m.contains_key(b) && m[b].parent == Some(a));
    assert(m.contains_key(p));
    assert(t.contains_key(own) && t.contains_key(other));
    lemma_tokens_above(m, next, t, last, a, p);
    forest::lemma_above_is_no_larger(t, spawner, m[p].data.token.id());
    assert forall|c: u64| #[trigger] m[id].children.contains(c) implies !above(
        t,
        m[c].data.token.id(),
        other,
    ) by {
        let task = m[c].data.token.id();
        assert(m.contains_key(c) && m[c].parent == Some(id));
        assert(t.contains_key(task));
        if above(t, task, other) && task != other {
            forest::lemma_above_is_no_larger(t, task, spawner);
        }
    }
}

/// When the body of a scope ends, exactly the tokens of the scope's own
/// tasks, and those that descend from them, are cancelled.  The token of the
/// scope itself, those of the scopes above it, and those of their other
/// tasks, stay as they were.
pub proof fn law_an_ending_scope_cancels_its_own_tasks(id: u64, now: u128, a: u64, b: u64)
    ensures
        forall|scopes: &mut ScopeTree, tokens: &mut TokenTree, r: ()| #[trigger]
            call_ensures(ScopeTree::body_ended, (scopes, id, now, tokens), r) && scopes.wf()
                && tokens.wf() && tied(scopes@, tokens@) && scopes@.contains_key(id) ==> {
                let m = scopes@;
                let t = tokens@;
                let u = final(tokens)@;
                &&& u.dom() == t.dom()
                &&& forall|d: u64| #[trigger]
                    t.contains_key(d) ==> (cancelled(u, d) <==> cancelled(t, d) || exists|c: u64|
                        #[trigger] m[id].children.contains(c) && above(t, m[c].data.token.id(), d))
                &&& m.contains_key(a) && above(m, a, id) ==> cancelled(u, m[a].data.token.id())
                    == cancelled(t, m[a].data.token.id())
                &&& m.contains_key(a) && above(m, a, id) && a != id && m[a].children.contains(b)
                    ==> cancelled(u, m[b].data.token.id()) == cancelled(t, m[b].data.token.id())
            },
{
    assert forall|scopes: &mut ScopeTree, tokens: &mut TokenTree, r: ()| #[trigger]
        call_ensures(ScopeTree::body_ended, (scopes, id, now, tokens), r) && scopes.wf()
            && tokens.wf() && tied(scopes@, tokens@) && scopes@.contains_key(id) implies {
        let m = scopes@;
        &&& only_tasks_cancelled(m, id, tokens@, final(tokens)@)
        &&& m.contains_key(a) && above(m, a, id) && a != id && m[a].children.contains(b)
            ==> cancelled(final(tokens)@, m[b].data.token.id()) == cancelled(
            tokens@,
            m[b].data.token.id(),
        )
        &&& m.contains_key(a) && above(m, a, id) ==> cancelled(
            final(tokens)@,
            m[a].data.token.id(),
        ) == cancelled(tokens@, m[a].data.token.id())
    } by {
        scopes.lemma_wf();
        tokens.lemma_wf();
        lemma_only_tasks_cancelled(scopes@, scopes.next(), tokens@, tokens.next(), id);
        if scopes@.contains_key(a) {
            assert(tokens@.contains_key(scopes@[a].data.token.id()));
            if above(scopes@, a, id) && a != id && scopes@[a].children.contains(b) {
                lemma_other_tasks_stand_apart(
                    scopes@,
                    scopes.next(),
                    tokens@,
                    tokens.next(),
                    id,
                    a,
                    b,
                );
            }
        }
    }
}

/// A scope whose future is dropped before it closed cancels its own tasks,
/// and no others, closes without waiting, and names those of its tasks that
/// have not finished; one that had closed changes nothing.
pub proof fn law_a_dropped_scope_cancels_its_own_tasks(id: u64, a: u64, b: u64)
    ensures
        forall|scopes: &mut ScopeTree, tokens: &mut TokenTree, abort: Vec<u64>| #[trigger]
            call_ensures(ScopeTree::abandon, (scopes, id, tokens), abort) && scopes.wf()
                && tokens.wf() && tied(scopes@, tokens@) && scopes@.contains_key(id) ==> {
                let m = scopes@;
                let n = final(scopes)@;
                let t = tokens@;
                let u = final(tokens)@;
                &&& m[id].data.phase == Phase::Closed ==> n == m && u == t && abort@.len() == 0
                &&& n.dom() == m.dom()
                &&& u.dom() == t.dom()
                &&& m[id].data.phase != Phase::Closed ==> {
                    &&& forall|d: u64| #[trigger]
                        t.contains_key(d) ==> (cancelled(u, d) <==> cancelled(t, d) || exists|
                            c: u64,
                        | #[trigger] m[id].children.contains(c) && above(t, m[c].data.token.id(), d))
                    &&& m.contains_key(a) && above(m, a, id) ==> cancelled(
                        u,
                        m[a].data.token.id(),
                    ) == cancelled(t, m[a].data.token.id())
                    &&& m.contains_key(a) && above(m, a, id) && a != id && m[a].children.contains(b)
                        ==> cancelled(u, m[b].data.token.id()) == cancelled(
                        t,
                        m[b].data.token.id(),
                    )
                    &&& n[id].data.phase == Phase::Closed
                    &&& n[id].data.abandoned
                    &&& n[id].data.done == m[id].data.done
                    &&& n[id].data.deadline == m[id].data.deadline
                    &&& forall|c: u64| #[trigger]
                        abort@.contains(c) <==> m[id].children.contains(c) && !m[c].data.done
                    &&& a != id && m.contains_key(a) ==> n.contains_key(a) && n[a] == m[a]
                }
            },
{
    assert forall|scopes: &mut ScopeTree, tokens: &mut TokenTree, abort: Vec<u64>| #[trigger]
        call_ensures(ScopeTree::abandon, (scopes, id, tokens), abort) && scopes.wf()
            && tokens.wf() && tied(scopes@, tokens@) && scopes@.contains_key(id)
            && scopes@[id].data.phase != Phase::Closed implies {
        let m = scopes@;
        &&& only_tasks_cancelled(m, id, tokens@, final(tokens)@)
        &&& m.contains_key(a) && above(m, a, id) && a != id && m[a].children.contains(b)
            ==> cancelled(final(tokens)@, m[b].data.token.id()) == cancelled(
            tokens@,
            m[b].data.token.id(),
        )
        &&& m.contains_key(a) && above(m, a, id) ==> cancelled(
            final(tokens)@,
            m[a].data.token.id(),
        ) == cancelled(tokens@, m[a].data.token.id())
    } by {
        scopes.lemma_wf();
        tokens.lemma_wf();
        lemma_only_tasks_cancelled(scopes@, scopes.next(), tokens@, tokens.next(), id);
        if scopes@.contains_key(a) {
            assert(tokens@.contains_key(scopes@[a].data.token.id()));
            if above(scopes@, a, id) && a != id && scopes@[a].children.contains(b) {
                lemma_other_tasks_stand_apart(
                    scopes@,
                    scopes.next(),
                    tokens@,
                    tokens.next(),
                    id,
                    a,
                    b,
                );
            }
        }
    }
}

/// `deadline` is the time that the scope `id` has from `now` on: its own
/// grace, or, if that is sooner, the soonest deadline of those above it.
spec fn soonest(m: Scopes, id: u64, now: u128, deadline: u128) -> bool {
    &&& deadline <= now + m[id].data.grace
    &&& forall|a: u64| #[trigger]
        above(m, a, id) && a != id ==> (m[a].data.deadline matches Some(d) ==> deadline <= d)
    &&& deadline == now + m[id].data.grace || exists|a: u64| #[trigger]
        above(m, a, id) && a != id && m[a].data.deadline == Some(deadline)
}

proof fn lemma_soonest(m: Scopes, next: u64, id: u64, now: u128)
    requires
        linked(m, next),
        m.contains_key(id),
        now + m[id].data.grace <= u128::MAX,
    ensures
        soonest(m, id, now, deadline_at(m, id, now)),
{
    lemma_ancestors_deadline(m, next, id);
}

/// A scope that has seen its cancel takes as its deadline its own grace from
/// then on, or the soonest deadline above it if that is sooner; nothing else
/// changes.
pub proof fn law_a_cancel_sets_the_soonest_deadline(id: u64, now: u128, other: u64)
    ensures
        forall|scopes: &mut ScopeTree, deadline: u128| #[trigger]
            call_ensures(ScopeTree::observe_cancel, (scopes, id, now), deadline) && scopes.wf()
                && scopes@.contains_key(id) && now + scopes@[id].data.grace <= u128::MAX ==> {
                let m = scopes@;
                let n = final(scopes)@;
                &&& deadline <= now + m[id].data.grace
                &&& forall|a: u64| #[trigger]
                    above(m, a, id) && a != id ==> (m[a].data.deadline matches Some(d) ==> deadline
                        <= d)
                &&& deadline == now + m[id].data.grace || exists|a: u64| #[trigger]
                    above(m, a, id) && a != id && m[a].data.deadline == Some(deadline)
                &&& n[id].data == (Scope { deadline: Some(deadline), ..m[id].data })
                &&& n[id].parent == m[id].parent && n[id].children == m[id].children
                &&& n.dom() == m.dom()
                &&& other != id && m.contains_key(other) ==> n.contains_key(other) && n[other]
                    == m[other]
            },
{
    assert forall|scopes: &mut ScopeTree, deadline: u128| #[trigger]
        call_ensures(ScopeTree::observe_cancel, (scopes, id, now), deadline) && scopes.wf()
            && scopes@.contains_key(id) && now + scopes@[id].data.grace <= u128::MAX implies soonest(
        scopes@,
        id,
        now,
        deadline,
    ) by {
        scopes.lemma_wf();
        lemma_soonest(scopes@, scopes.next(), id, now);
    }
}

/// A scope whose body has ended takes no new deadline if it has one, and else
/// the soonest, as at a cancel; it is ending, and nothing else changes.
pub proof fn law_an_ended_body_keeps_its_deadline(id: u64, now: u128, other: u64)
    ensures
        forall|scopes: &mut ScopeTree, tokens: &mut TokenTree, r: ()| #[trigger]
            call_ensures(ScopeTree::body_ended, (scopes, id, now, tokens), r) && scopes.wf()
                && scopes@.contains_key(id) && now + scopes@[id].data.grace <= u128::MAX ==> {
                let m = scopes@;
                let n = final(scopes)@;
                &&& n[id].data.deadline matches Some(deadline) && {
                    &&& m[id].data.deadline is Some ==> m[id].data.deadline == Some(deadline)
                    &&& m[id].data.deadline is None ==> {
                        &&& deadline <= now + m[id].data.grace
                        &&& forall|a: u64| #[trigger]
                            above(m, a, id) && a != id ==> (m[a].data.deadline matches Some(d)
                                ==> deadline <= d)
                        &&& deadline == now + m[id].data.grace || exists|a: u64| #[trigger]
                            above(m, a, id) && a != id && m[a].data.deadline == Some(deadline)
                    }
                }
                &&& n[id].data.phase == Phase::Draining
                &&& n[id].data.token == m[id].data.token
                &&& n[id].data.grace == m[id].data.grace
                &&& n[id].data.done == m[id].data.done
                &&& n[id].data.abandoned == m[id].data.abandoned
                &&& n[id].parent == m[id].parent && n[id].children == m[id].children
                &&& n.dom() == m.dom()
                &&& other != id && m.contains_key(other) ==> n.contains_key(other) && n[other]
                    == m[other]
            },
{
    assert forall|scopes: &mut ScopeTree, tokens: &mut TokenTree, r: ()| #[trigger]
        call_ensures(ScopeTree::body_ended, (scopes, id, now, tokens), r) && scopes.wf()
            && scopes@.contains_key(id) && now + scopes@[id].data.grace <= u128::MAX
            && scopes@[id].data.deadline is None implies soonest(
        scopes@,
        id,
        now,
        final(scopes)@[id].data.deadline->0,
    ) by {
        scopes.lemma_wf();
        lemma_soonest(scopes@, scopes.next(), id, now);
    }
}

/// A task starts exactly if its scope is running, or is ending with time
/// left.  It is then the youngest task of that scope, running, with the grace
/// it is given.  Its token, started or not, is a new child of the scope's
/// token, and is cancelled exactly if the scope's token is or the scope does
/// not run any more.  Nothing changes for any other scope or token.
#[verifier::rlimit(40)]
pub proof fn law_a_task_starts_while_its_scope_has_time(
    owner: u64,
    grace: u128,
    now: u128,
    other: u64,
    d: u64,
)
    ensures
        forall|scopes: &mut ScopeTree, tokens: &mut TokenTree, r: Spawned| #[trigger]
            call_ensures(ScopeTree::spawn, (scopes, owner, grace, now, tokens), r) && scopes.wf()
                && tokens.wf() && tied(scopes@, tokens@) && scopes@.contains_key(owner) ==> {
                let m = scopes@;
                let n = final(scopes)@;
                let t = tokens@;
                let u = final(tokens)@;
                let token = match r {
                    Spawned::Started { token, .. } => token,
                    Spawned::Refused { token } => token,
                };
                &&& r is Started <==> {
                    ||| m[owner].data.phase == Phase::Running
                    ||| m[owner].data.phase == Phase::Draining && !(
                    m[owner].data.deadline matches Some(end) && end <= now)
                }
                &&& r matches Spawned::Started { task, .. } ==> {
                    &&& !m.contains_key(task)
                    &&& n.contains_key(task)
                    &&& n[task].parent == Some(owner)
                    &&& n[task].children.len() == 0
                    &&& n[task].data.token == token
                    &&& n[task].data.grace == grace
                    &&& n[task].data.phase == Phase::Running
                    &&& n[task].data.deadline is None
                    &&& !n[task].data.done && !n[task].data.abandoned
                    &&& n[owner].children == m[owner].children + seq![task]
                    &&& n[owner].parent == m[owner].parent
                    &&& n[owner].data == m[owner].data
                    &&& n.dom() == m.dom().insert(task)
                    &&& other != task && other != owner && m.contains_key(other)
                        ==> n.contains_key(other) && n[other] == m[other]
                }
                &&& r is Refused ==> n == m
                &&& !t.contains_key(token.id())
                &&& u.contains_key(token.id())
                &&& u[token.id()].parent == Some(m[owner].data.token.id())
                &&& u.dom() == t.dom().insert(token.id())
                &&& cancelled(u, token.id()) <==> cancelled(t, m[owner].data.token.id())
                    || m[owner].data.phase != Phase::Running
                &&& t.contains_key(d) ==> u.contains_key(d) && cancelled(u, d) == cancelled(t, d)
            },
{
    assert forall|scopes: &mut ScopeTree, tokens: &mut TokenTree, r: Spawned| #[trigger]
        call_ensures(ScopeTree::spawn, (scopes, owner, grace, now, tokens), r) && scopes.wf()
            && tokens.wf() && tied(scopes@, tokens@) && scopes@.contains_key(owner) implies {
        let m = scopes@;
        let t = tokens@;
        let u = final(tokens)@;
        let last = tokens.next();
        &&& !t.contains_key(last)
        &&& !m.contains_key(scopes.next())
        &&& cancelled(u, last) <==> cancelled(t, m[owner].data.token.id()) || m[owner].data.phase
            != Phase::Running
        &&& t.contains_key(d) ==> u.contains_key(d) && cancelled(u, d) == cancelled(t, d)
    } by {
        let m = scopes@;
        let t = tokens@;
        let last = tokens.next();
        let own = m[owner].data.token.id();
        scopes.lemma_wf();
        tokens.lemma_wf();
        assert(t.contains_key(own));
        let made = added(t, last, Some(own), false);
        let stopped = replaced(made, last, true);
        hook::law_new_token_changes_no_other(t, last, Some(own), own);
        assert(cancelled(made, last) == cancelled(made, own));
        assert(cancelled(stopped, last));
        if t.contains_key(d) {
            hook::law_new_token_changes_no_other(t, last, Some(own), d);
            lemma_youngest_cancels_no_other(made, last, d, t);
        }
    }
}

/// Cancelling a token that nothing descends from changes nothing for others.
proof fn lemma_youngest_cancels_no_other(made: Tokens, last: u64, d: u64, t: Tokens)
    requires
        linked(t, last),
        t.contains_key(d),
        forall|x: u64| #[trigger] t.contains_key(x) ==> made[x].parent == t[x].parent && x < last,
    ensures
        cancelled(replaced(made, last, true), d) == cancelled(made, d),
    decreases d,
{
    match t[d].parent {
        Some(p) => {
            lemma_youngest_cancels_no_other(made, last, p, t);
        },
        None => {},
    }
}

/// A root opens as a running scope of its own, without tasks or a deadline,
/// under the token and with the grace that it is given.
pub proof fn law_a_root_opens_on_its_own(token: CancelToken, grace: u128, other: u64)
    ensures
        forall|scopes: &mut ScopeTree, id: u64| #[trigger]
            call_ensures(ScopeTree::open_root, (scopes, token, grace), id) && scopes.wf() ==> {
                let m = scopes@;
                let n = final(scopes)@;
                &&& !m.contains_key(id)
                &&& n.contains_key(id)
                &&& n[id].parent is None
                &&& n[id].children.len() == 0
                &&& n[id].data.token == token
                &&& n[id].data.grace == grace
                &&& n[id].data.phase == Phase::Running
                &&& n[id].data.deadline is None
                &&& !n[id].data.done && !n[id].data.abandoned
                &&& other != id ==> n.contains_key(other) == m.contains_key(other)
                &&& other != id && m.contains_key(other) ==> n[other] == m[other]
            },
{
    assert forall|scopes: &mut ScopeTree, id: u64| #[trigger]
        call_ensures(ScopeTree::open_root, (scopes, token, grace), id)
            && scopes.wf() implies !scopes@.contains_key(id) by {
        scopes.lemma_wf();
    }
}

/// The task that is waited for next is the oldest that has not finished:
/// every task spawned before it has, and there is none exactly if all have.
pub proof fn law_the_oldest_unfinished_task_is_next(scopes: ScopeTree, id: u64)
    ensures
        forall|r: Option<u64>| #[trigger]
            call_ensures(ScopeTree::next_pending, (&scopes, id), r) ==> {
                let m = scopes@;
                let tasks = m[id].children;
                &&& r matches Some(c) ==> !m[c].data.done && exists|k: int|
                    0 <= k < tasks.len() && #[trigger] tasks[k] == c && forall|j: int|
                        0 <= j < k ==> m[#[trigger] tasks[j]].data.done
                &&& r is None ==> forall|k: int|
                    0 <= k < tasks.len() ==> m[#[trigger] tasks[k]].data.done
            },
{
    assert forall|k: int| 0 <= k < scopes@[id].children.len() implies scopes@[id].children.contains(
        #[trigger] scopes@[id].children[k],
    ) by {}
}

/// Closing a scope and finishing it change its phase and its end, and nothing
/// else of it or of any other; releasing it takes out what nothing needs.
pub proof fn law_closing_and_finishing_change_one_thing(id: u64, other: u64)
    ensures
        forall|scopes: &mut ScopeTree, r: ()| #[trigger]
            call_ensures(ScopeTree::close, (scopes, id), r) && scopes@.contains_key(id) ==> {
                &&& final(scopes)@[id].data == (Scope {
                    phase: Phase::Closed,
                    ..scopes@[id].data
                })
                &&& final(scopes)@[id].children == scopes@[id].children
                &&& final(scopes)@[id].parent == scopes@[id].parent
                &&& other != id && scopes@.contains_key(other) ==> final(scopes)@.contains_key(
                    other,
                ) && final(scopes)@[other] == scopes@[other]
            },
        forall|scopes: &mut ScopeTree, r: ()| #[trigger]
            call_ensures(ScopeTree::finish, (scopes, id), r) && scopes@.contains_key(id) ==> {
                &&& final(scopes)@[id].data == (Scope { done: true, ..scopes@[id].data })
                &&& final(scopes)@[id].children == scopes@[id].children
                &&& final(scopes)@[id].parent == scopes@[id].parent
                &&& other != id && scopes@.contains_key(other) ==> final(scopes)@.contains_key(
                    other,
                ) && final(scopes)@[other] == scopes@[other]
            },
        forall|scopes: &mut ScopeTree, r: ()| #[trigger]
            call_ensures(ScopeTree::release, (scopes, id), r) && scopes.wf()
                && scopes@.contains_key(id) ==> forest::lets_go(
                scopes@,
                final(scopes)@,
                id,
                other,
            ),
{
    assert forall|scopes: &mut ScopeTree, r: ()| #[trigger]
        call_ensures(ScopeTree::release, (scopes, id), r) && scopes.wf() && scopes@.contains_key(
            id,
        ) implies forest::lets_go(scopes@, final(scopes)@, id, other) by {
        scopes.lemma_wf();
        forest::lemma_lets_go(scopes@, id, scopes.next(), other);
    }
}

/// While a body runs: until its cancel is seen it races against the cancel
/// alone.  The cancel, seen once, sets the deadline, and from then on the
/// body races against that, however often the cancel is seen again.  No token
/// is cancelled by any of this.
#[verifier::rlimit(40)]
pub proof fn law_a_running_body_races_the_cancel_then_the_deadline(event: RunEvent, now: u128)
    ensures
        forall|run: &mut Run, scopes: &mut ScopeTree, tokens: &mut TokenTree, r: RunAction|
            #[trigger] call_ensures(Run::step, (run, event, now, scopes, tokens), r)
                && scopes.wf() && run.fits(scopes@) && now + scopes@[run.scope()].data.grace
                <= u128::MAX ==> {
                let id = run.scope();
                let m = scopes@;
                let n = final(scopes)@;
                &&& final(run).scope() == id
                &&& run.stage() != Stage::Drain && final(run).stage() != Stage::Drain
                    ==> final(run).finished() == run.finished()
                &&& run.stage() == Stage::Open && event != RunEvent::BodyDone && event
                    != RunEvent::CancelSeen ==> {
                    &&& r == RunAction::Race
                    &&& final(run).stage() == Stage::Open
                    &&& n == m && final(tokens)@ == tokens@
                }
                &&& run.stage() == Stage::Open && event == RunEvent::CancelSeen ==> {
                    &&& r matches RunAction::RaceUntil(deadline)
                    &&& n == m.insert(
                        id,
                        SlotView {
                            data: Scope { deadline: Some(deadline), ..m[id].data },
                            ..m[id]
                        },
                    )
                    &&& deadline <= now + m[id].data.grace
                    &&& forall|a: u64| #[trigger]
                        above(m, a, id) && a != id ==> (m[a].data.deadline matches Some(d)
                            ==> deadline <= d)
                    &&& deadline == now + m[id].data.grace || exists|a: u64| #[trigger]
                        above(m, a, id) && a != id && m[a].data.deadline == Some(deadline)
                    &&& final(run).stage() == Stage::Grace
                    &&& final(tokens)@ == tokens@
                }
                &&& run.stage() == Stage::Grace && event != RunEvent::BodyDone && event
                    != RunEvent::TimeUp ==> {
                    &&& r matches RunAction::RaceUntil(deadline)
                    &&& m[id].data.deadline == Some(deadline)
                    &&& final(run).stage() == Stage::Grace
                    &&& n == m && final(tokens)@ == tokens@
                }
            },
{
    assert forall|run: &mut Run, scopes: &mut ScopeTree, tokens: &mut TokenTree, r: RunAction|
        #[trigger] call_ensures(Run::step, (run, event, now, scopes, tokens), r) && scopes.wf()
            && run.fits(scopes@) && now + scopes@[run.scope()].data.grace <= u128::MAX implies soonest(
        scopes@,
        run.scope(),
        now,
        deadline_at(scopes@, run.scope(), now),
    ) by {
        scopes.lemma_wf();
        lemma_soonest(scopes@, scopes.next(), run.scope(), now);
    }
}

/// A body that returned, or whose time is up, ends its scope: the scope's own
/// tasks, and no others, are cancelled, and the scope is ending, or has
/// closed if all its tasks have finished.  What the run reports in the end
/// is whether the body returned.
#[verifier::rlimit(40)]
pub proof fn law_an_ended_run_drains(event: RunEvent, now: u128, a: u64)
    ensures
        forall|run: &mut Run, scopes: &mut ScopeTree, tokens: &mut TokenTree, r: RunAction|
            #[trigger] call_ensures(Run::step, (run, event, now, scopes, tokens), r)
                && scopes.wf() && tokens.wf() && tied(scopes@, tokens@) && run.fits(scopes@) && now
                + scopes@[run.scope()].data.grace <= u128::MAX && ({
                ||| run.stage() == Stage::Open && event == RunEvent::BodyDone
                ||| run.stage() == Stage::Grace && (event == RunEvent::BodyDone || event
                    == RunEvent::TimeUp)
            }) ==> {
                let id = run.scope();
                let m = scopes@;
                let n = final(scopes)@;
                let t = tokens@;
                let u = final(tokens)@;
                &&& final(run).stage() == Stage::Drain
                &&& final(run).finished() <==> event == RunEvent::BodyDone
                &&& forall|d: u64| #[trigger]
                    t.contains_key(d) ==> (cancelled(u, d) <==> cancelled(t, d) || exists|c: u64|
                        #[trigger] m[id].children.contains(c) && above(t, m[c].data.token.id(), d))
                &&& m.contains_key(a) && above(m, a, id) ==> cancelled(u, m[a].data.token.id())
                    == cancelled(t, m[a].data.token.id())
                &&& n[id].data.deadline matches Some(deadline) && {
                    &&& m[id].data.deadline is Some ==> m[id].data.deadline == Some(deadline)
                    &&& m[id].data.deadline is None ==> {
                        &&& deadline <= now + m[id].data.grace
                        &&& forall|above_it: u64| #[trigger]
                            above(m, above_it, id) && above_it != id ==> (
                            m[above_it].data.deadline matches Some(d) ==> deadline <= d)
                        &&& deadline == now + m[id].data.grace || exists|above_it: u64| #[trigger]
                            above(m, above_it, id) && above_it != id && m[above_it].data.deadline
                                == Some(deadline)
                    }
                }
                &&& n[id].data.token == m[id].data.token
                &&& n[id].data.grace == m[id].data.grace
                &&& n[id].data.done == m[id].data.done
                &&& n[id].data.abandoned == m[id].data.abandoned
                &&& n[id].parent == m[id].parent && n[id].children == m[id].children
                &&& n.dom() == m.dom() && u.dom() == t.dom()
                &&& a != id && m.contains_key(a) ==> n[a] == m[a]
                &&& match r {
                    RunAction::WaitFor(c) => {
                        &&& n[id].data.phase == Phase::Draining
                        &&& m[id].children.contains(c)
                        &&& !m[c].data.done
                        &&& exists|k: int|
                            0 <= k < m[id].children.len() && #[trigger] m[id].children[k] == c
                                && forall|j: int|
                                0 <= j < k ==> m[#[trigger] m[id].children[j]].data.done
                    },
                    RunAction::Resolve { finished } => {
                        &&& finished <==> event == RunEvent::BodyDone
                        &&& n[id].data.phase == Phase::Closed
                        &&& forall|c: u64|
                            #![trigger m[id].children.contains(c)]
                            m[id].children.contains(c) ==> m[c].data.done
                    },
                    _ => false,
                }
            },
{
    assert forall|run: &mut Run, scopes: &mut ScopeTree, tokens: &mut TokenTree, r: RunAction|
        #[trigger] call_ensures(Run::step, (run, event, now, scopes, tokens), r) && scopes.wf()
            && tokens.wf() && tied(scopes@, tokens@) && run.fits(scopes@) && now
            + scopes@[run.scope()].data.grace <= u128::MAX && ({
            ||| run.stage() == Stage::Open && event == RunEvent::BodyDone
            ||| run.stage() == Stage::Grace && (event == RunEvent::BodyDone || event
                == RunEvent::TimeUp)
        }) implies {
        let id = run.scope();
        let m = scopes@;
        &&& m[id].data.deadline is None ==> soonest(m, id, now, deadline_at(m, id, now))
        &&& only_tasks_cancelled(m, id, tokens@, final(tokens)@)
        &&& m.contains_key(a) && above(m, a, id) ==> cancelled(
            final(tokens)@,
            m[a].data.token.id(),
        ) == cancelled(tokens@, m[a].data.token.id())
        &&& forall|c: u64| #[trigger]
            m[id].children.contains(c) ==> replaced(m, id, ended(m, id, now))[c].data.done
                == m[c].data.done
    } by {
        let id = run.scope();
        scopes.lemma_wf();
        tokens.lemma_wf();
        lemma_soonest(scopes@, scopes.next(), id, now);
        lemma_only_tasks_cancelled(scopes@, scopes.next(), tokens@, tokens.next(), id);
        if scopes@.contains_key(a) {
            assert(tokens@.contains_key(scopes@[a].data.token.id()));
        }
    }
    assert forall|m: Scopes, id: u64, c: u64|
        #[trigger] oldest_pending(m, id, c) implies m[id].children.contains(c) by {}
}

/// A run that drains waits for the oldest task that has not finished, until
/// there is none; then its scope closes and it resolves, with what it noted
/// of the body.  Whatever else happens, no token is cancelled and no scope
/// changes before that.
pub proof fn law_a_draining_run_waits_for_every_task(event: RunEvent, now: u128, other: u64)
    ensures
        forall|run: &mut Run, scopes: &mut ScopeTree, tokens: &mut TokenTree, r: RunAction|
            #[trigger] call_ensures(Run::step, (run, event, now, scopes, tokens), r)
                && run.fits(scopes@) && run.stage() == Stage::Drain ==> {
                let id = run.scope();
                let m = scopes@;
                let n = final(scopes)@;
                let tasks = m[id].children;
                &&& final(run).stage() == Stage::Drain
                &&& final(run).finished() == run.finished()
                &&& final(tokens)@ == tokens@
                &&& match r {
                    RunAction::WaitFor(c) => {
                        &&& n == m
                        &&& !m[c].data.done
                        &&& exists|k: int|
                            0 <= k < tasks.len() && #[trigger] tasks[k] == c && forall|j: int|
                                0 <= j < k ==> m[#[trigger] tasks[j]].data.done
                    },
                    RunAction::Resolve { finished } => {
                        &&& finished == run.finished()
                        &&& forall|c: u64|
                            #![trigger tasks.contains(c)]
                            tasks.contains(c) ==> m[c].data.done
                        &&& n[id].data == (Scope { phase: Phase::Closed, ..m[id].data })
                        &&& n[id].parent == m[id].parent && n[id].children == m[id].children
                        &&& n.dom() == m.dom()
                        &&& other != id && m.contains_key(other) ==> n[other] == m[other]
                    },
                    _ => false,
                }
            },
        forall|scope: u64, run: Run| #[trigger]
            call_ensures(Run::new, (scope,), run) ==> {
                &&& run.scope() == scope
                &&& run.stage() == Stage::Open
                &&& !run.finished()
            },
{
}

/// A host task is spawned like any other, with the grace of the scope it is
/// spawned into; the handle is of that task, and not detached.
#[verifier::rlimit(40)]
pub proof fn law_a_host_task_is_spawned_into_its_scope(handle: ScopeHandle, now: u128, d: u64)
    ensures
        forall|scopes: &mut ScopeTree, tokens: &mut TokenTree, r: ScopedTask| #[trigger]
            call_ensures(ScopeHandle::spawn_local, (&handle, now, scopes, tokens), r)
                && scopes.wf() && tokens.wf() && tied(scopes@, tokens@) && scopes@.contains_key(
                handle.scope(),
            ) ==> {
                let owner = handle.scope();
                let m = scopes@;
                let n = final(scopes)@;
                let t = tokens@;
                let u = final(tokens)@;
                &&& !r.detached()
                &&& r.task() is Some <==> {
                    ||| m[owner].data.phase == Phase::Running
                    ||| m[owner].data.phase == Phase::Draining && !(
                    m[owner].data.deadline matches Some(end) && end <= now)
                }
                &&& r.task() matches Some(task) ==> {
                    &&& n[task].parent == Some(owner)
                    &&& n[task].data.grace == m[owner].data.grace
                    &&& n[task].data.token == r.token()
                    &&& n[task].data.phase == Phase::Running
                    &&& !n[task].data.done
                    &&& n[owner].children == m[owner].children + seq![task]
                }
                &&& r.task() is None ==> n == m
                &&& u[r.token().id()].parent == Some(m[owner].data.token.id())
                &&& cancelled(u, r.token().id()) <==> cancelled(t, m[owner].data.token.id())
                    || m[owner].data.phase != Phase::Running
                &&& t.contains_key(d) ==> u.contains_key(d) && cancelled(u, d) == cancelled(t, d)
            },
{
    assert forall|scopes: &mut ScopeTree, tokens: &mut TokenTree, r: ScopedTask| #[trigger]
        call_ensures(ScopeHandle::spawn_local, (&handle, now, scopes, tokens), r) && scopes.wf()
            && tokens.wf() && tied(scopes@, tokens@) && scopes@.contains_key(
            handle.scope(),
        ) implies {
        let m = scopes@;
        let t = tokens@;
        let u = final(tokens)@;
        let own = m[handle.scope()].data.token.id();
        &&& cancelled(u, tokens.next()) <==> cancelled(t, own) || m[handle.scope()].data.phase
            != Phase::Running
        &&& t.contains_key(d) ==> u.contains_key(d) && cancelled(u, d) == cancelled(t, d)
        &&& !m.contains_key(scopes.next())
    } by {
        let m = scopes@;
        let t = tokens@;
        let last = tokens.next();
        let own = m[handle.scope()].data.token.id();
        scopes.lemma_wf();
        tokens.lemma_wf();
        assert(t.contains_key(own));
        let made = added(t, last, Some(own), false);
        let stopped = replaced(made, last, true);
        hook::law_new_token_changes_no_other(t, last, Some(own), own);
        assert(cancelled(made, last) == cancelled(made, own));
        assert(cancelled(stopped, last));
        if t.contains_key(d) {
            hook::law_new_token_changes_no_other(t, last, Some(own), d);
            lemma_youngest_cancels_no_other(made, last, d, t);
        }
    }
}

/// A host task gives what it left once it has finished, and the cancellation
/// if it left nothing; until then it gives nothing.  One that was never
/// started has finished.
pub proof fn law_a_host_task_gives_its_output_when_done<T>(
    task: ScopedTask,
    scopes: ScopeTree,
    slot: Option<T>,
)
    ensures
        forall|r: bool| #[trigger]
            call_ensures(ScopedTask::is_done, (&task, &scopes), r) ==> {
                &&& task.task() is None ==> r
                &&& task.task() matches Some(id) ==> r == scopes@[id].data.done
            },
        forall|r: Option<Result<T, IsleError>>| #[trigger]
            call_ensures(ScopedTask::poll::<T>, (&task, &scopes, slot), r) ==> {
                &&& r is None <==> (task.task() matches Some(id) && !scopes@[id].data.done)
                &&& r is Some && slot is Some ==> r == Some(Ok::<T, IsleError>(slot->0))
                &&& r is Some && slot is None ==> (r matches Some(Err(e)) && e@
                    == IsleErrorView::Cancelled)
            },
        forall|r: Spawned| #[trigger]
            call_ensures(ScopedTask::outcome, (&task,), r) ==> match r {
                Spawned::Started { task: id, token } => task.task() == Some(id) && token
                    == task.token(),
                Spawned::Refused { token } => task.task() is None && token == task.token(),
            },
{
}

/// Letting go of a host task cancels it, and what descends from it, exactly
/// if it has not finished and was not detached; nothing else is cancelled.
pub proof fn law_letting_go_cancels_an_unfinished_task(task: ScopedTask, scopes: ScopeTree, d: u64)
    ensures
        forall|tokens: &mut TokenTree, r: ()| #[trigger]
            call_ensures(ScopedTask::let_go, (task, &scopes, tokens), r) && tokens.wf()
                && tokens@.contains_key(task.token().id()) && tokens@.contains_key(d) ==> {
                let stops = !task.detached() && (task.task() matches Some(id)
                    && !scopes@[id].data.done);
                cancelled(final(tokens)@, d) <==> cancelled(tokens@, d) || stops && above(
                    tokens@,
                    task.token().id(),
                    d,
                )
            },
        forall|t: &mut ScopedTask, r: ()| #[trigger]
            call_ensures(ScopedTask::detach, (t,), r) ==> {
                &&& final(t).detached()
                &&& final(t).task() == t.task()
                &&& final(t).token() == t.token()
            },
{
    assert forall|tokens: &mut TokenTree, r: ()| #[trigger]
        call_ensures(ScopedTask::let_go, (task, &scopes, tokens), r) && tokens.wf()
            && tokens@.contains_key(task.token().id()) && tokens@.contains_key(d) implies cancelled(
        replaced(tokens@, task.token().id(), true),
        d,
    ) == (cancelled(tokens@, d) || above(tokens@, task.token().id(), d)) by {
        tokens.lemma_wf();
        hook::law_cancel_reaches_exactly_the_descendants(
            tokens@,
            tokens.next(),
            task.token().id(),
            d,
        );
    }
}

/// A tree of scopes begins empty, and is full once every number was given
/// out; a scope is read as it is, and a handle is of the scope it was made
/// of, under that scope's token.
pub proof fn law_a_scope_is_read_as_it_is(id: u64)
    ensures
        forall|scopes: ScopeTree| #[trigger]
            call_ensures(ScopeTree::new, (), scopes) ==> !scopes@.contains_key(id),
        forall|scopes: ScopeTree, r: bool| #[trigger]
            call_ensures(ScopeTree::is_full, (&scopes,), r) ==> (r <==> scopes.next() == u64::MAX),
        forall|scopes: ScopeTree, r: Scope| #[trigger]
            call_ensures(ScopeTree::scope, (&scopes, id), r) ==> r == scopes@[id].data,
        forall|scopes: ScopeTree, h: ScopeHandle| #[trigger]
            call_ensures(ScopeHandle::new, (id, &scopes), h) ==> {
                &&& h.scope() == id
                &&& h.owner() == scopes@[id].data.token
            },
        forall|h: ScopeHandle, r: CancelToken| #[trigger]
            call_ensures(ScopeHandle::token, (&h,), r) ==> r == h.owner(),
{
}

} // verus!
