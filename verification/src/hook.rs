//! Cancellation tokens, and which of them is current.
//!
//! A [`CancelToken`] names a node of a [`TokenTree`].  A token is cancelled
//! when its own flag is set or when a token it descends from is cancelled,
//! so cancelling a token reaches every token derived from it and no other.
//! A flag is never taken back.

use crate::forest::{self, above, added, linked, replaced, Forest, SlotView};
use vstd::prelude::*;

verus! {

/// A cancellation signal.  Copies of a token are the same signal.
#[derive(Clone, Copy, Debug, PartialEq, Eq, Hash, Structural)]
pub struct CancelToken {
    id: u64,
}

/// The tokens, and which of them were cancelled.
pub struct TokenTree {
    tokens: Forest<bool>,
}

/// A tree of tokens as the contracts see it: the value of a node is its own
/// flag.
pub type Tokens = Map<u64, SlotView<bool>>;

/// Whether the token `id` is cancelled: by its own flag, or with the token
/// it was derived from.
pub open spec fn cancelled(m: Tokens, id: u64) -> bool
    decreases id,
{
    ||| m[id].data
    ||| match m[id].parent {
        Some(p) => p < id && cancelled(m, p),
        None => false,
    }
}

/// The token `id` is known and somebody still holds it.
pub open spec fn held(m: Tokens, id: u64) -> bool {
    m.contains_key(id) && !m[id].released
}

impl View for TokenTree {
    type V = Tokens;

    closed spec fn view(&self) -> Tokens {
        self.tokens@
    }
}

impl TokenTree {
    /// The number the next token gets.
    pub closed spec fn next(&self) -> u64 {
        self.tokens.next()
    }

    /// The links of the tree agree with each other.
    pub closed spec fn wf(&self) -> bool {
        self.tokens.wf()
    }

    /// A tree without tokens.
    pub fn new() -> (r: Self)
        ensures
            r.wf(),
            r@ == Map::<u64, SlotView<bool>>::empty(),
            r.next() == 0,
    {
        TokenTree { tokens: Forest::new() }
    }

    /// Whether no further token can be made.
    pub fn is_full(&self) -> (r: bool)
        ensures
            r == (self.next() == u64::MAX),
    {
        self.tokens.is_full()
    }

    /// What well-formedness says of the view.
    pub proof fn lemma_wf(&self)
        requires
            self.wf(),
        ensures
            linked(self@, self.next()),
    {
    }
}

impl CancelToken {
    /// The number of the token in its tree.
    pub closed spec fn id(self) -> u64 {
        self.id
    }

    /// Create a new token (not cancelled).
    pub fn new(tree: &mut TokenTree) -> (r: Self)
        requires
            old(tree).wf(),
            old(tree).next() < u64::MAX,
        ensures
            final(tree).wf(),
            r.id() == old(tree).next(),
            final(tree).next() == r.id() + 1,
            final(tree)@ == added(old(tree)@, r.id(), None, false),
            held(final(tree)@, r.id()),
            !cancelled(final(tree)@, r.id()),
    {
        let id: u64 = tree.tokens.add(None, false);
        CancelToken { id }
    }

    /// A token that is cancelled together with this one.
    pub fn child_token(&self, tree: &mut TokenTree) -> (r: Self)
        requires
            old(tree).wf(),
            old(tree).next() < u64::MAX,
            old(tree)@.contains_key(self.id()),
        ensures
            final(tree).wf(),
            r.id() == old(tree).next(),
            final(tree).next() == r.id() + 1,
            final(tree)@ == added(old(tree)@, r.id(), Some(self.id()), false),
            held(final(tree)@, r.id()),
            cancelled(final(tree)@, r.id()) == cancelled(old(tree)@, self.id()),
    {
        let id: u64 = tree.tokens.add(Some(self.id), false);
        proof {
            law_new_token_changes_no_other(
                old(tree)@,
                id,
                Some(self.id),
                self.id,
            );
        }
        CancelToken { id }
    }

    /// Signal cancellation.
    pub fn cancel(&self, tree: &mut TokenTree)
        requires
            old(tree).wf(),
            old(tree)@.contains_key(self.id()),
        ensures
            final(tree).wf(),
            final(tree).next() == old(tree).next(),
            final(tree)@ == replaced(old(tree)@, self.id(), true),
            cancelled(final(tree)@, self.id()),
    {
        let _ = tree.tokens.replace(self.id, true);
    }

    /// Check whether cancellation has been requested.
    pub fn is_cancelled(&self, tree: &TokenTree) -> (r: bool)
        requires
            tree.wf(),
            tree@.contains_key(self.id()),
        ensures
            r == cancelled(tree@, self.id()),
    {
        let mut at: u64 = self.id;
        loop
            invariant
                tree.wf(),
                tree@.contains_key(at),
                cancelled(tree@, at) == cancelled(tree@, self.id()),
            decreases at,
        {
            if *tree.tokens.data(at) {
                return true;
            }
            match tree.tokens.parent(at) {
                Some(p) => {
                    at = p;
                },
                None => {
                    return false;
                },
            }
        }
    }

    /// The last copy of the token is gone.  The token leaves the tree, at
    /// once or with the last token derived from it.
    pub fn release(self, tree: &mut TokenTree)
        requires
            old(tree).wf(),
            old(tree)@.contains_key(self.id()),
        ensures
            final(tree).wf(),
            final(tree).next() == old(tree).next(),
            final(tree)@ == forest::released(old(tree)@, self.id()),
    {
        tree.tokens.release(self.id);
    }
}

/// What is current on a thread: the token, or the scope, of the request or
/// task that is running.
pub struct Current<T> {
    value: Option<T>,
}

/// What was current before, to be put back.
pub struct EnterGuard<T> {
    prev: Option<T>,
}

impl<T> View for Current<T> {
    type V = Option<T>;

    closed spec fn view(&self) -> Option<T> {
        self.value
    }
}

impl<T> View for EnterGuard<T> {
    type V = Option<T>;

    closed spec fn view(&self) -> Option<T> {
        self.prev
    }
}

impl<T> Current<T> {
    /// Nothing is current.
    pub fn new() -> (r: Self)
        ensures
            r@ is None,
    {
        Current { value: None }
    }

    /// Make `value` current.
    pub fn enter(&mut self, value: T) -> (guard: EnterGuard<T>)
        ensures
            final(self)@ == Some(value),
            guard@ == old(self)@,
    {
        let prev: Option<T> = self.value.take();
        self.value = Some(value);
        EnterGuard { prev }
    }

    /// Put back what was current when `guard` was made.
    pub fn leave(&mut self, guard: EnterGuard<T>)
        ensures
            final(self)@ == guard@,
    {
        self.value = guard.prev;
    }

    /// What is current.
    pub fn get(&self) -> (r: Option<&T>)
        ensures
            match r {
                Some(v) => self@ == Some(*v),
                None => self@ is None,
            },
    {
        self.value.as_ref()
    }
}

/// The token of the request or task that is running, if any.
pub fn current_token(current: &Current<CancelToken>) -> (r: Option<CancelToken>)
    ensures
        r == current@,
{
    current.value
}

/// Whether the running request or task is cancelled; `false` outside one.
pub fn current_is_cancelled(current: &Current<CancelToken>, tree: &TokenTree) -> (r: bool)
    requires
        tree.wf(),
        current@ matches Some(t) ==> tree@.contains_key(t.id()),
    ensures
        r == match current@ {
            Some(t) => cancelled(tree@, t.id()),
            None => false,
        },
{
    match current.value {
        Some(t) => t.is_cancelled(tree),
        None => false,
    }
}

/// A token is cancelled exactly when a flag stands at it or above it.
pub proof fn law_cancelled_is_a_flag_above(m: Tokens, next: u64, id: u64)
    requires
        linked(m, next),
        m.contains_key(id),
    ensures
        cancelled(m, id) <==> exists|a: u64| #[trigger] above(m, a, id) && m[a].data,
    decreases id,
{
    if m[id].data {
        assert(above(m, id, id));
    }
    match m[id].parent {
        Some(p) => {
            law_cancelled_is_a_flag_above(m, next, p);
            if cancelled(m, p) {
                let a = choose|a: u64| #[trigger] above(m, a, p) && m[a].data;
                assert(above(m, a, id));
            }
            if exists|a: u64| #[trigger] above(m, a, id) && m[a].data {
                let a = choose|a: u64| #[trigger] above(m, a, id) && m[a].data;
                if a != id {
                    assert(above(m, a, p));
                }
            }
        },
        None => {},
    }
}

/// Cancelling `t` cancels every token derived from it, directly or through
/// others, and changes nothing for any other token.
pub proof fn law_cancel_reaches_exactly_the_descendants(m: Tokens, next: u64, t: u64, d: u64)
    requires
        linked(m, next),
        m.contains_key(t),
        m.contains_key(d),
    ensures
        cancelled(replaced(m, t, true), d) == (cancelled(m, d) || above(m, t, d)),
    decreases d,
{
    match m[d].parent {
        Some(p) => {
            law_cancel_reaches_exactly_the_descendants(m, next, t, p);
        },
        None => {},
    }
}

/// A new token changes nothing for the tokens that are there.
pub proof fn law_new_token_changes_no_other(m: Tokens, id: u64, parent: Option<u64>, d: u64)
    requires
        linked(m, id),
        parent matches Some(p) ==> m.contains_key(p),
        m.contains_key(d),
    ensures
        cancelled(added(m, id, parent, false), d) == cancelled(m, d),
    decreases d,
{
    match m[d].parent {
        Some(p) => {
            law_new_token_changes_no_other(m, id, parent, p);
        },
        None => {},
    }
}

/// A token that is let go changes nothing for the tokens that stay.
pub proof fn law_release_changes_no_other(m: Tokens, next: u64, t: u64, d: u64)
    requires
        linked(m, next),
        m.contains_key(t),
        forest::released(m, t).contains_key(d),
    ensures
        cancelled(forest::released(m, t), d) == cancelled(m, d),
    decreases d,
{
    forest::law_release_keeps_the_rest(m, t, next);
    forest::lemma_released(m, t, next);
    match m[d].parent {
        Some(p) => {
            law_release_changes_no_other(m, next, t, p);
        },
        None => {},
    }
}

/// One move on what is current.
pub enum Move<T> {
    /// [`Current::enter`] with this value.
    Enter(T),
    /// [`Current::leave`] with the guard made last.
    Leave,
}

/// What is current and the guards that are out, after `moves`.
pub open spec fn moved<T>(
    current: Option<T>,
    guards: Seq<Option<T>>,
    moves: Seq<Move<T>>,
) -> (Option<T>, Seq<Option<T>>)
    decreases moves.len(),
{
    if moves.len() == 0 {
        (current, guards)
    } else {
        let (c, g) = moved(current, guards, moves.drop_last());
        match moves.last() {
            Move::Enter(v) => (Some(v), g.push(c)),
            Move::Leave => (g.last(), g.drop_last()),
        }
    }
}

/// How many more times `moves` enters than it leaves.
pub open spec fn depth<T>(moves: Seq<Move<T>>) -> int
    decreases moves.len(),
{
    if moves.len() == 0 {
        0
    } else {
        depth(moves.drop_last()) + match moves.last() {
            Move::Enter(_) => 1int,
            Move::Leave => -1int,
        }
    }
}

/// `moves` never leaves more often than it has entered.
pub open spec fn nested<T>(moves: Seq<Move<T>>) -> bool {
    forall|k: int| 0 <= k <= moves.len() ==> depth(#[trigger] moves.take(k)) >= 0
}

/// What stays under nested moves: the guards that were out before, and,
/// under them, what was current.
proof fn lemma_moved<T>(current: Option<T>, guards: Seq<Option<T>>, moves: Seq<Move<T>>)
    requires
        nested(moves),
    ensures
        ({
            let (c, g) = moved(current, guards, moves);
            &&& g.len() == guards.len() + depth(moves)
            &&& g.take(guards.len() as int) == guards
            &&& if depth(moves) == 0 {
                c == current
            } else {
                g[guards.len() as int] == current
            }
        }),
    decreases moves.len(),
{
    assert(moves.take(moves.len() as int) == moves);
    if moves.len() == 0 {
        assert(guards.take(guards.len() as int) == guards);
    } else {
        let before = moves.drop_last();
        assert forall|k: int| 0 <= k <= before.len() implies depth(#[trigger] before.take(k))
            >= 0 by {
            assert(before.take(k) == moves.take(k));
        }
        lemma_moved(current, guards, before);
        let (c, g) = moved(current, guards, before);
        match moves.last() {
            Move::Enter(v) => {
                assert(g.push(c).take(guards.len() as int) == g.take(guards.len() as int));
            },
            Move::Leave => {
                assert(g.drop_last().take(guards.len() as int) == g.take(guards.len() as int));
            },
        }
    }
}

/// Guards nest: whatever was entered in between, once it has all been left
/// again, what is current is what was current before.
pub proof fn law_guards_nest<T>(current: Option<T>, guards: Seq<Option<T>>, moves: Seq<Move<T>>)
    requires
        nested(moves),
        depth(moves) == 0,
    ensures
        moved(current, guards, moves) == (current, guards),
{
    lemma_moved(current, guards, moves);
    let (c, g) = moved(current, guards, moves);
    assert(g.take(guards.len() as int) == g);
}

/// A token is cancelled exactly if its own flag is set or that of a token on
/// the path of those it was derived from; nothing is current outside a
/// request, and then nothing counts as cancelled.
pub proof fn law_cancelled_means_a_flag_on_the_path(
    token: CancelToken,
    tree: TokenTree,
    current: Current<CancelToken>,
)
    requires
        tree.wf(),
        tree@.contains_key(token.id()),
    ensures
        forall|r: bool| #[trigger]
            call_ensures(CancelToken::is_cancelled, (&token, &tree), r) ==> (r <==> exists|
                path: Seq<u64>,
                a: u64,
            |
                #[trigger] forest::is_path(tree@, path, token.id(), a) && tree@[a].data),
        forall|r: bool| #[trigger]
            call_ensures(current_is_cancelled, (&current, &tree), r) ==> {
                &&& current@ is None ==> !r
                &&& current@ == Some(token) ==> (r <==> exists|path: Seq<u64>, a: u64|
                    #[trigger] forest::is_path(tree@, path, token.id(), a) && tree@[a].data)
            },
        forall|r: Option<CancelToken>| #[trigger]
            call_ensures(current_token, (&current,), r) ==> r == current@,
{
    let m = tree@;
    let id = token.id();
    tree.lemma_wf();
    law_cancelled_is_a_flag_above(m, tree.next(), id);
    if cancelled(m, id) {
        let a = choose|a: u64| #[trigger] above(m, a, id) && m[a].data;
        forest::law_above_is_a_path_of_parents(m, tree.next(), a, id);
        let path = choose|path: Seq<u64>| #[trigger] forest::is_path(m, path, id, a);
        assert(forest::is_path(m, path, id, a) && m[a].data);
    }
    if exists|path: Seq<u64>, a: u64| #[trigger] forest::is_path(m, path, id, a) && m[a].data {
        let (path, a) = choose|path: Seq<u64>, a: u64| #[trigger]
            forest::is_path(m, path, id, a) && m[a].data;
        forest::law_above_is_a_path_of_parents(m, tree.next(), a, id);
        assert(above(m, a, id) && m[a].data);
    }
}

/// A token that is made is a new one, held and not cancelled, or, derived
/// from another, cancelled exactly if that one is; no token that was there
/// is cancelled by it, or ceases to be.
pub proof fn law_a_new_token_is_on_its_own(parent: CancelToken, d: u64)
    ensures
        forall|tree: &mut TokenTree, r: CancelToken| #[trigger]
            call_ensures(CancelToken::new, (tree,), r) && tree.wf() ==> {
                &&& !tree@.contains_key(r.id())
                &&& final(tree)@.contains_key(r.id())
                &&& !final(tree)@[r.id()].released
                &&& final(tree)@[r.id()].parent is None
                &&& !cancelled(final(tree)@, r.id())
                &&& tree@.contains_key(d) ==> final(tree)@.contains_key(d) && cancelled(
                    final(tree)@,
                    d,
                ) == cancelled(tree@, d)
            },
        forall|tree: &mut TokenTree, r: CancelToken| #[trigger]
            call_ensures(CancelToken::child_token, (&parent, tree), r) && tree.wf()
                && tree@.contains_key(parent.id()) ==> {
                &&& !tree@.contains_key(r.id())
                &&& final(tree)@.contains_key(r.id())
                &&& !final(tree)@[r.id()].released
                &&& final(tree)@[r.id()].parent == Some(parent.id())
                &&& !final(tree)@[r.id()].data
                &&& cancelled(final(tree)@, r.id()) == cancelled(tree@, parent.id())
                &&& tree@.contains_key(d) ==> final(tree)@.contains_key(d) && cancelled(
                    final(tree)@,
                    d,
                ) == cancelled(tree@, d)
            },
{
    assert forall|tree: &mut TokenTree, r: CancelToken| #[trigger]
        call_ensures(CancelToken::new, (tree,), r) && tree.wf() && tree@.contains_key(
            d,
        ) implies cancelled(final(tree)@, d) == cancelled(tree@, d) by {
        law_new_token_changes_no_other(tree@, r.id(), None, d);
    }
    assert forall|tree: &mut TokenTree, r: CancelToken| #[trigger]
        call_ensures(CancelToken::child_token, (&parent, tree), r) && tree.wf()
            && tree@.contains_key(parent.id()) && tree@.contains_key(d) implies cancelled(
        final(tree)@,
        d,
    ) == cancelled(tree@, d) by {
        law_new_token_changes_no_other(tree@, r.id(), Some(parent.id()), d);
    }
}

/// A cancel reaches the token and every token derived from it, directly or
/// through others, and no other; it takes nothing out of the tree.  A token
/// that is let go takes out what nothing needs, and cancels none of those
/// that stay.
pub proof fn law_a_cancel_and_a_release_touch_no_other(token: CancelToken, d: u64)
    ensures
        forall|tree: &mut TokenTree, r: ()| #[trigger]
            call_ensures(CancelToken::cancel, (&token, tree), r) && tree.wf()
                && tree@.contains_key(token.id()) && tree@.contains_key(d) ==> {
                &&& final(tree)@.contains_key(d)
                &&& cancelled(final(tree)@, d) <==> cancelled(tree@, d) || exists|
                    path: Seq<u64>,
                | #[trigger] forest::is_path(tree@, path, d, token.id())
            },
        forall|tree: &mut TokenTree, r: ()| #[trigger]
            call_ensures(CancelToken::release, (token, tree), r) && tree.wf()
                && tree@.contains_key(token.id()) ==> {
                &&& final(tree)@.contains_key(d) ==> tree@.contains_key(d) && cancelled(
                    final(tree)@,
                    d,
                ) == cancelled(tree@, d)
                &&& forest::lets_go(tree@, final(tree)@, token.id(), d)
            },
{
    assert forall|tree: &mut TokenTree, r: ()| #[trigger]
        call_ensures(CancelToken::cancel, (&token, tree), r) && tree.wf() && tree@.contains_key(
            token.id(),
        ) && tree@.contains_key(d) implies (cancelled(final(tree)@, d) <==> cancelled(tree@, d)
        || exists|path: Seq<u64>| #[trigger]
        forest::is_path(tree@, path, d, token.id())) by {
        law_cancel_reaches_exactly_the_descendants(tree@, tree.next(), token.id(), d);
        forest::law_above_is_a_path_of_parents(tree@, tree.next(), token.id(), d);
    }
    assert forall|tree: &mut TokenTree, r: ()| #[trigger]
        call_ensures(CancelToken::release, (token, tree), r) && tree.wf() && tree@.contains_key(
            token.id(),
        ) implies {
        &&& final(tree)@.contains_key(d) ==> tree@.contains_key(d) && cancelled(final(tree)@, d)
            == cancelled(tree@, d)
        &&& forest::lets_go(tree@, final(tree)@, token.id(), d)
    } by {
        let m = tree@;
        forest::law_release_keeps_the_rest(m, token.id(), tree.next());
        if final(tree)@.contains_key(d) {
            law_release_changes_no_other(m, tree.next(), token.id(), d);
        }
        forest::lemma_lets_go(m, token.id(), tree.next(), d);
    }
}

/// What is entered is current until it is left, and leaving puts back what
/// was current before.
pub proof fn law_entering_and_leaving_undo_each_other<T>(value: T, guard: EnterGuard<T>)
    ensures
        forall|current: &mut Current<T>, g: EnterGuard<T>| #[trigger]
            call_ensures(Current::<T>::enter, (current, value), g) ==> {
                &&& final(current)@ == Some(value)
                &&& g@ == current@
            },
        forall|current: &mut Current<T>, r: ()| #[trigger]
            call_ensures(Current::<T>::leave, (current, guard), r) ==> final(current)@ == guard@,
        forall|current: Current<T>, r: Option<&T>| #[trigger]
            call_ensures(Current::<T>::get, (&current,), r) ==> match r {
                Some(v) => current@ == Some(*v),
                None => current@ is None,
            },
        forall|current: Current<T>| #[trigger]
            call_ensures(Current::<T>::new, (), current) ==> current@ is None,
{
}

/// A token tree begins empty, and is full once every number was given out.
pub proof fn law_a_token_tree_begins_empty(id: u64)
    ensures
        forall|tree: TokenTree| #[trigger]
            call_ensures(TokenTree::new, (), tree) ==> !tree@.contains_key(id),
        forall|tree: TokenTree, r: bool| #[trigger]
            call_ensures(TokenTree::is_full, (&tree,), r) ==> (r <==> tree.next() == u64::MAX),
{
}

} // verus!
