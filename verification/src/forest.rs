//! A forest of numbered nodes: each node knows its parent and its
//! children, carries a value, and leaves once it is released and has no
//! children left.
//!
//! A node's number is larger than its parent's, so every walk towards the
//! root ends.

use std::collections::HashMap;
use vstd::prelude::*;

verus! {

broadcast use vstd::std_specs::hash::group_hash_axioms;

/// A node as stored.
struct Slot<T> {
    parent: Option<u64>,
    children: Vec<u64>,
    released: bool,
    data: T,
}

/// A node as the contracts see it.
pub struct SlotView<T> {
    /// The node it was created under, `None` for a root.
    pub parent: Option<u64>,
    /// The nodes created under it that are still there, oldest first.
    pub children: Seq<u64>,
    /// Nothing outside the forest refers to the node any more.
    pub released: bool,
    /// The value it carries.
    pub data: T,
}

/// The forest.
pub struct Forest<T> {
    slots: HashMap<u64, Slot<T>>,
    next: u64,
}

/// `s` without the element `x`.
pub open spec fn without(s: Seq<u64>, x: u64) -> Seq<u64>
    decreases s.len(),
{
    if s.len() == 0 {
        s
    } else if s.last() == x {
        without(s.drop_last(), x)
    } else {
        without(s.drop_last(), x).push(s.last())
    }
}

/// The links of `m` agree with each other, and every number is below
/// `next`.
pub open spec fn linked<T>(m: Map<u64, SlotView<T>>, next: u64) -> bool {
    &&& forall|id: u64| #[trigger] m.contains_key(id) ==> id < next
    &&& forall|id: u64|
        #[trigger] m.contains_key(id) ==> (m[id].parent matches Some(p) ==> {
            &&& p < id
            &&& m.contains_key(p)
            &&& m[p].children.contains(id)
        })
    &&& forall|id: u64, c: u64|
        m.contains_key(id) && #[trigger] m[id].children.contains(c) ==> m.contains_key(c)
            && m[c].parent == Some(id)
    &&& forall|id: u64| m.contains_key(id) ==> (#[trigger] m[id].children).no_duplicates()
}

/// `m` with the node `id` added under `parent`.
pub open spec fn added<T>(
    m: Map<u64, SlotView<T>>,
    id: u64,
    parent: Option<u64>,
    data: T,
) -> Map<u64, SlotView<T>> {
    let node = SlotView { parent, children: Seq::empty(), released: false, data };
    match parent {
        Some(p) => m.insert(
            p,
            SlotView { children: m[p].children.push(id), ..m[p] },
        ).insert(id, node),
        None => m.insert(id, node),
    }
}

/// `m` with the value of `id` replaced.
pub open spec fn replaced<T>(m: Map<u64, SlotView<T>>, id: u64, data: T) -> Map<u64, SlotView<T>> {
    m.insert(id, SlotView { data, ..m[id] })
}

/// `m` without the childless node `id`.
pub open spec fn detached<T>(m: Map<u64, SlotView<T>>, id: u64) -> Map<u64, SlotView<T>> {
    match m[id].parent {
        Some(p) => m.insert(
            p,
            SlotView { children: without(m[p].children, id), ..m[p] },
        ).remove(id),
        None => m.remove(id),
    }
}

/// `m` after the node `id`, if it is released and childless, has left, and
/// then its parent by the same rule, and so on.
pub open spec fn pruned<T>(m: Map<u64, SlotView<T>>, id: u64) -> Map<u64, SlotView<T>>
    decreases id,
{
    if m.contains_key(id) && m[id].released && m[id].children.len() == 0 {
        match m[id].parent {
            Some(p) => if p < id {
                pruned(detached(m, id), p)
            } else {
                detached(m, id)
            },
            None => detached(m, id),
        }
    } else {
        m
    }
}

/// `m` after the last outside reference to `id` has gone.
pub open spec fn released<T>(m: Map<u64, SlotView<T>>, id: u64) -> Map<u64, SlotView<T>> {
    pruned(m.insert(id, SlotView { released: true, ..m[id] }), id)
}

/// `a` is `id` or stands above it.
pub open spec fn above<T>(m: Map<u64, SlotView<T>>, a: u64, id: u64) -> bool
    decreases id,
{
    ||| a == id
    ||| match m[id].parent {
        Some(p) => p < id && above(m, a, p),
        None => false,
    }
}

impl<T> Slot<T> {
    spec fn seen(self) -> SlotView<T> {
        SlotView {
            parent: self.parent,
            children: self.children@,
            released: self.released,
            data: self.data,
        }
    }
}

impl<T> View for Forest<T> {
    type V = Map<u64, SlotView<T>>;

    closed spec fn view(&self) -> Map<u64, SlotView<T>> {
        Map::new(|id: u64| self.slots@.contains_key(id), |id: u64| self.slots@[id].seen())
    }
}

impl<T> Forest<T> {
    /// The number the next node gets.
    pub closed spec fn next(&self) -> u64 {
        self.next
    }

    /// The links agree with each other.
    pub open spec fn wf(&self) -> bool {
        linked(self@, self.next())
    }

    /// An empty forest.
    pub fn new() -> (r: Self)
        ensures
            r.wf(),
            r@ == Map::<u64, SlotView<T>>::empty(),
            r.next() == 0,
    {
        Forest { slots: HashMap::new(), next: 0 }
    }

    /// Whether every number has been given out.
    pub fn is_full(&self) -> (r: bool)
        ensures
            r == (self.next() == u64::MAX),
    {
        self.next == u64::MAX
    }

    /// Whether `id` is in the forest.
    pub fn contains(&self, id: u64) -> (r: bool)
        ensures
            r == self@.contains_key(id),
    {
        self.slots.contains_key(&id)
    }

    /// The value of `id`.
    pub fn data(&self, id: u64) -> (r: &T)
        requires
            self@.contains_key(id),
        ensures
            *r == self@[id].data,
    {
        &self.slots.get(&id).unwrap().data
    }

    /// The parent of `id`.
    pub fn parent(&self, id: u64) -> (r: Option<u64>)
        requires
            self@.contains_key(id),
        ensures
            r == self@[id].parent,
    {
        self.slots.get(&id).unwrap().parent
    }

    /// The children of `id`, oldest first.
    pub fn children(&self, id: u64) -> (r: &Vec<u64>)
        requires
            self@.contains_key(id),
        ensures
            r@ == self@[id].children,
    {
        &self.slots.get(&id).unwrap().children
    }

    /// Add a node under `parent`, and return its number.
    pub fn add(&mut self, parent: Option<u64>, data: T) -> (id: u64)
        requires
            old(self).wf(),
            old(self).next() < u64::MAX,
            parent matches Some(p) ==> old(self)@.contains_key(p),
        ensures
            final(self).wf(),
            id == old(self).next(),
            final(self).next() == id + 1,
            final(self)@ == added(old(self)@, id, parent, data),
    {
        let id: u64 = self.next;
        self.next = id + 1;
        match parent {
            Some(p) => {
                let mut above: Slot<T> = self.slots.remove(&p).unwrap();
                above.children.push(id);
                self.slots.insert(p, above);
            },
            None => {},
        }
        let slot: Slot<T> = Slot { parent, children: Vec::new(), released: false, data };
        self.slots.insert(id, slot);
        proof {
            assert(self@ =~= added(old(self)@, id, parent, data));
            lemma_added(old(self)@, id, parent, data);
        }
        id
    }

    /// Replace the value of `id`, and return the one it had.
    pub fn replace(&mut self, id: u64, data: T) -> (before: T)
        requires
            old(self).wf(),
            old(self)@.contains_key(id),
        ensures
            final(self).wf(),
            before == old(self)@[id].data,
            final(self).next() == old(self).next(),
            final(self)@ == replaced(old(self)@, id, data),
    {
        let slot: Slot<T> = self.slots.remove(&id).unwrap();
        let Slot { parent, children, released, data: before } = slot;
        self.slots.insert(id, Slot { parent, children, released, data });
        proof {
            assert(self@ =~= replaced(old(self)@, id, data));
            lemma_relabelled(old(self)@, self@, self.next());
        }
        before
    }

    /// Nothing outside refers to `id` any more: it leaves as soon as it has
    /// no children, and so do the released nodes above it.
    pub fn release(&mut self, id: u64)
        requires
            old(self).wf(),
            old(self)@.contains_key(id),
        ensures
            final(self).wf(),
            final(self).next() == old(self).next(),
            final(self)@ == released(old(self)@, id),
    {
        let mut slot: Slot<T> = self.slots.remove(&id).unwrap();
        slot.released = true;
        self.slots.insert(id, slot);
        let ghost marked = old(self)@.insert(id, SlotView { released: true, ..old(self)@[id] });
        proof {
            assert(self@ =~= marked);
            lemma_relabelled(old(self)@, self@, self.next());
        }
        let mut at: u64 = id;
        while self.leaves(at)
            invariant_except_break
                self@.contains_key(at),
                pruned(self@, at) == pruned(marked, id),
            invariant
                self.wf(),
                self.next() == old(self).next(),
            ensures
                self@ == pruned(marked, id),
            decreases at,
        {
            let parent: Option<u64> = self.detach(at);
            match parent {
                Some(p) => {
                    at = p;
                },
                None => {
                    break;
                },
            }
        }
    }

    /// Whether `id` is released and childless.
    fn leaves(&self, id: u64) -> (r: bool)
        requires
            self@.contains_key(id),
        ensures
            r == (self@[id].released && self@[id].children.len() == 0),
    {
        let slot: &Slot<T> = self.slots.get(&id).unwrap();
        slot.released && slot.children.len() == 0
    }

    /// Remove the childless node `id`, and return its parent.
    fn detach(&mut self, id: u64) -> (parent: Option<u64>)
        requires
            old(self).wf(),
            old(self)@.contains_key(id),
            old(self)@[id].children.len() == 0,
        ensures
            final(self).wf(),
            final(self).next() == old(self).next(),
            parent == old(self)@[id].parent,
            final(self)@ == detached(old(self)@, id),
    {
        let slot: Slot<T> = self.slots.remove(&id).unwrap();
        match slot.parent {
            Some(p) => {
                let mut above: Slot<T> = self.slots.remove(&p).unwrap();
                drop_value(&mut above.children, id);
                self.slots.insert(p, above);
            },
            None => {},
        }
        proof {
            assert(self@ =~= detached(old(self)@, id));
            lemma_detached(old(self)@, id, self.next());
        }
        slot.parent
    }
}

/// Remove every `x` from `v`.
fn drop_value(v: &mut Vec<u64>, x: u64)
    ensures
        final(v)@ == without(old(v)@, x),
{
    let mut kept: Vec<u64> = Vec::new();
    let mut i: usize = 0;
    while i < v.len()
        invariant
            i <= v@.len(),
            kept@ == without(v@.take(i as int), x),
            v@ == old(v)@,
        decreases v@.len() - i,
    {
        proof {
            assert(v@.take(i + 1) =~= v@.take(i as int).push(v@[i as int]));
            assert(v@.take(i + 1).drop_last() =~= v@.take(i as int));
        }
        if v[i] != x {
            kept.push(v[i]);
        }
        i += 1;
    }
    proof {
        assert(v@.take(v@.len() as int) =~= v@);
    }
    *v = kept;
}

/// What `without` holds.
proof fn lemma_without(s: Seq<u64>, x: u64)
    ensures
        forall|y: u64| without(s, x).contains(y) <==> s.contains(y) && y != x,
        s.no_duplicates() ==> without(s, x).no_duplicates(),
    decreases s.len(),
{
    if s.len() > 0 {
        let t = without(s.drop_last(), x);
        lemma_without(s.drop_last(), x);
        assert forall|y: u64| s.contains(y) && y != x implies without(s, x).contains(y) by {
            if s.last() == y {
                assert(without(s, x)[t.len() as int] == y);
            } else {
                let i = choose|i: int| 0 <= i < s.len() && s[i] == y;
                assert(s.drop_last()[i] == y);
                assert(s.drop_last().contains(y));
                assert(t.contains(y));
                let j = choose|j: int| 0 <= j < t.len() && t[j] == y;
                assert(without(s, x)[j] == y);
            }
        }
        assert forall|y: u64| without(s, x).contains(y) implies s.contains(y) && y != x by {
            let j = choose|j: int| 0 <= j < without(s, x).len() && without(s, x)[j] == y;
            if j < t.len() {
                assert(t[j] == y);
                assert(s.drop_last().contains(y));
                let i = choose|i: int| 0 <= i < s.drop_last().len() && s.drop_last()[i] == y;
                assert(s[i] == y);
            } else {
                assert(s[s.len() - 1] == y);
            }
        }
        if s.no_duplicates() {
            assert(s.drop_last().no_duplicates());
            assert forall|j: int| 0 <= j < t.len() implies t[j] != s.last() by {
                assert(t.contains(t[j]));
                assert(s.drop_last().contains(t[j]));
            }
        }
    }
}

/// What pruning keeps: a node that stays keeps its parent and its value,
/// its parent stays with it, and a node that is not released stays.
pub proof fn lemma_pruned<T>(m: Map<u64, SlotView<T>>, id: u64, next: u64)
    requires
        linked(m, next),
    ensures
        linked(pruned(m, id), next),
        forall|n: u64| #[trigger]
            pruned(m, id).contains_key(n) ==> {
                &&& m.contains_key(n)
                &&& pruned(m, id)[n].parent == m[n].parent
                &&& pruned(m, id)[n].data == m[n].data
                &&& pruned(m, id)[n].released == m[n].released
                &&& forall|c: u64| pruned(m, id)[n].children.contains(c) ==> m[n].children.contains(c)
            },
        forall|n: u64| #[trigger]
            m.contains_key(n) && !m[n].released ==> pruned(m, id).contains_key(n),
    decreases id,
{
    if m.contains_key(id) && m[id].released && m[id].children.len() == 0 {
        lemma_detached(m, id, next);
        match m[id].parent {
            Some(p) => {
                lemma_pruned(detached(m, id), p, next);
                lemma_without(m[p].children, id);
                assert forall|n: u64| #[trigger] m.contains_key(n) && !m[n].released implies pruned(
                    m,
                    id,
                ).contains_key(n) by {
                    assert(detached(m, id).contains_key(n) && !detached(m, id)[n].released);
                }
            },
            None => {},
        }
    }
}

/// Marking a node as released keeps the links.
pub proof fn lemma_marked<T>(m: Map<u64, SlotView<T>>, id: u64, next: u64)
    requires
        linked(m, next),
        m.contains_key(id),
    ensures
        linked(m.insert(id, SlotView { released: true, ..m[id] }), next),
{
    let marked = m.insert(id, SlotView { released: true, ..m[id] });
    assert(marked.dom() =~= m.dom());
    lemma_relabelled(m, marked, next);
}

/// Releasing a node keeps the links.
pub proof fn lemma_released<T>(m: Map<u64, SlotView<T>>, id: u64, next: u64)
    requires
        linked(m, next),
        m.contains_key(id),
    ensures
        linked(released(m, id), next),
{
    let marked = m.insert(id, SlotView { released: true, ..m[id] });
    lemma_marked(m, id, next);
    lemma_pruned(marked, id, next);
}

/// Releasing a node takes nothing from the nodes that are still referred
/// to: each keeps its place and its value.
pub proof fn law_release_keeps_the_rest<T>(m: Map<u64, SlotView<T>>, id: u64, next: u64)
    requires
        linked(m, next),
        m.contains_key(id),
    ensures
        forall|n: u64| #[trigger]
            m.contains_key(n) && n != id && !m[n].released ==> {
                &&& released(m, id).contains_key(n)
                &&& released(m, id)[n].parent == m[n].parent
                &&& released(m, id)[n].data == m[n].data
                &&& !released(m, id)[n].released
            },
        forall|n: u64| #[trigger]
            released(m, id).contains_key(n) ==> m.contains_key(n) && released(m, id)[n].parent
                == m[n].parent && released(m, id)[n].data == m[n].data,
{
    let marked = m.insert(id, SlotView { released: true, ..m[id] });
    lemma_marked(m, id, next);
    lemma_pruned(marked, id, next);
    assert forall|n: u64| #[trigger] m.contains_key(n) && n != id && !m[n].released implies {
        &&& released(m, id).contains_key(n)
        &&& released(m, id)[n].parent == m[n].parent
        &&& released(m, id)[n].data == m[n].data
        &&& !released(m, id)[n].released
    } by {
        assert(marked.contains_key(n) && !marked[n].released);
    }
}

/// Changing what no link speaks of keeps the links.
proof fn lemma_relabelled<T>(m: Map<u64, SlotView<T>>, n: Map<u64, SlotView<T>>, next: u64)
    requires
        linked(m, next),
        n.dom() == m.dom(),
        forall|id: u64| #[trigger]
            m.contains_key(id) ==> n[id].parent == m[id].parent && n[id].children
                == m[id].children,
    ensures
        linked(n, next),
{
    assert forall|id: u64| #[trigger] n.contains_key(id) implies m.contains_key(id) by {}
    assert forall|id: u64, c: u64|
        n.contains_key(id) && #[trigger] n[id].children.contains(c) implies n.contains_key(c)
            && n[c].parent == Some(id) by {
        assert(m[id].children.contains(c));
    }
}

proof fn lemma_added<T>(m: Map<u64, SlotView<T>>, id: u64, parent: Option<u64>, data: T)
    requires
        linked(m, id),
        id < u64::MAX,
        parent matches Some(p) ==> m.contains_key(p),
    ensures
        linked(added(m, id, parent, data), (id + 1) as u64),
{
    let n = added(m, id, parent, data);
    assert forall|x: u64| #[trigger] n.contains_key(x) implies (n[x].parent matches Some(p) ==> {
        &&& p < x
        &&& n.contains_key(p)
        &&& n[p].children.contains(x)
    }) by {
        match n[x].parent {
            Some(p) => {
                if x == id {
                    let s = m[p].children.push(id);
                    assert(s[s.len() - 1] == id);
                } else {
                    assert(m.contains_key(x) && m[x].parent == Some(p));
                    let i = choose|i: int|
                        0 <= i < m[p].children.len() && m[p].children[i] == x;
                    assert(n[p].children[i] == x);
                }
            },
            None => {},
        }
    }
    assert forall|x: u64, c: u64|
        n.contains_key(x) && #[trigger] n[x].children.contains(c) implies n.contains_key(c)
            && n[c].parent == Some(x) by {
        if x != id && c != id {
            let i = choose|i: int| 0 <= i < n[x].children.len() && n[x].children[i] == c;
            assert(m[x].children[i] == c);
            assert(m[x].children.contains(c));
        } else if x != id {
            if m[x].children.contains(c) {
                assert(m.contains_key(c));
            }
            let i = choose|i: int| 0 <= i < n[x].children.len() && n[x].children[i] == c;
            if parent != Some(x) {
                assert(m[x].children[i] == c);
            }
        }
    }
    assert forall|x: u64| n.contains_key(x) implies (#[trigger] n[x].children).no_duplicates() by {
        if parent == Some(x) && x != id {
            assert forall|i: int|
                0 <= i < m[x].children.len() implies m[x].children[i] != id by {
                assert(m[x].children.contains(m[x].children[i]));
                assert(m.contains_key(m[x].children[i]));
            }
        }
    }
}

proof fn lemma_detached<T>(m: Map<u64, SlotView<T>>, id: u64, next: u64)
    requires
        linked(m, next),
        m.contains_key(id),
        m[id].children.len() == 0,
    ensures
        linked(detached(m, id), next),
{
    let n = detached(m, id);
    assert forall|x: u64| #[trigger] n.contains_key(x) implies (n[x].parent matches Some(p) ==> {
        &&& p < x
        &&& n.contains_key(p)
        &&& n[p].children.contains(x)
    }) by {
        assert(m.contains_key(x) && x != id);
        match m[x].parent {
            Some(p) => {
                assert(m[p].children.contains(x));
                lemma_without(m[p].children, id);
            },
            None => {},
        }
    }
    assert forall|x: u64, c: u64|
        n.contains_key(x) && #[trigger] n[x].children.contains(c) implies n.contains_key(c)
            && n[c].parent == Some(x) by {
        lemma_without(m[x].children, id);
        assert(m[x].children.contains(c));
        assert(m.contains_key(c) && m[c].parent == Some(x));
    }
    assert forall|x: u64| n.contains_key(x) implies (#[trigger] n[x].children).no_duplicates() by {
        lemma_without(m[x].children, id);
    }
}

/// `path` leads from `id` to `a`, each node to its parent.
pub open spec fn is_path<T>(m: Map<u64, SlotView<T>>, path: Seq<u64>, id: u64, a: u64) -> bool {
    &&& path.len() > 0
    &&& path[0] == id
    &&& path.last() == a
    &&& forall|k: int|
        0 <= k < path.len() - 1 ==> m[#[trigger] path[k]].parent == Some(path[k + 1])
}

/// A node stands above another exactly if a path of parents leads to it.
pub proof fn law_above_is_a_path_of_parents<T>(
    m: Map<u64, SlotView<T>>,
    next: u64,
    a: u64,
    id: u64,
)
    requires
        linked(m, next),
        m.contains_key(id),
    ensures
        above(m, a, id) <==> exists|path: Seq<u64>| #[trigger] is_path(m, path, id, a),
    decreases id,
{
    match m[id].parent {
        Some(p) => {
            law_above_is_a_path_of_parents(m, next, a, p);
            if above(m, a, id) && a != id {
                let rest = choose|rest: Seq<u64>| #[trigger] is_path(m, rest, p, a);
                let path = seq![id] + rest;
                assert forall|k: int| 0 <= k < path.len() - 1 implies m[#[trigger] path[k]].parent
                    == Some(path[k + 1]) by {
                    if k > 0 {
                        assert(m[rest[k - 1]].parent == Some(rest[k]));
                    }
                }
                assert(path.last() == rest.last());
                assert(is_path(m, path, id, a));
            }
            if exists|path: Seq<u64>| #[trigger] is_path(m, path, id, a) {
                let path = choose|path: Seq<u64>| #[trigger] is_path(m, path, id, a);
                if path.len() > 1 {
                    let rest = path.skip(1);
                    assert(m[path[0]].parent == Some(path[1]));
                    assert forall|k: int|
                        0 <= k < rest.len() - 1 implies m[#[trigger] rest[k]].parent == Some(
                        rest[k + 1],
                    ) by {
                        assert(m[path[k + 1]].parent == Some(path[k + 2]));
                    }
                    assert(rest.last() == path.last());
                    assert(is_path(m, rest, p, a));
                }
            }
        },
        None => {
            if exists|path: Seq<u64>| #[trigger] is_path(m, path, id, a) {
                let path = choose|path: Seq<u64>| #[trigger] is_path(m, path, id, a);
                if path.len() > 1 {
                    assert(m[path[0]].parent == Some(path[1]));
                }
            }
        },
    }
    if a == id {
        assert(is_path(m, seq![id], id, a));
    }
}

/// A node that stands above another has no larger number.
pub proof fn lemma_above_is_no_larger<T>(m: Map<u64, SlotView<T>>, a: u64, id: u64)
    requires
        above(m, a, id),
    ensures
        a <= id,
    decreases id,
{
    if a != id {
        lemma_above_is_no_larger(m, a, m[id].parent->0);
    }
}

/// A node that is added was not there, stands under the parent it is given,
/// as its youngest child, and carries the value it is given.  Nothing else
/// changes for any other node.
pub proof fn law_an_added_node_stands_under_its_parent<T>(
    parent: Option<u64>,
    data: T,
    other: u64,
)
    ensures
        forall|f: &mut Forest<T>, id: u64| #[trigger]
            call_ensures(Forest::<T>::add, (f, parent, data), id) && f.wf() && (
            parent matches Some(p) ==> f@.contains_key(p)) ==> {
                let m = f@;
                let n = final(f)@;
                &&& !m.contains_key(id)
                &&& n.contains_key(id)
                &&& n[id].parent == parent
                &&& n[id].data == data
                &&& n[id].children.len() == 0
                &&& !n[id].released
                &&& other != id ==> {
                    &&& n.contains_key(other) == m.contains_key(other)
                    &&& m.contains_key(other) ==> {
                        &&& n[other].parent == m[other].parent
                        &&& n[other].data == m[other].data
                        &&& n[other].released == m[other].released
                        &&& n[other].children == if parent == Some(other) {
                            m[other].children + seq![id]
                        } else {
                            m[other].children
                        }
                    }
                }
            },
{
}

/// A value that is replaced is the value from then on; the one before is
/// handed out, and nothing else changes.
pub proof fn law_a_replaced_value_stands_alone<T>(id: u64, data: T, other: u64)
    ensures
        forall|f: &mut Forest<T>, before: T| #[trigger]
            call_ensures(Forest::<T>::replace, (f, id, data), before) && f@.contains_key(id) ==> {
                let m = f@;
                let n = final(f)@;
                &&& before == m[id].data
                &&& n.contains_key(id)
                &&& n[id].data == data
                &&& n[id].parent == m[id].parent
                &&& n[id].children == m[id].children
                &&& n[id].released == m[id].released
                &&& other != id ==> {
                    &&& n.contains_key(other) == m.contains_key(other)
                    &&& m.contains_key(other) ==> n[other] == m[other]
                }
            },
        forall|f: Forest<T>, r: &T| #[trigger]
            call_ensures(Forest::<T>::data, (&f, id), r) ==> *r == f@[id].data,
        forall|f: Forest<T>, r: Option<u64>| #[trigger]
            call_ensures(Forest::<T>::parent, (&f, id), r) ==> r == f@[id].parent,
        forall|f: Forest<T>, r: bool| #[trigger]
            call_ensures(Forest::<T>::contains, (&f, id), r) ==> r == f@.contains_key(id),
{
}

/// A child that leaves leaves the others in their order.
pub proof fn law_children_keep_their_order(children: Seq<u64>, gone: u64)
    requires
        children.no_duplicates(),
    ensures
        forall|i: int|
            0 <= i < children.len() && #[trigger] children[i] == gone ==> without(children, gone)
                == children.take(i) + children.skip(i + 1),
        !children.contains(gone) ==> without(children, gone) == children,
{
    assert forall|i: int| 0 <= i < children.len() && #[trigger] children[i] == gone implies without(
        children,
        gone,
    ) == children.take(i) + children.skip(i + 1) by {
        lemma_without_is_remove(children, i);
        assert(children.remove(i) == children.take(i) + children.skip(i + 1));
    }
    if !children.contains(gone) {
        lemma_without_absent(children, gone);
    }
}

proof fn lemma_without_is_remove(s: Seq<u64>, i: int)
    requires
        0 <= i < s.len(),
        s.no_duplicates(),
    ensures
        without(s, s[i]) == s.remove(i),
    decreases s.len(),
{
    let x = s[i];
    let front = s.drop_last();
    if i == s.len() - 1 {
        lemma_without_absent(front, x);
        assert(s.remove(i) == front);
    } else {
        assert(front[i] == x);
        lemma_without_is_remove(front, i);
        assert(s.remove(i) == front.remove(i).push(s.last()));
    }
}

proof fn lemma_without_absent(s: Seq<u64>, x: u64)
    requires
        forall|i: int| 0 <= i < s.len() ==> s[i] != x,
    ensures
        without(s, x) == s,
    decreases s.len(),
{
    if s.len() > 0 {
        lemma_without_absent(s.drop_last(), x);
        assert(s.drop_last().push(s.last()) == s);
    }
}

/// What pruning takes out: a node above the place where it begins leaves
/// exactly if it is released and every child of it leaves; no other node
/// does, and none of those that stay loses a child that stays.
proof fn lemma_pruning_is_exact<T>(m: Map<u64, SlotView<T>>, id: u64, next: u64)
    requires
        linked(m, next),
        m.contains_key(id),
    ensures
        forall|n: u64| #[trigger]
            m.contains_key(n) && !above(m, n, id) ==> {
                &&& pruned(m, id).contains_key(n)
                &&& pruned(m, id)[n] == m[n]
            },
        forall|n: u64| #[trigger]
            m.contains_key(n) && above(m, n, id) ==> (pruned(m, id).contains_key(n) <==> {
                ||| !m[n].released
                ||| exists|c: u64| #[trigger]
                    m[n].children.contains(c) && pruned(m, id).contains_key(c)
            }),
        forall|n: u64, c: u64|
            m.contains_key(n) && pruned(m, id).contains_key(n) ==> (#[trigger] pruned(
                m,
                id,
            )[n].children.contains(c) <==> m[n].children.contains(c) && pruned(
                m,
                id,
            ).contains_key(c)),
    decreases id,
{
    let q = pruned(m, id);
    if m[id].released && m[id].children.len() == 0 {
        lemma_detached(m, id, next);
        let d = detached(m, id);
        assert forall|c: u64| #[trigger] m[id].children.contains(c) implies false by {}
        match m[id].parent {
            Some(p) => {
                lemma_without(m[p].children, id);
                lemma_pruning_is_exact(d, p, next);
                lemma_pruned(d, p, next);
                assert(!q.contains_key(id));
                assert forall|n: u64| #[trigger] m.contains_key(n) && n != id implies above(
                    d,
                    n,
                    p,
                ) == above(m, n, p) by {
                    lemma_above_detached(m, id, next, n, p);
                }
                assert forall|n: u64| #[trigger] m.contains_key(n) && !above(m, n, id) implies {
                    &&& q.contains_key(n)
                    &&& q[n] == m[n]
                } by {
                    assert(above(m, p, p));
                    assert(n != id && n != p);
                    assert(d.contains_key(n) && d[n] == m[n]);
                }
                assert forall|n: u64| #[trigger] m.contains_key(n) && above(m, n, id) implies (
                q.contains_key(n) <==> {
                    ||| !m[n].released
                    ||| exists|c: u64| #[trigger] m[n].children.contains(c) && q.contains_key(c)
                }) by {
                    if n != id {
                        assert(d.contains_key(n));
                        assert(above(d, n, p));
                        assert forall|c: u64| #[trigger]
                            m[n].children.contains(c) && q.contains_key(c) implies d[n].children.contains(
                            c) by {
                            assert(c != id);
                        }
                        if exists|c: u64| #[trigger]
                            d[n].children.contains(c) && q.contains_key(c) {
                            let c = choose|c: u64| #[trigger]
                                d[n].children.contains(c) && q.contains_key(c);
                            assert(m[n].children.contains(c));
                        }
                    }
                }
                assert forall|n: u64, c: u64|
                    m.contains_key(n) && q.contains_key(n) implies (
                #[trigger] q[n].children.contains(c) <==> m[n].children.contains(c)
                    && q.contains_key(c)) by {
                    assert(d.contains_key(n));
                    if n == p {
                        assert(d[n].children.contains(c) <==> m[n].children.contains(c) && c != id);
                    }
                }
            },
            None => {
                assert forall|n: u64, c: u64|
                    m.contains_key(n) && q.contains_key(n) implies (
                #[trigger] q[n].children.contains(c) <==> m[n].children.contains(c)
                    && q.contains_key(c)) by {
                    if m[n].children.contains(c) {
                        assert(m[c].parent == Some(n));
                    }
                }
            },
        }
    } else {
        if m[id].children.len() > 0 {
            assert(m[id].children.contains(m[id].children[0]));
        }
        assert forall|n: u64| #[trigger] m.contains_key(n) && above(m, n, id) implies {
            ||| !m[n].released
            ||| exists|c: u64| #[trigger] m[n].children.contains(c) && m.contains_key(c)
        } by {
            if n != id {
                lemma_child_towards(m, next, n, id);
            }
        }
    }
}

/// What pruning does to the children of a node that stays: nothing, or it
/// takes one out that leaves, and the others keep their order.
proof fn lemma_children_stay_in_order<T>(m: Map<u64, SlotView<T>>, id: u64, next: u64, n: u64)
    requires
        linked(m, next),
        m.contains_key(id),
        m.contains_key(n),
        pruned(m, id).contains_key(n),
    ensures
        n == id ==> pruned(m, id)[n].children == m[n].children,
        in_order(m[n].children, pruned(m, id)[n].children, pruned(m, id).dom()),
    decreases id,
{
    let q = pruned(m, id);
    if m[id].released && m[id].children.len() == 0 {
        lemma_detached(m, id, next);
        let d = detached(m, id);
        match m[id].parent {
            Some(p) => {
                lemma_pruned(d, p, next);
                assert(!q.contains_key(id));
                lemma_children_stay_in_order(d, p, next, n);
                if n == p {
                    let i = choose|i: int| 0 <= i < m[p].children.len() && m[p].children[i] == id;
                    law_children_keep_their_order(m[p].children, id);
                    assert(!q.dom().contains(m[p].children[i]));
                }
            },
            None => {},
        }
    }
}

/// `after` is `before`, or `before` without one that is not in `stays`; the
/// others keep their order.
pub open spec fn in_order(before: Seq<u64>, after: Seq<u64>, stays: Set<u64>) -> bool {
    ||| after == before
    ||| exists|i: int|
        {
            &&& 0 <= i < before.len()
            &&& !stays.contains(#[trigger] before[i])
            &&& after == before.take(i) + before.skip(i + 1)
        }
}

/// A node above another has a child in that direction.
proof fn lemma_child_towards<T>(m: Map<u64, SlotView<T>>, next: u64, a: u64, id: u64)
    requires
        linked(m, next),
        m.contains_key(id),
        above(m, a, id),
        a != id,
    ensures
        exists|c: u64| #[trigger] m[a].children.contains(c) && m.contains_key(c) && above(m, c, id),
    decreases id,
{
    let p = m[id].parent->0;
    if p == a {
        assert(m[a].children.contains(id));
        assert(above(m, id, id));
    } else {
        lemma_child_towards(m, next, a, p);
        let c = choose|c: u64| #[trigger]
            m[a].children.contains(c) && m.contains_key(c) && above(m, c, p);
        assert(above(m, c, id));
    }
}

proof fn lemma_above_detached<T>(m: Map<u64, SlotView<T>>, id: u64, next: u64, a: u64, x: u64)
    requires
        linked(m, next),
        m.contains_key(id),
        m[id].children.len() == 0,
        m.contains_key(x),
        x != id,
    ensures
        above(detached(m, id), a, x) == above(m, a, x),
    decreases x,
{
    match m[x].parent {
        Some(p) => {
            if p == id {
                assert(m[id].children.contains(x));
            }
            lemma_above_detached(m, id, next, a, p);
        },
        None => {},
    }
}

/// `after` is `before` once nothing refers to `id` any more, as far as the
/// node `n` is concerned.  Of `id` and those above it, one leaves exactly if
/// it is released and no child of it stays; no other node leaves, or changes
/// at all.  A node that stays keeps its parent and its value, and of its
/// children those that stay, in their order.
pub open spec fn lets_go<T>(
    before: Map<u64, SlotView<T>>,
    after: Map<u64, SlotView<T>>,
    id: u64,
    n: u64,
) -> bool {
    &&& after.contains_key(n) ==> before.contains_key(n)
    &&& before.contains_key(n) && !above(before, n, id) ==> after.contains_key(n) && after[n]
        == before[n]
    &&& before.contains_key(n) && above(before, n, id) ==> (after.contains_key(n) <==> {
        ||| n != id && !before[n].released
        ||| exists|c: u64| #[trigger] before[n].children.contains(c) && after.contains_key(c)
    })
    &&& after.contains_key(n) ==> {
        &&& after[n].parent == before[n].parent
        &&& after[n].data == before[n].data
        &&& after[n].released == (before[n].released || n == id)
        &&& in_order(before[n].children, after[n].children, after.dom())
        &&& forall|c: u64| #[trigger]
            after[n].children.contains(c) <==> before[n].children.contains(c)
                && after.contains_key(c)
    }
}

pub(crate) proof fn lemma_lets_go<T>(m: Map<u64, SlotView<T>>, id: u64, next: u64, n: u64)
    requires
        linked(m, next),
        m.contains_key(id),
    ensures
        lets_go(m, released(m, id), id, n),
{
    law_release_keeps_the_rest(m, id, next);
    if m.contains_key(n) {
        let marked = m.insert(id, SlotView { released: true, ..m[id] });
        lemma_marked(m, id, next);
        lemma_pruned(marked, id, next);
        lemma_pruning_is_exact(marked, id, next);
        assert(marked.contains_key(n));
        if pruned(marked, id).contains_key(n) {
            lemma_children_stay_in_order(marked, id, next, n);
        }
        lemma_above_marked(m, id, n, id);
        assert(above(m, id, id));
    }
}

/// Releasing a node takes out exactly what nothing needs any more.
pub proof fn law_release_takes_out_what_nothing_needs<T>(id: u64, n: u64)
    ensures
        forall|f: &mut Forest<T>, r: ()| #[trigger]
            call_ensures(Forest::<T>::release, (f, id), r) && f.wf() && f@.contains_key(id)
                ==> lets_go(f@, final(f)@, id, n),
{
    assert forall|f: &mut Forest<T>, r: ()| #[trigger]
        call_ensures(Forest::<T>::release, (f, id), r) && f.wf() && f@.contains_key(
            id,
        ) implies lets_go(f@, final(f)@, id, n) by {
        lemma_lets_go(f@, id, f.next(), n);
    }
}

proof fn lemma_above_marked<T>(m: Map<u64, SlotView<T>>, id: u64, a: u64, x: u64)
    ensures
        above(m.insert(id, SlotView { released: true, ..m[id] }), a, x) == above(m, a, x),
    decreases x,
{
    match m[x].parent {
        Some(p) => if p < x {
            lemma_above_marked(m, id, a, p);
        },
        None => {},
    }
}

/// A forest begins empty, and is full once every number was given out; the
/// children that are read are those of the node.
pub proof fn law_a_forest_begins_empty<T>(id: u64)
    ensures
        forall|f: Forest<T>| #[trigger]
            call_ensures(Forest::<T>::new, (), f) ==> !f@.contains_key(id),
        forall|f: Forest<T>, r: bool| #[trigger]
            call_ensures(Forest::<T>::is_full, (&f,), r) ==> (r <==> f.next() == u64::MAX),
        forall|f: Forest<T>, r: &Vec<u64>| #[trigger]
            call_ensures(Forest::<T>::children, (&f, id), r) ==> r@ == f@[id].children,
{
}

} // verus!
