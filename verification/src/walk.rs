//! The depth-first walk of the server's namespace that `browse` performs.
//! The walk decides which node to browse next; the caller browses it and
//! reports the browse names of the references found, in the order the
//! server returned them.  Nodes are known by slot numbers: the root is slot
//! 0, and the references reported for a node get fresh consecutive slots.
use vstd::prelude::*;
use crate::browse::{child_map, entries_height, has_name, height, lemma_child_at, names_sorted, BrowseTree, Children};

verus! {

/// A node met during the walk.
struct Slot {
    depth: u32,
    answered: bool,
    children: Vec<(String, usize)>,
}

/// A node met during the walk, as values: its depth below the start node,
/// whether it has been browsed, and its references (browse name and slot)
/// in the order reported.
pub struct SlotView {
    pub depth: nat,
    pub answered: bool,
    pub children: Seq<(Seq<char>, usize)>,
}

/// The state of a walk.
pub struct BrowseWalk {
    max_depth: u32,
    slots: Vec<Slot>,
    stack: Vec<usize>,
}

/// The state of a walk as values: the depth limit, every node met, and the
/// nodes still to browse, the next one last.
pub struct BrowseWalkView {
    pub max_depth: nat,
    pub slots: Seq<SlotView>,
    pub stack: Seq<usize>,
}

spec fn slot_view(s: Slot) -> SlotView {
    SlotView {
        depth: s.depth as nat,
        answered: s.answered,
        children: s.children@.map_values(|e: (String, usize)| (e.0@, e.1)),
    }
}

impl View for BrowseWalk {
    type V = BrowseWalkView;

    closed spec fn view(&self) -> BrowseWalkView {
        BrowseWalkView {
            max_depth: self.max_depth as nat,
            slots: self.slots@.map_values(|s: Slot| slot_view(s)),
            stack: self.stack@,
        }
    }
}

/// The consistency of a walk: the root is slot 0 at depth 0; no node lies
/// below the limit; a reference's slot is one level below its node; only
/// browsed nodes have references, and only nodes above the limit are
/// browsed; the nodes still to browse are distinct, unbrowsed and above the
/// limit; and every unbrowsed node above the limit is still to browse.
pub open spec fn walk_wf(w: BrowseWalkView) -> bool {
    &&& w.slots.len() >= 1
    &&& w.slots[0].depth == 0
    &&& forall|i: int| 0 <= i < w.slots.len() ==> #[trigger] w.slots[i].depth <= w.max_depth
    &&& forall|i: int, k: int|
        0 <= i < w.slots.len() && 0 <= k < w.slots[i].children.len() ==> {
            let c = #[trigger] w.slots[i].children[k].1;
            &&& c < w.slots.len()
            &&& w.slots[c as int].depth == w.slots[i].depth + 1
        }
    &&& forall|i: int| 0 <= i < w.slots.len() && !(#[trigger] w.slots[i]).answered ==> w.slots[i].children.len() == 0
    &&& forall|i: int| 0 <= i < w.slots.len() && (#[trigger] w.slots[i]).answered ==> w.slots[i].depth < w.max_depth
    &&& forall|p: int| 0 <= p < w.stack.len() ==> {
        let s = #[trigger] w.stack[p];
        &&& s < w.slots.len()
        &&& !w.slots[s as int].answered
        &&& w.slots[s as int].depth < w.max_depth
    }
    &&& forall|p: int, q: int| 0 <= p < w.stack.len() && 0 <= q < w.stack.len() && p != q ==> #[trigger] w.stack[p] != #[trigger] w.stack[q]
    &&& forall|i: int| 0 <= i < w.slots.len() && (#[trigger] w.slots[i]).depth < w.max_depth && !w.slots[i].answered
        ==> w.stack.contains(i as usize)
}

/// The slot of the last reference in `children` with browse name `k`: the
/// reference whose subtree the name ends up holding.
pub open spec fn last_child(children: Seq<(Seq<char>, usize)>, k: Seq<char>) -> Option<usize>
    decreases children.len(),
{
    if children.len() == 0 {
        None
    } else if children.last().0 == k {
        Some(children.last().1)
    } else {
        last_child(children.drop_last(), k)
    }
}

/// `n` fresh, unbrowsed nodes at `depth`.
pub open spec fn fresh_slots(depth: nat, n: nat) -> Seq<SlotView> {
    Seq::new(n, |i: int| SlotView { depth, answered: false, children: Seq::empty() })
}

/// The references of a browsed node: the `i`-th name gets slot `base + i`.
pub open spec fn numbered(names: Seq<Seq<char>>, base: nat) -> Seq<(Seq<char>, usize)> {
    Seq::new(names.len(), |i: int| (names[i], (base + i) as usize))
}

/// Slots `base .. base + n` in the order they go on the stack: the last one
/// first, so that the first reference is browsed next.
pub open spec fn to_visit(base: nat, n: nat) -> Seq<usize> {
    Seq::new(n, |i: int| (base + n - 1 - i) as usize)
}

/// The walk after the node it asked for was browsed and reported the
/// references `names`: that node is browsed, its references become fresh
/// nodes one level deeper, and those nodes, when still above the limit, are
/// to be browsed next in the order reported.
pub open spec fn browsed(w: BrowseWalkView, names: Seq<Seq<char>>) -> BrowseWalkView {
    let s = w.stack.last();
    let d = w.slots[s as int].depth;
    let base = w.slots.len();
    BrowseWalkView {
        max_depth: w.max_depth,
        slots: w.slots.update(s as int, SlotView { depth: d, answered: true, children: numbered(names, base) })
            + fresh_slots(d + 1, names.len()),
        stack: w.stack.drop_last() + if d + 1 < w.max_depth {
            to_visit(base, names.len())
        } else {
            Seq::empty()
        },
    }
}

proof fn lemma_browsed_wf(w: BrowseWalkView, names: Seq<Seq<char>>)
    requires
        walk_wf(w),
        w.stack.len() > 0,
        w.slots.len() + names.len() <= usize::MAX,
    ensures
        walk_wf(browsed(w, names)),
{
    let v = browsed(w, names);
    let s = w.stack.last();
    let d = w.slots[s as int].depth;
    let base = w.slots.len();
    let n = names.len();
    let top = w.stack.len() - 1;
    assert(w.stack[top] == s);
    assert(s < base && !w.slots[s as int].answered && d < w.max_depth);
    assert(v.slots.len() == base + n);
    assert forall|i: int| 0 <= i < v.slots.len() implies #[trigger] v.slots[i].depth <= v.max_depth by {
        if i < base {
            assert(w.slots[i].depth <= w.max_depth);
        }
    }
    assert forall|i: int, k: int|
        0 <= i < v.slots.len() && 0 <= k < v.slots[i].children.len() implies {
            let c = #[trigger] v.slots[i].children[k].1;
            &&& c < v.slots.len()
            &&& v.slots[c as int].depth == v.slots[i].depth + 1
        } by {
        if i == s {
            assert(v.slots[i].children[k].1 == base + k);
        } else {
            assert(i < base);
            assert(v.slots[i] == w.slots[i]);
            let c = w.slots[i].children[k].1;
            assert(c < base);
            if c as int == s as int {
                assert(w.slots[c as int].depth == w.slots[i].depth + 1);
            }
        }
    }
    assert forall|i: int| 0 <= i < v.slots.len() && !(#[trigger] v.slots[i]).answered implies v.slots[i].children.len() == 0 by {
        if i < base && i != s {
            assert(v.slots[i] == w.slots[i]);
        }
    }
    assert forall|i: int| 0 <= i < v.slots.len() && (#[trigger] v.slots[i]).answered implies v.slots[i].depth < v.max_depth by {
        if i < base && i != s {
            assert(v.slots[i] == w.slots[i]);
        }
    }
    assert forall|p: int| 0 <= p < v.stack.len() implies {
        let t = #[trigger] v.stack[p];
        &&& t < v.slots.len()
        &&& !v.slots[t as int].answered
        &&& v.slots[t as int].depth < v.max_depth
    } by {
        if p < top {
            let t = w.stack[p];
            assert(v.stack[p] == t);
            assert(t != s);
            assert(v.slots[t as int] == w.slots[t as int]);
        } else {
            assert(d + 1 < w.max_depth);
            assert(v.stack[p] == base + n - 1 - (p - top));
        }
    }
    assert forall|p: int, q: int| 0 <= p < v.stack.len() && 0 <= q < v.stack.len() && p != q implies #[trigger] v.stack[p] != #[trigger] v.stack[q] by {
        if p < top && q < top {
            assert(v.stack[p] == w.stack[p]);
            assert(v.stack[q] == w.stack[q]);
        } else if p < top {
            assert(v.stack[p] == w.stack[p]);
            assert(w.stack[p] < base);
        } else if q < top {
            assert(v.stack[q] == w.stack[q]);
            assert(w.stack[q] < base);
        }
    }
    assert forall|i: int| 0 <= i < v.slots.len() && (#[trigger] v.slots[i]).depth < v.max_depth && !v.slots[i].answered
        implies v.stack.contains(i as usize) by {
        if i < base {
            assert(i != s);
            assert(v.slots[i] == w.slots[i]);
            assert(w.stack.contains(i as usize));
            let p = choose|p: int| 0 <= p < w.stack.len() && w.stack[p] == i as usize;
            assert(p != top);
            assert(v.stack[p] == i as usize);
        } else {
            let p = top + (base + n - 1 - i);
            assert(v.stack[p] == i as usize);
        }
    }
}

/// `t` is the tree that the walk `w` has found below node `i`: a leaf when
/// the node lies at the depth limit, otherwise the node's references by
/// browse name, in the order of the names, each name holding the tree below
/// the last reference of that name.
pub open spec fn represents(t: BrowseTree, w: BrowseWalkView, i: int) -> bool
    decreases t,
{
    if w.slots[i].depth >= w.max_depth {
        t is Leaf
    } else {
        match t {
            BrowseTree::Leaf => false,
            BrowseTree::Branch(c) => {
                &&& names_sorted(c.entries@)
                &&& forall|k: Seq<char>| has_name(c.entries@, k) <==> (#[trigger] last_child(w.slots[i].children, k)) is Some
                &&& forall|x: int|
                    0 <= x < c.entries@.len() ==> represents(
                        #[trigger] c.entries@[x].1,
                        w,
                        last_child(w.slots[i].children, c.entries@[x].0@)->0 as int,
                    )
            },
        }
    }
}

proof fn lemma_entries_height_bound(s: Seq<(String, BrowseTree)>, h: nat)
    requires
        forall|x: int| 0 <= x < s.len() ==> 1 + height(#[trigger] s[x].1) <= h,
    ensures
        entries_height(s) <= h,
    decreases s.len(),
{
    if s.len() > 0 {
        let t = s.drop_last();
        assert forall|x: int| 0 <= x < t.len() implies 1 + height(#[trigger] t[x].1) <= h by {
            assert(t[x] == s[x]);
        }
        lemma_entries_height_bound(t, h);
    }
}

/// How many of the nodes in `stack` lie at depth `d`.
pub open spec fn pending_at(stack: Seq<usize>, slots: Seq<SlotView>, d: nat) -> nat
    decreases stack.len(),
{
    if stack.len() == 0 {
        0
    } else {
        pending_at(stack.drop_last(), slots, d) + if slots[stack.last() as int].depth == d {
            1nat
        } else {
            0nat
        }
    }
}

/// The progress of a walk: for each depth above the limit, shallowest
/// first, how many nodes there are still to browse.
pub open spec fn pending_profile(w: BrowseWalkView) -> Seq<nat> {
    Seq::new(w.max_depth, |d: int| pending_at(w.stack, w.slots, d as nat))
}

/// `a` comes before `b` in the lexicographic order of sequences of the same
/// length.  On sequences of a fixed length of natural numbers there is no
/// infinite descending chain, so a walk whose profile goes down at each step
/// ends.
pub open spec fn profile_lt(a: Seq<nat>, b: Seq<nat>) -> bool {
    &&& a.len() == b.len()
    &&& exists|d: int| 0 <= d < a.len() && a[d] < b[d] && forall|e: int| 0 <= e < d ==> #[trigger] a[e] == b[e]
}

proof fn lemma_pending_concat(a: Seq<usize>, b: Seq<usize>, slots: Seq<SlotView>, e: nat)
    ensures
        pending_at(a + b, slots, e) == pending_at(a, slots, e) + pending_at(b, slots, e),
    decreases b.len(),
{
    if b.len() == 0 {
        assert(a + b =~= a);
    } else {
        assert((a + b).drop_last() =~= a + b.drop_last());
        assert((a + b).last() == b.last());
        lemma_pending_concat(a, b.drop_last(), slots, e);
    }
}

proof fn lemma_pending_same_depths(a: Seq<usize>, s1: Seq<SlotView>, s2: Seq<SlotView>, e: nat)
    requires
        forall|p: int| 0 <= p < a.len() ==> #[trigger] s1[a[p] as int].depth == s2[a[p] as int].depth,
    ensures
        pending_at(a, s1, e) == pending_at(a, s2, e),
    decreases a.len(),
{
    if a.len() > 0 {
        let t = a.drop_last();
        assert forall|p: int| 0 <= p < t.len() implies #[trigger] s1[t[p] as int].depth == s2[t[p] as int].depth by {
            assert(t[p] == a[p]);
        }
        lemma_pending_same_depths(t, s1, s2, e);
        assert(s1[a[a.len() - 1] as int].depth == s2[a[a.len() - 1] as int].depth);
    }
}

proof fn lemma_pending_deeper(a: Seq<usize>, slots: Seq<SlotView>, k: nat, e: nat)
    requires
        e < k,
        forall|p: int| 0 <= p < a.len() ==> #[trigger] slots[a[p] as int].depth == k,
    ensures
        pending_at(a, slots, e) == 0,
    decreases a.len(),
{
    if a.len() > 0 {
        let t = a.drop_last();
        assert forall|p: int| 0 <= p < t.len() implies #[trigger] slots[t[p] as int].depth == k by {
            assert(t[p] == a[p]);
        }
        lemma_pending_deeper(t, slots, k, e);
        assert(slots[a[a.len() - 1] as int].depth == k);
    }
}

proof fn lemma_browsed_progress(w: BrowseWalkView, names: Seq<Seq<char>>)
    requires
        walk_wf(w),
        w.stack.len() > 0,
        w.slots.len() + names.len() <= usize::MAX,
    ensures
        ({
            let v = browsed(w, names);
            let d = w.slots[w.stack.last() as int].depth;
            &&& d < w.max_depth
            &&& pending_at(v.stack, v.slots, d) + 1 == pending_at(w.stack, w.slots, d)
            &&& forall|e: nat| e < d ==> #[trigger] pending_at(v.stack, v.slots, e) == pending_at(w.stack, w.slots, e)
        }),
{
    let v = browsed(w, names);
    let s = w.stack.last();
    let d = w.slots[s as int].depth;
    let base = w.slots.len();
    let top = w.stack.len() - 1;
    assert(w.stack[top] == s);
    let rest = w.stack.drop_last();
    let extra = if d + 1 < w.max_depth { to_visit(base, names.len()) } else { Seq::<usize>::empty() };
    assert(v.stack == rest + extra);
    assert forall|p: int| 0 <= p < rest.len() implies #[trigger] w.slots[rest[p] as int].depth == v.slots[rest[p] as int].depth by {
        assert(rest[p] == w.stack[p]);
        assert(w.stack[p] < base);
    }
    assert forall|p: int| 0 <= p < extra.len() implies #[trigger] v.slots[extra[p] as int].depth == d + 1 by {
        assert(extra[p] == base + names.len() - 1 - p);
    }
    assert forall|e: nat| e <= d implies pending_at(v.stack, v.slots, e) == pending_at(rest, w.slots, e) by {
        lemma_pending_concat(rest, extra, v.slots, e);
        lemma_pending_same_depths(rest, w.slots, v.slots, e);
        lemma_pending_deeper(extra, v.slots, d + 1, e);
    }
    assert forall|e: nat| e < d implies #[trigger] pending_at(v.stack, v.slots, e) == pending_at(w.stack, w.slots, e) by {
        assert(pending_at(v.stack, v.slots, e) == pending_at(rest, w.slots, e));
    }
    assert(pending_at(v.stack, v.slots, d) == pending_at(rest, w.slots, d));
}

impl BrowseWalk {
    #[verifier::type_invariant]
    spec fn consistent(self) -> bool {
        walk_wf(self@)
    }

    /// A walk from the start node (slot 0) that goes at most `max_depth`
    /// levels deep: the start node is browsed first unless the limit is 0.
    pub fn new(max_depth: u32) -> (r: BrowseWalk)
        ensures
            r@.max_depth == max_depth,
            r@.slots == seq![SlotView { depth: 0, answered: false, children: Seq::empty() }],
            r@.stack == if max_depth > 0 { seq![0usize] } else { Seq::<usize>::empty() },
    {
        let mut slots: Vec<Slot> = Vec::new();
        slots.push(Slot { depth: 0, answered: false, children: Vec::new() });
        let mut stack: Vec<usize> = Vec::new();
        if max_depth > 0 {
            stack.push(0);
        }
        proof {
            let root = SlotView { depth: 0, answered: false, children: Seq::empty() };
            assert(slot_view(slots@[0]).children =~= Seq::<(Seq<char>, usize)>::empty());
            assert(slots@.map_values(|s: Slot| slot_view(s)) =~= seq![root]);
            if max_depth > 0 {
                assert(stack@ =~= seq![0usize]);
                assert(stack@[0] == 0usize);
            } else {
                assert(stack@ =~= Seq::<usize>::empty());
            }
        }
        BrowseWalk { max_depth, slots, stack }
    }

    /// The node to browse next, or `None` when the walk is over.  Every node
    /// still to browse lies above the limit, so the progress profile counts
    /// them all.
    pub fn next_request(&self) -> (r: Option<usize>)
        ensures
            forall|p: int|
                0 <= p < self@.stack.len() ==> self@.slots[#[trigger] self@.stack[p] as int].depth < self@.max_depth,
            match r {
                Some(s) => {
                    &&& self@.stack.len() > 0
                    &&& s == self@.stack.last()
                    &&& s < self@.slots.len()
                    &&& !self@.slots[s as int].answered
                    &&& self@.slots[s as int].depth < self@.max_depth
                },
                None => {
                    &&& self@.stack.len() == 0
                    &&& forall|i: int|
                        0 <= i < self@.slots.len() && (#[trigger] self@.slots[i]).depth < self@.max_depth
                            ==> self@.slots[i].answered
                },
            },
    {
        proof {
            use_type_invariant(self);
            if self@.stack.len() > 0 {
                assert(self@.stack[self@.stack.len() - 1] == self@.stack.last());
            }
        }
        if self.stack.len() == 0 {
            None
        } else {
            Some(self.stack[self.stack.len() - 1])
        }
    }

    /// The node returned by `next_request` was browsed and the server
    /// reported references with browse names `names`, in this order.
    /// Returns the slot of the first reference; the others follow it.
    pub fn on_browsed(&mut self, names: Vec<String>) -> (r: usize)
        requires
            old(self)@.stack.len() > 0,
            old(self)@.slots.len() + names.len() <= usize::MAX,
        ensures
            r == old(self)@.slots.len(),
            final(self)@ == browsed(old(self)@, names@.map_values(|n: String| n@)),
            profile_lt(pending_profile(final(self)@), pending_profile(old(self)@)),
    {
        proof {
            use_type_invariant(&*self);
        }
        let mut w = BrowseWalk::new(0);
        std::mem::swap(&mut w, self);
        let ghost ov = w@;
        let ghost nv = names@.map_values(|n: String| n@);
        let BrowseWalk { max_depth, mut slots, mut stack } = w;
        let top = stack.len() - 1;
        let s = stack[top];
        stack.pop();
        assert(ov.stack[top as int] == s);
        let d = slots[s].depth;
        let base = slots.len();
        let ghost sv0 = slots@;
        let mut kids: Vec<(String, usize)> = Vec::new();
        let mut i: usize = 0;
        while i < names.len()
            invariant
                i <= names.len(),
                base == sv0.len(),
                base + names.len() <= usize::MAX,
                d < max_depth,
                slots@.len() == base + i,
                forall|j: int| 0 <= j < base ==> #[trigger] slots@[j] == sv0[j],
                forall|j: int| base <= j < base + i ==> {
                    &&& (#[trigger] slots@[j]).depth == d + 1
                    &&& !slots@[j].answered
                    &&& slots@[j].children@.len() == 0
                },
                kids@.len() == i,
                forall|j: int| 0 <= j < i ==> {
                    &&& (#[trigger] kids@[j]).0@ == names@[j]@
                    &&& kids@[j].1 == base + j
                },
            decreases names.len() - i,
        {
            kids.push((names[i].clone(), slots.len()));
            slots.push(Slot { depth: d + 1, answered: false, children: Vec::new() });
            i += 1;
        }
        let ghost kv = kids@;
        slots.set(s, Slot { depth: d, answered: true, children: kids });
        let ghost stack0 = stack@;
        if d + 1 < max_depth {
            let mut j: usize = names.len();
            while j > 0
                invariant
                    j <= names.len(),
                    base + names.len() <= usize::MAX,
                    stack@.len() == stack0.len() + (names.len() - j),
                    forall|p: int| 0 <= p < stack0.len() ==> #[trigger] stack@[p] == stack0[p],
                    forall|p: int| 0 <= p < names.len() - j ==> #[trigger] stack@[stack0.len() + p] == base + names.len() - 1 - p,
                decreases j,
            {
                j -= 1;
                stack.push(base + j);
            }
        }
        proof {
            let v = browsed(ov, nv);
            let new_slots = slots@.map_values(|x: Slot| slot_view(x));
            assert(new_slots.len() == v.slots.len());
            assert forall|j: int| 0 <= j < new_slots.len() implies #[trigger] new_slots[j] == v.slots[j] by {
                if j == s {
                    assert(slot_view(slots@[j]).children =~= numbered(nv, base as nat));
                } else if j < base {
                    assert(slots@[j] == sv0[j]);
                } else {
                    assert(slot_view(slots@[j]).children =~= Seq::<(Seq<char>, usize)>::empty());
                }
            }
            assert(new_slots =~= v.slots);
            assert(stack0 =~= ov.stack.drop_last());
            if d + 1 < max_depth {
                let tv = to_visit(base as nat, nv.len());
                assert forall|p: int| 0 <= p < stack@.len() implies #[trigger] stack@[p] == v.stack[p] by {
                    if p >= stack0.len() {
                        let q = p - stack0.len();
                        assert(stack@[stack0.len() + q] == base + names.len() - 1 - q);
                        assert(v.stack[p] == tv[q]);
                    }
                }
            }
            assert(stack@ =~= v.stack);
            lemma_browsed_wf(ov, nv);
            lemma_browsed_progress(ov, nv);
            let d = ov.slots[ov.stack.last() as int].depth;
            let a = pending_profile(v);
            let b = pending_profile(ov);
            assert(a[d as int] < b[d as int]);
            assert forall|e: int| 0 <= e < d implies #[trigger] a[e] == b[e] by {
                assert(pending_at(v.stack, v.slots, e as nat) == pending_at(ov.stack, ov.slots, e as nat));
            }
            assert(profile_lt(a, b));
        }
        *self = BrowseWalk { max_depth, slots, stack };
        base
    }

    fn build(&self, i: usize) -> (t: BrowseTree)
        requires
            i < self@.slots.len(),
        ensures
            represents(t, self@, i as int),
            height(t) + self@.slots[i as int].depth <= self@.max_depth,
        decreases self@.max_depth - self@.slots[i as int].depth,
    {
        proof {
            use_type_invariant(self);
        }
        let ghost w = self@;
        if self.slots[i].depth >= self.max_depth {
            return BrowseTree::Leaf;
        }
        let ghost ch = w.slots[i as int].children;
        let ghost d = w.slots[i as int].depth;
        let mut c = Children::new();
        let n = self.slots[i].children.len();
        let mut k: usize = 0;
        assert(ch.len() == n);
        while k < n
            invariant
                w == self@,
                walk_wf(w),
                i < w.slots.len(),
                d == w.slots[i as int].depth,
                d < w.max_depth,
                ch == w.slots[i as int].children,
                n == ch.len(),
                n == self.slots@[i as int].children@.len(),
                k <= n,
                names_sorted(c.entries@),
                forall|key: Seq<char>| has_name(c.entries@, key) <==> (#[trigger] last_child(ch.subrange(0, k as int), key)) is Some,
                forall|x: int| 0 <= x < c.entries@.len() ==> represents(
                    #[trigger] c.entries@[x].1,
                    w,
                    last_child(ch.subrange(0, k as int), c.entries@[x].0@)->0 as int,
                ),
                forall|x: int| 0 <= x < c.entries@.len() ==> 1 + height(#[trigger] c.entries@[x].1) + d <= w.max_depth,
            decreases n - k,
        {
            let name = self.slots[i].children[k].0.clone();
            let ci = self.slots[i].children[k].1;
            proof {
                assert(ch[k as int] == (self.slots@[i as int].children@[k as int].0@, ci));
                assert(w.slots[i as int].children[k as int].1 == ci);
                assert(ci < w.slots.len() && w.slots[ci as int].depth == d + 1);
            }
            let sub = self.build(ci);
            let ghost before = c.entries@;
            c.insert(name, sub);
            proof {
                let after = c.entries@;
                let pre = ch.subrange(0, k as int);
                let post = ch.subrange(0, k + 1);
                assert(post.drop_last() =~= pre);
                assert(post.last() == ch[k as int]);
                let nk = ch[k as int].0;
                assert(nk == name@);
                assert forall|key: Seq<char>| has_name(after, key) <==> (#[trigger] last_child(post, key)) is Some by {
                    assert(child_map(after).contains_key(key) == has_name(after, key));
                    assert(child_map(before).contains_key(key) == has_name(before, key));
                    assert(has_name(before, key) <==> last_child(pre, key) is Some);
                }
                assert forall|x: int| 0 <= x < after.len() implies {
                    &&& represents(#[trigger] after[x].1, w, last_child(post, after[x].0@)->0 as int)
                    &&& 1 + height(after[x].1) + d <= w.max_depth
                } by {
                    let key = after[x].0@;
                    lemma_child_at(after, x);
                    if key == nk {
                        assert(after[x].1 == sub);
                    } else {
                        assert(child_map(before).contains_key(key));
                        let y = choose|y: int| 0 <= y < before.len() && #[trigger] before[y].0@ == key;
                        lemma_child_at(before, y);
                        assert(after[x].1 == before[y].1);
                        assert(last_child(post, key) == last_child(pre, key));
                    }
                }
            }
            k += 1;
        }
        proof {
            assert(ch.subrange(0, n as int) =~= ch);
            lemma_entries_height_bound(c.entries@, (w.max_depth - d) as nat);
        }
        BrowseTree::Branch(c)
    }

    /// The tree found below the start node: what `browse` prints.  Once the
    /// walk is over it holds every node above the depth limit.
    pub fn tree(&self) -> (t: BrowseTree)
        ensures
            represents(t, self@, 0),
            height(t) <= self@.max_depth,
    {
        proof {
            use_type_invariant(self);
        }
        self.build(0)
    }
}

} // verus!
