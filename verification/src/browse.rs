//! The namespace tree that `browse` builds and prints.
use vstd::prelude::*;
use vstd::string::*;
use crate::text::{chars_of, compare_text, text_lt, text_lt_irreflexive, text_lt_transitive, TextOrder};

verus! {

/// A browsed node: a leaf where the depth limit stopped the walk, otherwise
/// the node's children by browse name.
pub enum BrowseTree {
    Leaf,
    Branch(Children),
}

/// The children of a browsed node, each under its browse name, kept in the
/// order of the names with no name twice: a later child of the same name
/// replaces the earlier one.
pub struct Children {
    pub entries: Vec<(String, BrowseTree)>,
}

/// The names of `s` strictly increase.
pub open spec fn names_sorted(s: Seq<(String, BrowseTree)>) -> bool {
    forall|i: int, j: int| 0 <= i < j < s.len() ==> text_lt(#[trigger] s[i].0@, #[trigger] s[j].0@)
}

/// Some entry of `s` has name `k`.
pub open spec fn has_name(s: Seq<(String, BrowseTree)>, k: Seq<char>) -> bool {
    exists|i: int| 0 <= i < s.len() && #[trigger] s[i].0@ == k
}

/// The entries of `s` keyed by name.
pub open spec fn child_map(s: Seq<(String, BrowseTree)>) -> Map<Seq<char>, BrowseTree> {
    Map::new(
        |k: Seq<char>| has_name(s, k),
        |k: Seq<char>| s[choose|i: int| 0 <= i < s.len() && #[trigger] s[i].0@ == k].1,
    )
}

proof fn lemma_sorted_distinct(s: Seq<(String, BrowseTree)>, i: int, j: int)
    requires
        names_sorted(s),
        0 <= i < s.len(),
        0 <= j < s.len(),
        i != j,
    ensures
        s[i].0@ != s[j].0@,
{
    if i < j {
        assert(text_lt(s[i].0@, s[j].0@));
    } else {
        assert(text_lt(s[j].0@, s[i].0@));
    }
    text_lt_irreflexive(s[i].0@);
}

pub(crate) proof fn lemma_child_at(s: Seq<(String, BrowseTree)>, i: int)
    requires
        names_sorted(s),
        0 <= i < s.len(),
    ensures
        child_map(s).contains_key(s[i].0@),
        child_map(s)[s[i].0@] == s[i].1,
{
    let k = s[i].0@;
    assert(has_name(s, k));
    let j = choose|j: int| 0 <= j < s.len() && #[trigger] s[j].0@ == k;
    if j != i {
        lemma_sorted_distinct(s, i, j);
    }
}

impl Children {
    /// No children.
    pub fn new() -> (r: Children)
        ensures
            r.entries@.len() == 0,
    {
        Children { entries: Vec::new() }
    }

    /// Stores `tree` under `name`, replacing what was stored under that name,
    /// and keeps the names in order.
    pub fn insert(&mut self, name: String, tree: BrowseTree)
        requires
            names_sorted(old(self).entries@),
        ensures
            names_sorted(final(self).entries@),
            child_map(final(self).entries@) == child_map(old(self).entries@).insert(name@, tree),
    {
        insert_sorted(&mut self.entries, name, tree);
    }
}

proof fn lemma_rename_keeps_sorted(s: Seq<(String, BrowseTree)>, p: int, e: (String, BrowseTree))
    requires
        names_sorted(s),
        0 <= p < s.len(),
        e.0@ == s[p].0@,
    ensures
        names_sorted(s.update(p, e)),
{
    let t = s.update(p, e);
    assert forall|i: int, j: int| 0 <= i < j < t.len() implies text_lt(#[trigger] t[i].0@, #[trigger] t[j].0@) by {
        let a = s[i].0@;
        let b = s[j].0@;
        assert(text_lt(a, b));
        assert(t[i].0@ == a);
        assert(t[j].0@ == b);
    }
}

proof fn lemma_insert_keeps_sorted(s: Seq<(String, BrowseTree)>, p: int, e: (String, BrowseTree))
    requires
        names_sorted(s),
        0 <= p <= s.len(),
        forall|i: int| 0 <= i < p ==> text_lt(#[trigger] s[i].0@, e.0@),
        forall|j: int| p <= j < s.len() ==> text_lt(e.0@, #[trigger] s[j].0@),
    ensures
        names_sorted(s.insert(p, e)),
{
    let t = s.insert(p, e);
    assert forall|i: int, j: int| 0 <= i < j < t.len() implies text_lt(#[trigger] t[i].0@, #[trigger] t[j].0@) by {
        if j < p {
            let a = s[i].0@;
            let b = s[j].0@;
            assert(text_lt(a, b));
            assert(t[i].0@ == a);
            assert(t[j].0@ == b);
        } else if j == p {
            let a = s[i].0@;
            assert(text_lt(a, e.0@));
            assert(t[i].0@ == a);
        } else if i < p {
            let a = s[i].0@;
            let b = s[j - 1].0@;
            assert(text_lt(a, e.0@));
            assert(text_lt(e.0@, b));
            text_lt_transitive(a, e.0@, b);
            assert(t[i].0@ == a);
            assert(t[j].0@ == b);
        } else if i == p {
            let b = s[j - 1].0@;
            assert(text_lt(e.0@, b));
            assert(t[j].0@ == b);
        } else {
            let a = s[i - 1].0@;
            let b = s[j - 1].0@;
            assert(text_lt(a, b));
            assert(t[i].0@ == a);
            assert(t[j].0@ == b);
        }
    }
}

fn insert_sorted(entries: &mut Vec<(String, BrowseTree)>, name: String, tree: BrowseTree)
    requires
        names_sorted(old(entries)@),
    ensures
        names_sorted(final(entries)@),
        child_map(final(entries)@) == child_map(old(entries)@).insert(name@, tree),
{
    let ghost old_s = entries@;
    let key = chars_of(name.as_str());
    let mut p: usize = 0;
    let mut order = TextOrder::Less;
    while p < entries.len() && order == TextOrder::Less
        invariant
            entries@ == old_s,
            key@ == name@,
            p <= entries.len(),
            forall|i: int| 0 <= i < p ==> text_lt(#[trigger] old_s[i].0@, name@),
            order != TextOrder::Less ==> p < entries.len()
                && (order == TextOrder::Equal <==> old_s[p as int].0@ == name@)
                && (order == TextOrder::Greater <==> text_lt(name@, old_s[p as int].0@)),
        decreases entries.len() - p, (if order == TextOrder::Less { 1int } else { 0int }),
    {
        let here = chars_of(entries[p].0.as_str());
        order = compare_text(&here, &key);
        if order == TextOrder::Less {
            p += 1;
        }
    }
    let ghost k = name@;
    if order == TextOrder::Equal {
        let old_key = entries[p].0.clone();
        entries.set(p, (old_key, tree));
        proof {
            let s = entries@;
            assert(s == old_s.update(p as int, (old_s[p as int].0, tree)));
            lemma_rename_keeps_sorted(old_s, p as int, (old_s[p as int].0, tree));
            let m1 = child_map(s);
            let m2 = child_map(old_s).insert(k, tree);
            assert forall|q: Seq<char>| m1.contains_key(q) <==> m2.contains_key(q) by {
                if has_name(old_s, q) {
                    let j = choose|j: int| 0 <= j < old_s.len() && #[trigger] old_s[j].0@ == q;
                    assert(s[j].0@ == q);
                }
                if has_name(s, q) {
                    let j = choose|j: int| 0 <= j < s.len() && #[trigger] s[j].0@ == q;
                    assert(old_s[j].0@ == q);
                }
                if q == k {
                    assert(s[p as int].0@ == q);
                }
            }
            assert forall|q: Seq<char>| m1.contains_key(q) implies m1[q] == m2[q] by {
                let j = choose|j: int| 0 <= j < s.len() && #[trigger] s[j].0@ == q;
                lemma_child_at(s, j);
                if j != p {
                    lemma_child_at(old_s, j);
                    lemma_sorted_distinct(s, j, p as int);
                }
            }
            assert(m1 =~= m2);
        }
    } else {
        entries.insert(p, (name, tree));
        proof {
            let s = entries@;
            assert(s == old_s.insert(p as int, (name, tree)));
            assert forall|j: int| p <= j < old_s.len() implies text_lt(k, #[trigger] old_s[j].0@) by {
                if j > p {
                    assert(text_lt(old_s[p as int].0@, old_s[j].0@));
                    text_lt_transitive(k, old_s[p as int].0@, old_s[j].0@);
                }
            }
            lemma_insert_keeps_sorted(old_s, p as int, (name, tree));
            let m1 = child_map(s);
            let m2 = child_map(old_s).insert(k, tree);
            assert forall|q: Seq<char>| m1.contains_key(q) <==> m2.contains_key(q) by {
                if has_name(old_s, q) {
                    let j = choose|j: int| 0 <= j < old_s.len() && #[trigger] old_s[j].0@ == q;
                    if j < p {
                        assert(s[j].0@ == q);
                    } else {
                        assert(s[j + 1].0@ == q);
                    }
                }
                if has_name(s, q) {
                    let j = choose|j: int| 0 <= j < s.len() && #[trigger] s[j].0@ == q;
                    if j < p {
                        assert(old_s[j].0@ == q);
                    } else if j > p {
                        assert(old_s[j - 1].0@ == q);
                    }
                }
                if q == k {
                    assert(s[p as int].0@ == q);
                }
            }
            assert forall|q: Seq<char>| m1.contains_key(q) implies m1[q] == m2[q] by {
                let j = choose|j: int| 0 <= j < s.len() && #[trigger] s[j].0@ == q;
                lemma_child_at(s, j);
                if j < p {
                    lemma_child_at(old_s, j);
                    lemma_sorted_distinct(s, j, p as int);
                } else if j > p {
                    lemma_child_at(old_s, j - 1);
                    lemma_sorted_distinct(s, j, p as int);
                }
            }
            assert(m1 =~= m2);
        }
    }
}

/// The lines that print a tree whose children stand at `depth`: each child
/// in the order of the names, its name at `depth`, followed by the lines of
/// its own subtree one level deeper.
pub open spec fn lines_of(t: BrowseTree, depth: int) -> Seq<(int, Seq<char>)>
    decreases t, 0int,
{
    match t {
        BrowseTree::Leaf => Seq::empty(),
        BrowseTree::Branch(c) => entries_lines(c.entries@, depth),
    }
}

/// The lines of a list of children at `depth`.
pub open spec fn entries_lines(s: Seq<(String, BrowseTree)>, depth: int) -> Seq<(int, Seq<char>)>
    decreases s, 1int,
{
    if s.len() == 0 {
        Seq::empty()
    } else {
        entries_lines(s.drop_last(), depth) + seq![(depth, s.last().0@)] + lines_of(s.last().1, depth + 1)
    }
}

/// How many nodes a tree holds below its root, at every depth.
pub open spec fn node_count(t: BrowseTree) -> nat
    decreases t, 0int,
{
    match t {
        BrowseTree::Leaf => 0,
        BrowseTree::Branch(c) => entries_count(c.entries@),
    }
}

/// How many nodes a list of children holds: each child and everything
/// below it.
pub open spec fn entries_count(s: Seq<(String, BrowseTree)>) -> nat
    decreases s, 1int,
{
    if s.len() == 0 {
        0
    } else {
        entries_count(s.drop_last()) + 1 + node_count(s.last().1)
    }
}

/// Printing a tree gives one line per node of the tree, at every depth:
/// no node is left out and none is printed twice.
pub proof fn one_line_per_node(t: BrowseTree, depth: int)
    ensures
        lines_of(t, depth).len() == node_count(t),
    decreases t, 0int,
{
    match t {
        BrowseTree::Leaf => {},
        BrowseTree::Branch(c) => {
            one_line_per_entry(c.entries@, depth);
        },
    }
}

/// Printing a list of children gives one line per node it holds.
pub proof fn one_line_per_entry(s: Seq<(String, BrowseTree)>, depth: int)
    ensures
        entries_lines(s, depth).len() == entries_count(s),
    decreases s, 1int,
{
    if s.len() > 0 {
        one_line_per_entry(s.drop_last(), depth);
        one_line_per_node(s.last().1, depth + 1);
    }
}

/// Each child of a list is printed at the list's depth: its line stands
/// right after the lines of the children before it, and the lines of its
/// own subtree follow it one level deeper.
pub proof fn child_line_at_depth(s: Seq<(String, BrowseTree)>, depth: int, k: int)
    requires
        0 <= k < s.len(),
    ensures
        entries_lines(s, depth)[entries_count(s.subrange(0, k)) as int] == (depth, s[k].0@),
        entries_lines(s, depth).subrange(
            entries_count(s.subrange(0, k)) + 1int,
            entries_count(s.subrange(0, k + 1)) as int,
        ) == lines_of(s[k].1, depth + 1),
    decreases s.len(),
{
    if k < s.len() - 1 {
        child_line_at_depth(s.drop_last(), depth, k);
        assert(s.drop_last().subrange(0, k) =~= s.subrange(0, k));
        assert(s.drop_last().subrange(0, k + 1) =~= s.subrange(0, k + 1));
        assert(s.drop_last()[k] == s[k]);
        one_line_per_entry(s.drop_last(), depth);
        one_line_per_entry(s.subrange(0, k + 1), depth);
        lemma_prefix_count(s.drop_last(), k + 1);
        assert(s.subrange(0, k + 1).drop_last() =~= s.subrange(0, k));
        let a = entries_count(s.subrange(0, k)) as int;
        let b = entries_count(s.subrange(0, k + 1)) as int;
        assert(a + 1 <= b);
        let pre = entries_lines(s.drop_last(), depth);
        let whole = entries_lines(s, depth);
        assert(b <= pre.len());
        assert(whole[a] == pre[a]);
        assert(whole == pre + seq![(depth, s.last().0@)] + lines_of(s.last().1, depth + 1));
        assert(whole.subrange(entries_count(s.subrange(0, k)) + 1int, entries_count(s.subrange(0, k + 1)) as int)
            =~= pre.subrange(entries_count(s.subrange(0, k)) + 1int, entries_count(s.subrange(0, k + 1)) as int));
    } else {
        assert(s.subrange(0, k) =~= s.drop_last());
        assert(s.subrange(0, k + 1) =~= s);
        one_line_per_entry(s.drop_last(), depth);
        one_line_per_node(s.last().1, depth + 1);
        let pre = entries_lines(s.drop_last(), depth);
        let whole = entries_lines(s, depth);
        assert(whole == pre + seq![(depth, s.last().0@)] + lines_of(s.last().1, depth + 1));
        assert(whole.subrange(pre.len() + 1int, whole.len() as int) =~= lines_of(s.last().1, depth + 1));
    }
}

proof fn lemma_prefix_count(s: Seq<(String, BrowseTree)>, k: int)
    requires
        0 <= k <= s.len(),
    ensures
        entries_count(s.subrange(0, k)) <= entries_count(s),
    decreases s.len(),
{
    if k < s.len() {
        lemma_prefix_count(s.drop_last(), k);
        assert(s.drop_last().subrange(0, k) =~= s.subrange(0, k));
    } else {
        assert(s.subrange(0, k) =~= s);
    }
}

/// How many levels of children a tree has.
pub open spec fn height(t: BrowseTree) -> nat
    decreases t, 0int,
{
    match t {
        BrowseTree::Leaf => 0,
        BrowseTree::Branch(c) => entries_height(c.entries@),
    }
}

/// The height of a list of children: one more than the highest subtree.
pub open spec fn entries_height(s: Seq<(String, BrowseTree)>) -> nat
    decreases s, 1int,
{
    if s.len() == 0 {
        0
    } else {
        let rest = entries_height(s.drop_last());
        let here = 1 + height(s.last().1);
        if rest < here { here } else { rest }
    }
}

/// One printed line of the tree: a child's browse name at its depth.
pub struct TreeLine {
    pub depth: usize,
    pub name: String,
}

/// Printed lines as depths and names.
pub open spec fn line_view(s: Seq<TreeLine>) -> Seq<(int, Seq<char>)> {
    s.map_values(|l: TreeLine| (l.depth as int, l.name@))
}

proof fn lemma_entries_height(s: Seq<(String, BrowseTree)>, i: int)
    requires
        0 <= i < s.len(),
    ensures
        1 + height(s[i].1) <= entries_height(s),
    decreases s.len(),
{
    if i < s.len() - 1 {
        lemma_entries_height(s.drop_last(), i);
        assert(s.drop_last()[i] == s[i]);
    }
}

fn push_lines(t: &BrowseTree, depth: usize, out: &mut Vec<TreeLine>)
    requires
        depth + height(*t) <= usize::MAX,
    ensures
        line_view(final(out)@) == line_view(old(out)@) + lines_of(*t, depth as int),
    decreases t,
{
    match t {
        BrowseTree::Leaf => {
            assert(line_view(out@) =~= line_view(out@) + lines_of(*t, depth as int));
        },
        BrowseTree::Branch(c) => {
            let ghost start = out@;
            let ghost s = c.entries@;
            let mut i: usize = 0;
            assert(line_view(out@) =~= line_view(start) + entries_lines(s.subrange(0, 0), depth as int));
            while i < c.entries.len()
                invariant
                    *t == BrowseTree::Branch(*c),
                    s == c.entries@,
                    i <= s.len(),
                    depth + entries_height(s) <= usize::MAX,
                    line_view(out@) == line_view(start) + entries_lines(s.subrange(0, i as int), depth as int),
                decreases s.len() - i,
            {
                proof {
                    lemma_entries_height(s, i as int);
                    assert(decreases_to!(*t => t->Branch_0));
                    assert(t->Branch_0 == *c);
                    assert(decreases_to!(*c => c.entries));
                    assert(decreases_to!(c.entries => c.entries@));
                    assert(decreases_to!(c.entries@ => c.entries@[i as int]));
                    assert(decreases_to!(c.entries@[i as int] => c.entries@[i as int].1));
                }
                let ghost before = out@;
                out.push(TreeLine { depth, name: c.entries[i].0.clone() });
                push_lines(&c.entries[i].1, depth + 1, out);
                proof {
                    let next = s.subrange(0, i + 1);
                    assert(next.drop_last() =~= s.subrange(0, i as int));
                    assert(next.last() == s[i as int]);
                    assert(line_view(before.push(TreeLine { depth, name: c.entries@[i as int].0 })) =~= line_view(before) + seq![(depth as int, s[i as int].0@)]);
                    assert(line_view(out@) =~= line_view(start) + entries_lines(next, depth as int));
                }
                i += 1;
            }
            assert(s.subrange(0, s.len() as int) =~= s);
        },
    }
}

/// The lines that print `tree`, children at depth 0, each line's name
/// shown after two spaces per level of depth.
pub fn tree_lines(tree: &BrowseTree) -> (r: Vec<TreeLine>)
    requires
        height(*tree) <= usize::MAX,
    ensures
        line_view(r@) == lines_of(*tree, 0),
        r.len() == node_count(*tree),
{
    proof {
        one_line_per_node(*tree, 0);
    }
    let mut out: Vec<TreeLine> = Vec::new();
    push_lines(tree, 0, &mut out);
    assert(line_view(Seq::<TreeLine>::empty()) =~= Seq::<(int, Seq<char>)>::empty());
    assert(lines_of(*tree, 0) =~= Seq::<(int, Seq<char>)>::empty() + lines_of(*tree, 0));
    out
}

} // verus!
