//! The state behind the REST API: the latest reading of every node, when
//! the readings were last updated, and the last polling error.
use vstd::prelude::*;
use crate::clock::{is_rfc3339_utc, utc_now_rfc3339};
use crate::node::{NodeValue, NodeValueView};
use crate::text::same_text;

verus! {

/// No two readings in `s` belong to the same node.
pub open spec fn ids_distinct(s: Seq<NodeValue>) -> bool {
    forall|i: int, j: int|
        0 <= i < s.len() && 0 <= j < s.len() && i != j ==> #[trigger] s[i].node_id@ != #[trigger] s[j].node_id@
}

/// Some reading in `s` belongs to node `k`.
pub open spec fn holds_id(s: Seq<NodeValue>, k: Seq<char>) -> bool {
    exists|i: int| 0 <= i < s.len() && #[trigger] s[i].node_id@ == k
}

/// The readings of `s` keyed by node id.
pub open spec fn table(s: Seq<NodeValue>) -> Map<Seq<char>, NodeValueView> {
    Map::new(
        |k: Seq<char>| holds_id(s, k),
        |k: Seq<char>| s[choose|i: int| 0 <= i < s.len() && #[trigger] s[i].node_id@ == k]@,
    )
}

/// The table after storing each reading of `values` in turn, each under its
/// node id, a later reading replacing an earlier one.
pub open spec fn stored(m: Map<Seq<char>, NodeValueView>, values: Seq<NodeValue>) -> Map<Seq<char>, NodeValueView>
    decreases values.len(),
{
    if values.len() == 0 {
        m
    } else {
        stored(m, values.drop_last()).insert(values.last().node_id@, values.last()@)
    }
}

/// The state behind the REST API.
pub struct ApiState {
    nodes: Vec<NodeValue>,
    last_updated: Option<String>,
    error: Option<String>,
}

/// The API state as values: readings keyed by node id, the time of the last
/// update and the last polling error.
pub struct ApiStateView {
    pub nodes: Map<Seq<char>, NodeValueView>,
    pub last_updated: Option<Seq<char>>,
    pub error: Option<Seq<char>>,
}

/// An optional text as characters.
pub open spec fn opt_text(t: Option<String>) -> Option<Seq<char>> {
    match t {
        Some(s) => Some(s@),
        None => None,
    }
}

impl View for ApiState {
    type V = ApiStateView;

    closed spec fn view(&self) -> ApiStateView {
        ApiStateView {
            nodes: table(self.nodes@),
            last_updated: opt_text(self.last_updated),
            error: opt_text(self.error),
        }
    }
}

impl ApiState {
    #[verifier::type_invariant]
    spec fn distinct_nodes(self) -> bool {
        ids_distinct(self.nodes@)
    }

    /// The state before the first update: no readings, no time, no error.
    pub fn new() -> (r: ApiState)
        ensures
            r@.nodes == Map::<Seq<char>, NodeValueView>::empty(),
            r@.last_updated is None,
            r@.error is None,
    {
        let r = ApiState { nodes: Vec::new(), last_updated: None, error: None };
        assert(r@.nodes =~= Map::<Seq<char>, NodeValueView>::empty());
        r
    }

    /// The time of the last update, if any.
    pub fn last_updated(&self) -> (r: &Option<String>)
        ensures
            opt_text(*r) == self@.last_updated,
    {
        &self.last_updated
    }

    /// The last polling error, if any.
    pub fn error(&self) -> (r: &Option<String>)
        ensures
            opt_text(*r) == self@.error,
    {
        &self.error
    }

    /// Every stored reading, one per node, in no particular order.
    pub fn nodes(&self) -> (r: &Vec<NodeValue>)
        ensures
            ids_distinct(r@),
            table(r@) == self@.nodes,
    {
        proof {
            use_type_invariant(self);
        }
        &self.nodes
    }

    /// The stored reading of node `node_id`; `None` when the node has none
    /// (the API answers 404 then).
    pub fn get_node(&self, node_id: &str) -> (r: Option<NodeValue>)
        ensures
            match r {
                Some(v) => self@.nodes.contains_key(node_id@) && v@ == self@.nodes[node_id@],
                None => !self@.nodes.contains_key(node_id@),
            },
    {
        proof {
            use_type_invariant(self);
        }
        match find(&self.nodes, node_id) {
            Some(i) => {
                proof {
                    lemma_table_at(self.nodes@, i as int);
                }
                Some(self.nodes[i].duplicate())
            },
            None => None,
        }
    }
}

/// Stores `value` under its node id, replacing the reading already stored
/// for that node.
fn upsert(nodes: &mut Vec<NodeValue>, value: NodeValue)
    requires
        ids_distinct(old(nodes)@),
    ensures
        ids_distinct(final(nodes)@),
        table(final(nodes)@) == table(old(nodes)@).insert(value.node_id@, value@),
{
    let ghost old_nodes = nodes@;
    let ghost id = value.node_id@;
    let ghost v = value@;
    match find(nodes, value.node_id.as_str()) {
        Some(i) => {
            nodes[i] = value;
            proof {
                assert(nodes@ == old_nodes.update(i as int, value));
                let m1 = table(nodes@);
                let m2 = table(old_nodes).insert(id, v);
                assert forall|a: int, b: int|
                    0 <= a < nodes@.len() && 0 <= b < nodes@.len() && a != b implies
                    #[trigger] nodes@[a].node_id@ != #[trigger] nodes@[b].node_id@ by {
                    assert(old_nodes[a].node_id@ == nodes@[a].node_id@);
                    assert(old_nodes[b].node_id@ == nodes@[b].node_id@);
                }
                assert forall|k: Seq<char>| m1.contains_key(k) <==> m2.contains_key(k) by {
                    if holds_id(old_nodes, k) {
                        let j = choose|j: int| 0 <= j < old_nodes.len() && #[trigger] old_nodes[j].node_id@ == k;
                        assert(nodes@[j].node_id@ == k);
                    }
                    if holds_id(nodes@, k) {
                        let j = choose|j: int| 0 <= j < nodes@.len() && #[trigger] nodes@[j].node_id@ == k;
                        assert(old_nodes[j].node_id@ == k);
                    }
                }
                assert forall|k: Seq<char>| m1.contains_key(k) implies m1[k] == m2[k] by {
                    let j = choose|j: int| 0 <= j < nodes@.len() && #[trigger] nodes@[j].node_id@ == k;
                    lemma_table_at(nodes@, j);
                    if j != i {
                        lemma_table_at(old_nodes, j);
                    }
                }
                assert(m1 =~= m2);
            }
        },
        None => {
            nodes.push(value);
            proof {
                assert(nodes@ == old_nodes.push(value));
                let m1 = table(nodes@);
                let m2 = table(old_nodes).insert(id, v);
                let n = old_nodes.len() as int;
                assert forall|a: int, b: int|
                    0 <= a < nodes@.len() && 0 <= b < nodes@.len() && a != b implies
                    #[trigger] nodes@[a].node_id@ != #[trigger] nodes@[b].node_id@ by {
                    if a == n {
                        assert(old_nodes[b].node_id@ == nodes@[b].node_id@);
                    } else if b == n {
                        assert(old_nodes[a].node_id@ == nodes@[a].node_id@);
                    } else {
                        assert(old_nodes[a].node_id@ == nodes@[a].node_id@);
                        assert(old_nodes[b].node_id@ == nodes@[b].node_id@);
                    }
                }
                assert forall|k: Seq<char>| m1.contains_key(k) <==> m2.contains_key(k) by {
                    if holds_id(old_nodes, k) {
                        let j = choose|j: int| 0 <= j < old_nodes.len() && #[trigger] old_nodes[j].node_id@ == k;
                        assert(nodes@[j].node_id@ == k);
                    }
                    if k == id {
                        assert(nodes@[n].node_id@ == k);
                    }
                    if holds_id(nodes@, k) {
                        let j = choose|j: int| 0 <= j < nodes@.len() && #[trigger] nodes@[j].node_id@ == k;
                        if j < n {
                            assert(old_nodes[j].node_id@ == k);
                        }
                    }
                }
                assert forall|k: Seq<char>| m1.contains_key(k) implies m1[k] == m2[k] by {
                    let j = choose|j: int| 0 <= j < nodes@.len() && #[trigger] nodes@[j].node_id@ == k;
                    lemma_table_at(nodes@, j);
                    if j != n {
                        lemma_table_at(old_nodes, j);
                    }
                }
                assert(m1 =~= m2);
            }
        },
    }
}

/// Stores every reading of `values`, in order, under its node id, and
/// records `timestamp` as the time of the update and `error` as the
/// polling error.
pub fn update_state_at(state: &mut ApiState, values: Vec<NodeValue>, error: Option<String>, timestamp: String)
    ensures
        final(state)@.nodes == stored(old(state)@.nodes, values@),
        final(state)@.last_updated == Some(timestamp@),
        final(state)@.error == opt_text(error),
{
    proof {
        use_type_invariant(&*state);
    }
    let ghost start = table(state.nodes@);
    state.last_updated = Some(timestamp);
    state.error = error;
    let mut nodes: Vec<NodeValue> = Vec::new();
    std::mem::swap(&mut nodes, &mut state.nodes);
    let mut i: usize = 0;
    while i < values.len()
        invariant
            i <= values.len(),
            ids_distinct(nodes@),
            table(nodes@) == stored(start, values@.subrange(0, i as int)),
        decreases values.len() - i,
    {
        upsert(&mut nodes, values[i].duplicate());
        proof {
            let next = values@.subrange(0, i + 1);
            assert(next.drop_last() =~= values@.subrange(0, i as int));
        }
        i += 1;
    }
    assert(values@.subrange(0, values.len() as int) =~= values@);
    state.nodes = nodes;
}

/// Stores every reading of `values` and records `error`, stamping the
/// update with the current time.
pub fn update_state(state: &mut ApiState, values: Vec<NodeValue>, error: Option<String>)
    ensures
        final(state)@.nodes == stored(old(state)@.nodes, values@),
        final(state)@.last_updated matches Some(t) && is_rfc3339_utc(t),
        final(state)@.error == opt_text(error),
{
    update_state_at(state, values, error, utc_now_rfc3339());
}

/// The last reading in `values` that belongs to node `k`, if any.
pub open spec fn last_reading(values: Seq<NodeValue>, k: Seq<char>) -> Option<NodeValueView>
    decreases values.len(),
{
    if values.len() == 0 {
        None
    } else if values.last().node_id@ == k {
        Some(values.last()@)
    } else {
        last_reading(values.drop_last(), k)
    }
}

/// What a read of node `k` gives back after an update with `values`: the
/// last of those readings that belongs to `k`, or, when none does, what
/// was stored for `k` before (nothing, if nothing was).
pub proof fn read_after_update(m: Map<Seq<char>, NodeValueView>, values: Seq<NodeValue>, k: Seq<char>)
    ensures
        match last_reading(values, k) {
            Some(v) => stored(m, values).contains_key(k) && stored(m, values)[k] == v,
            None => stored(m, values).contains_key(k) == m.contains_key(k)
                && (m.contains_key(k) ==> stored(m, values)[k] == m[k]),
        },
    decreases values.len(),
{
    if values.len() > 0 {
        read_after_update(m, values.drop_last(), k);
    }
}

/// Storing the same readings a second time changes nothing: polling a node
/// whose value has not changed leaves the table as it was.
pub proof fn update_idempotent(m: Map<Seq<char>, NodeValueView>, values: Seq<NodeValue>)
    ensures
        stored(stored(m, values), values) == stored(m, values),
{
    let once = stored(m, values);
    let twice = stored(once, values);
    assert forall|k: Seq<char>| #[trigger] twice.contains_key(k) == once.contains_key(k)
        && (once.contains_key(k) ==> twice[k] == once[k]) by {
        read_after_update(m, values, k);
        read_after_update(once, values, k);
    }
    assert(twice =~= once);
}

/// No update removes a node: a reading stored before is still there after.
pub proof fn update_keeps_nodes(m: Map<Seq<char>, NodeValueView>, values: Seq<NodeValue>, k: Seq<char>)
    requires
        m.contains_key(k),
    ensures
        stored(m, values).contains_key(k),
{
    read_after_update(m, values, k);
}

impl Default for ApiState {
    /// The state before the first update.
    fn default() -> (r: ApiState)
        ensures
            r@.nodes == Map::<Seq<char>, NodeValueView>::empty(),
            r@.last_updated is None,
            r@.error is None,
    {
        ApiState::new()
    }
}

/// Where in `nodes` the reading of `node_id` stands.
fn find(nodes: &Vec<NodeValue>, node_id: &str) -> (r: Option<usize>)
    ensures
        match r {
            Some(i) => i < nodes.len() && nodes@[i as int].node_id@ == node_id@,
            None => !holds_id(nodes@, node_id@),
        },
{
    let mut i: usize = 0;
    while i < nodes.len()
        invariant
            i <= nodes.len(),
            forall|j: int| 0 <= j < i ==> #[trigger] nodes@[j].node_id@ != node_id@,
        decreases nodes.len() - i,
    {
        if same_text(nodes[i].node_id.as_str(), node_id) {
            return Some(i);
        }
        i += 1;
    }
    None
}

/// In a table without repeated ids, the reading stored at `i` is what the
/// table holds under its id.
proof fn lemma_table_at(s: Seq<NodeValue>, i: int)
    requires
        ids_distinct(s),
        0 <= i < s.len(),
    ensures
        table(s).contains_key(s[i].node_id@),
        table(s)[s[i].node_id@] == s[i]@,
{
    let k = s[i].node_id@;
    assert(holds_id(s, k));
    let j = choose|j: int| 0 <= j < s.len() && #[trigger] s[j].node_id@ == k;
    assert(j == i);
}

} // verus!
