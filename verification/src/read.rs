//! Turning the server's answer to one round of reads into node readings.
use vstd::prelude::*;
use vstd::string::*;
use crate::clock::{is_rfc3339_utc, utc_now_rfc3339};
use crate::json::{json_null, null_text};
use crate::node::{any_error, error_view, is_error_reading, error_marker, NodeValue, NodeValueView};

verus! {

/// What the server returned for one node: the debug text of its status
/// code, the JSON text of its value and the RFC 3339 source timestamp,
/// each where the server sent one.
pub struct ReadResult {
    pub status: Option<String>,
    pub value: Option<String>,
    pub source_timestamp: Option<String>,
}

/// The status written when the server sent no status code.
pub open spec fn unknown_status() -> Seq<char> {
    seq!['U', 'n', 'k', 'n', 'o', 'w', 'n']
}

/// The reading recorded for `node_id` from the server's `result`, with `now`
/// standing in for a missing source timestamp.
pub open spec fn reading_from(node_id: Seq<char>, result: ReadResult, now: Seq<char>) -> NodeValueView {
    NodeValueView {
        node_id,
        value: match result.value {
            Some(v) => v@,
            None => null_text(),
        },
        status: match result.status {
            Some(s) => s@,
            None => unknown_status(),
        },
        timestamp: match result.source_timestamp {
            Some(t) => t@,
            None => now,
        },
    }
}

/// A reading keeps what the server sent, each part on its own: the value
/// is the value sent whenever one was sent, whatever the status (and the
/// JSON `null` only when none was); the status is the status sent, if any;
/// the time is the source time sent, if any; the node id is the id asked
/// for.
pub proof fn reading_keeps_what_server_sent(node_id: Seq<char>, result: ReadResult, now: Seq<char>)
    ensures
        reading_from(node_id, result, now).node_id == node_id,
        result.value matches Some(v) ==> reading_from(node_id, result, now).value == v@,
        result.value is None ==> reading_from(node_id, result, now).value == seq!['n', 'u', 'l', 'l'],
        result.status matches Some(st) ==> reading_from(node_id, result, now).status == st@,
        result.status is None ==> reading_from(node_id, result, now).status == seq!['U', 'n', 'k', 'n', 'o', 'w', 'n'],
        result.source_timestamp matches Some(t) ==> reading_from(node_id, result, now).timestamp == t@,
        result.source_timestamp is None ==> reading_from(node_id, result, now).timestamp == now,
{
}

fn text_or(v: &Option<String>, fallback: String) -> (r: String)
    ensures
        r@ == match *v {
            Some(s) => s@,
            None => fallback@,
        },
{
    match v {
        Some(s) => s.clone(),
        None => fallback,
    }
}

/// The reading of node `node_id` from the server's `result`, `now` standing
/// in for a missing source timestamp.
pub fn reading_at(node_id: &String, result: &ReadResult, now: String) -> (r: NodeValue)
    ensures
        r@ == reading_from(node_id@, *result, now@),
        r@.node_id == node_id@,
        result.value matches Some(v) ==> r@.value == v@,
        result.value is None ==> r@.value == null_text(),
        result.status matches Some(st) ==> r@.status == st@,
        result.source_timestamp matches Some(t) ==> r@.timestamp == t@,
{
    proof {
        reading_keeps_what_server_sent(node_id@, *result, now@);
    }
    let unknown = "Unknown";
    proof {
        reveal_strlit("Unknown");
        assert(unknown@ =~= unknown_status());
    }
    let value = text_or(&result.value, json_null());
    let status = text_or(&result.status, String::from_str(unknown));
    let timestamp = text_or(&result.source_timestamp, now);
    NodeValue { node_id: node_id.clone(), value, status, timestamp }
}

/// The readings of a successful round: the `i`-th node id paired with the
/// `i`-th result, as far as both lists go.
pub fn nodes_from_read_at(node_ids: &Vec<String>, results: &Vec<ReadResult>, now: &String) -> (r: Vec<NodeValue>)
    ensures
        r.len() == if node_ids.len() <= results.len() { node_ids.len() } else { results.len() },
        forall|i: int| 0 <= i < r.len() ==> #[trigger] r@[i]@ == reading_from(node_ids@[i]@, results@[i], now@),
{
    let n = if node_ids.len() <= results.len() { node_ids.len() } else { results.len() };
    let mut r: Vec<NodeValue> = Vec::new();
    let mut i: usize = 0;
    while i < n
        invariant
            n <= node_ids.len(),
            n <= results.len(),
            i <= n,
            r.len() == i,
            forall|j: int| 0 <= j < i ==> #[trigger] r@[j]@ == reading_from(node_ids@[j]@, results@[j], now@),
        decreases n - i,
    {
        r.push(reading_at(&node_ids[i], &results[i], now.clone()));
        i += 1;
    }
    r
}

/// The readings of a successful round, a missing source timestamp replaced
/// by the time at which the reading is made.
pub fn nodes_from_read(node_ids: &Vec<String>, results: &Vec<ReadResult>) -> (r: Vec<NodeValue>)
    ensures
        r.len() == if node_ids.len() <= results.len() { node_ids.len() } else { results.len() },
        forall|i: int| 0 <= i < r.len() ==> {
            &&& (#[trigger] r@[i])@ == reading_from(node_ids@[i]@, results@[i], r@[i]@.timestamp)
            &&& results@[i].source_timestamp matches Some(t) ==> r@[i]@.timestamp == t@
            &&& results@[i].source_timestamp is None ==> is_rfc3339_utc(r@[i]@.timestamp)
        },
{
    let n = if node_ids.len() <= results.len() { node_ids.len() } else { results.len() };
    let mut r: Vec<NodeValue> = Vec::new();
    let mut i: usize = 0;
    while i < n
        invariant
            n <= node_ids.len(),
            n <= results.len(),
            i <= n,
            r.len() == i,
            forall|j: int| 0 <= j < i ==> {
                &&& (#[trigger] r@[j])@ == reading_from(node_ids@[j]@, results@[j], r@[j]@.timestamp)
                &&& results@[j].source_timestamp matches Some(t) ==> r@[j]@.timestamp == t@
                &&& results@[j].source_timestamp is None ==> is_rfc3339_utc(r@[j]@.timestamp)
            },
        decreases n - i,
    {
        let now = match &results[i].source_timestamp {
            Some(_) => String::new(),
            None => utc_now_rfc3339(),
        };
        let v = reading_at(&node_ids[i], &results[i], now);
        r.push(v);
        proof {
            assert(r@[i as int]@ == reading_from(node_ids@[i as int]@, results@[i as int], r@[i as int]@.timestamp));
        }
        i += 1;
    }
    r
}

/// The readings of a failed round: every node carries the error `message`.
pub fn nodes_from_failure_at(node_ids: &Vec<String>, message: &str, now: &String) -> (r: Vec<NodeValue>)
    ensures
        r.len() == node_ids.len(),
        forall|i: int| 0 <= i < r.len() ==> #[trigger] r@[i]@ == error_view(node_ids@[i]@, message@, now@),
{
    let mut r: Vec<NodeValue> = Vec::new();
    let mut i: usize = 0;
    while i < node_ids.len()
        invariant
            i <= node_ids.len(),
            r.len() == i,
            forall|j: int| 0 <= j < i ==> #[trigger] r@[j]@ == error_view(node_ids@[j]@, message@, now@),
        decreases node_ids.len() - i,
    {
        r.push(NodeValue::error_at(node_ids[i].as_str(), message, now.clone()));
        i += 1;
    }
    r
}

/// The readings of a failed round, each stamped with the time at which it
/// is made.
pub fn nodes_from_failure(node_ids: &Vec<String>, message: &str) -> (r: Vec<NodeValue>)
    ensures
        r.len() == node_ids.len(),
        forall|i: int| 0 <= i < r.len() ==>
            #[trigger] r@[i]@ == error_view(node_ids@[i]@, message@, r@[i]@.timestamp)
                && is_rfc3339_utc(r@[i]@.timestamp),
{
    let mut r: Vec<NodeValue> = Vec::new();
    let mut i: usize = 0;
    while i < node_ids.len()
        invariant
            i <= node_ids.len(),
            r.len() == i,
            forall|j: int| 0 <= j < i ==> #[trigger] r@[j]@ == error_view(node_ids@[j]@, message@, r@[j]@.timestamp)
                && is_rfc3339_utc(r@[j]@.timestamp),
        decreases node_ids.len() - i,
    {
        r.push(NodeValue::error(node_ids[i].as_str(), message));
        i += 1;
    }
    r
}

/// A reading recorded for a failed read always reports an error, whatever
/// the message: a failed round makes the bridge reconnect.
pub proof fn failed_reading_reports_error(node_id: Seq<char>, message: Seq<char>, timestamp: Seq<char>)
    ensures
        is_error_reading(error_view(node_id, message, timestamp)),
{
    let v = error_view(node_id, message, timestamp);
    assert(v.status.subrange(0int, 0int + error_marker().len()) =~= error_marker());
}

/// A failed round of reads over at least one node always reports an error,
/// so the polling loop drops the session after it.
pub proof fn failed_round_reports_error(values: Seq<NodeValue>, node_ids: Seq<Seq<char>>, message: Seq<char>, timestamp: Seq<char>)
    requires
        values.len() > 0,
        values.len() == node_ids.len(),
        forall|i: int| 0 <= i < values.len() ==> #[trigger] values[i]@ == error_view(node_ids[i], message, timestamp),
    ensures
        any_error(values),
{
    failed_reading_reports_error(node_ids[0], message, timestamp);
    assert(values[0]@ == error_view(node_ids[0], message, timestamp));
    assert(is_error_reading(values[0]@));
}

} // verus!
