//! The value read from one node, and what a round of reads produces.
use vstd::prelude::*;
use vstd::string::*;
use crate::clock::{is_rfc3339_utc, utc_now_rfc3339};
use crate::json::{json_null, null_text};
use crate::text::{contains_text, has_run};

verus! {

/// The latest reading of one node.  `value` is the JSON text of the value
/// (`null` when there is none), `status` the server's status code in its
/// debug form or an error message, `timestamp` an RFC 3339 time.
#[derive(Debug, Clone)]
pub struct NodeValue {
    pub node_id: String,
    pub value: String,
    pub status: String,
    pub timestamp: String,
}

/// A node reading as text.
pub struct NodeValueView {
    pub node_id: Seq<char>,
    pub value: Seq<char>,
    pub status: Seq<char>,
    pub timestamp: Seq<char>,
}

impl View for NodeValue {
    type V = NodeValueView;

    open spec fn view(&self) -> NodeValueView {
        NodeValueView {
            node_id: self.node_id@,
            value: self.value@,
            status: self.status@,
            timestamp: self.timestamp@,
        }
    }
}

/// The characters of `Error`, whose presence in a status marks a failed
/// read.
pub open spec fn error_marker() -> Seq<char> {
    seq!['E', 'r', 'r', 'o', 'r']
}

/// The status written for a failed read: `Error: ` and the message.
pub open spec fn error_status(message: Seq<char>) -> Seq<char> {
    seq!['E', 'r', 'r', 'o', 'r', ':', ' '] + message
}

/// The reading recorded for a node whose read failed.
pub open spec fn error_view(node_id: Seq<char>, message: Seq<char>, timestamp: Seq<char>) -> NodeValueView {
    NodeValueView {
        node_id,
        value: null_text(),
        status: error_status(message),
        timestamp,
    }
}

/// A reading whose status reports an error.
pub open spec fn is_error_reading(v: NodeValueView) -> bool {
    has_run(v.status, error_marker())
}

/// Some reading of the round reports an error.
pub open spec fn any_error(values: Seq<NodeValue>) -> bool {
    exists|i: int| 0 <= i < values.len() && is_error_reading(#[trigger] values[i]@)
}

/// The status of a failed read is `Error: ` followed by the whole message,
/// and its value is the JSON `null`.
pub proof fn error_reading_shape(node_id: Seq<char>, message: Seq<char>, timestamp: Seq<char>)
    ensures
        error_view(node_id, message, timestamp).status.len() == message.len() + 7,
        error_view(node_id, message, timestamp).status.subrange(0, 7) == seq!['E', 'r', 'r', 'o', 'r', ':', ' '],
        error_view(node_id, message, timestamp).status.subrange(7, message.len() + 7int) == message,
        error_view(node_id, message, timestamp).value == seq!['n', 'u', 'l', 'l'],
        error_view(node_id, message, timestamp).node_id == node_id,
        error_view(node_id, message, timestamp).timestamp == timestamp,
{
    let st = error_view(node_id, message, timestamp).status;
    assert(st.subrange(0, 7) =~= seq!['E', 'r', 'r', 'o', 'r', ':', ' ']);
    assert(st.subrange(7, message.len() + 7int) =~= message);
}

/// A round reports an error exactly when some reading's status holds the
/// word `Error` at some position.
pub proof fn round_error_means_error_word(values: Seq<NodeValue>)
    ensures
        any_error(values) <==> exists|i: int, p: int|
            0 <= i < values.len() && 0 <= p && p + 5 <= values[i].status@.len()
                && #[trigger] values[i].status@.subrange(p, p + 5) == seq!['E', 'r', 'r', 'o', 'r'],
{
    assert(error_marker() =~= seq!['E', 'r', 'r', 'o', 'r']);
    if any_error(values) {
        let i = choose|i: int| 0 <= i < values.len() && is_error_reading(#[trigger] values[i]@);
        let p = choose|p: int| 0 <= p && p + error_marker().len() <= values[i]@.status.len()
            && #[trigger] values[i]@.status.subrange(p, p + error_marker().len()) == error_marker();
        assert(values[i].status@.subrange(p, p + 5) == seq!['E', 'r', 'r', 'o', 'r']);
    }
    if exists|i: int, p: int|
        0 <= i < values.len() && 0 <= p && p + 5 <= values[i].status@.len()
            && #[trigger] values[i].status@.subrange(p, p + 5) == seq!['E', 'r', 'r', 'o', 'r'] {
        let (i, p) = choose|i: int, p: int|
            0 <= i < values.len() && 0 <= p && p + 5 <= values[i].status@.len()
                && #[trigger] values[i].status@.subrange(p, p + 5) == seq!['E', 'r', 'r', 'o', 'r'];
        assert(values[i]@.status.subrange(p, p + error_marker().len()) == error_marker());
        assert(is_error_reading(values[i]@));
    }
}

impl NodeValue {
    /// A copy of this reading.
    pub fn duplicate(&self) -> (r: NodeValue)
        ensures
            r@ == self@,
    {
        NodeValue {
            node_id: self.node_id.clone(),
            value: self.value.clone(),
            status: self.status.clone(),
            timestamp: self.timestamp.clone(),
        }
    }

    /// The reading for `node_id` when reading failed with `message`, stamped
    /// with `timestamp`.
    pub fn error_at(node_id: &str, message: &str, timestamp: String) -> (r: NodeValue)
        ensures
            r@ == error_view(node_id@, message@, timestamp@),
    {
        let prefix = "Error: ";
        proof {
            reveal_strlit("Error: ");
            assert(prefix@ =~= seq!['E', 'r', 'r', 'o', 'r', ':', ' ']);
        }
        let status = String::from_str(prefix).concat(message);
        NodeValue { node_id: String::from_str(node_id), value: json_null(), status, timestamp }
    }

    /// The reading for `node_id` when reading failed with `message`, stamped
    /// with the current time.
    pub fn error(node_id: &str, message: &str) -> (r: NodeValue)
        ensures
            r@.node_id == node_id@,
            r@.value == null_text(),
            r@.status == error_status(message@),
            is_rfc3339_utc(r@.timestamp),
    {
        NodeValue::error_at(node_id, message, utc_now_rfc3339())
    }
}

/// Whether the status of `value` reports an error.
pub fn is_error(value: &NodeValue) -> (r: bool)
    ensures
        r == is_error_reading(value@),
{
    let marker = "Error";
    proof {
        reveal_strlit("Error");
        assert(marker@ =~= error_marker());
    }
    contains_text(value.status.as_str(), marker)
}

/// Whether any reading of the round reports an error: the condition on
/// which the bridge drops its session and reconnects.
pub fn has_error(values: &Vec<NodeValue>) -> (r: bool)
    ensures
        r == any_error(values@),
{
    let mut i: usize = 0;
    while i < values.len()
        invariant
            i <= values.len(),
            forall|j: int| 0 <= j < i ==> !is_error_reading(#[trigger] values@[j]@),
        decreases values.len() - i,
    {
        if is_error(&values[i]) {
            return true;
        }
        i += 1;
    }
    false
}

} // verus!
