//! What the live terminal display shows for each reading.
use vstd::prelude::*;
use vstd::string::*;
use crate::json::null_text;
use crate::node::NodeValue;
use crate::text::{contains_text, has_run, same_text};

verus! {

/// How a status is shown: good ones in green, bad ones in red, the rest in
/// yellow.
#[derive(Debug, Clone, Copy, PartialEq, Eq, Structural)]
pub enum StatusStyle {
    Good,
    Bad,
    Other,
}

pub open spec fn good_text() -> Seq<char> {
    seq!['G', 'o', 'o', 'd']
}

pub open spec fn bad_text() -> Seq<char> {
    seq!['B', 'a', 'd']
}

/// The style of a status: good when it mentions `Good` (or is `Good`),
/// otherwise bad when it mentions `Bad`, otherwise neither.
pub open spec fn style_of(status: Seq<char>) -> StatusStyle {
    if has_run(status, good_text()) || status == good_text() {
        StatusStyle::Good
    } else if has_run(status, bad_text()) {
        StatusStyle::Bad
    } else {
        StatusStyle::Other
    }
}

/// `word` occurs somewhere in `status`, starting at some position.
pub open spec fn mentions(status: Seq<char>, word: Seq<char>) -> bool {
    exists|i: int| 0 <= i && i + word.len() <= status.len() && #[trigger] status.subrange(i, i + word.len()) == word
}

/// A status is shown as good when it mentions `Good` anywhere (or is
/// `Good`); otherwise as bad when it mentions `Bad` anywhere, not only at
/// its start (as in `Error: BadTimeout`); otherwise neither.
pub proof fn style_follows_mentions(status: Seq<char>)
    ensures
        mentions(status, seq!['G', 'o', 'o', 'd']) ==> style_of(status) == StatusStyle::Good,
        status == seq!['G', 'o', 'o', 'd'] ==> style_of(status) == StatusStyle::Good,
        !mentions(status, seq!['G', 'o', 'o', 'd']) && status != seq!['G', 'o', 'o', 'd']
            && mentions(status, seq!['B', 'a', 'd']) ==> style_of(status) == StatusStyle::Bad,
        !mentions(status, seq!['G', 'o', 'o', 'd']) && status != seq!['G', 'o', 'o', 'd']
            && !mentions(status, seq!['B', 'a', 'd']) ==> style_of(status) == StatusStyle::Other,
{
    assert(good_text() =~= seq!['G', 'o', 'o', 'd']);
    assert(bad_text() =~= seq!['B', 'a', 'd']);
    assert(has_run(status, good_text()) == mentions(status, seq!['G', 'o', 'o', 'd']));
    assert(has_run(status, bad_text()) == mentions(status, seq!['B', 'a', 'd']));
}

/// The style in which the status of `node` is shown.
pub fn status_style(node: &NodeValue) -> (r: StatusStyle)
    ensures
        r == style_of(node.status@),
        !mentions(node.status@, seq!['G', 'o', 'o', 'd']) && node.status@ != seq!['G', 'o', 'o', 'd']
            && mentions(node.status@, seq!['B', 'a', 'd']) ==> r == StatusStyle::Bad,
{
    proof {
        style_follows_mentions(node.status@);
    }
    let good = "Good";
    let bad = "Bad";
    proof {
        reveal_strlit("Good");
        reveal_strlit("Bad");
        assert(good@ =~= good_text());
        assert(bad@ =~= bad_text());
    }
    let status = node.status.as_str();
    if contains_text(status, good) || same_text(status, good) {
        StatusStyle::Good
    } else if contains_text(status, bad) {
        StatusStyle::Bad
    } else {
        StatusStyle::Other
    }
}

/// The text shown in the value column of `node`: `None` when the node has
/// no value (a dash is shown then), otherwise the JSON text of the value.
pub fn value_cell(node: &NodeValue) -> (r: Option<String>)
    ensures
        match r {
            None => node.value@ == null_text(),
            Some(t) => node.value@ != null_text() && t@ == node.value@,
        },
{
    let null = "null";
    proof {
        reveal_strlit("null");
        assert(null@ =~= null_text());
    }
    if same_text(node.value.as_str(), null) {
        None
    } else {
        Some(node.value.clone())
    }
}

/// One line of the live display: the node id, the value column and the
/// style of the status.
pub struct DisplayRow {
    pub node_id: String,
    pub value: Option<String>,
    pub status: String,
    pub style: StatusStyle,
}

/// The lines of the live display, one per reading, in the order read.
pub fn display_rows(nodes: &Vec<NodeValue>) -> (r: Vec<DisplayRow>)
    ensures
        r.len() == nodes.len(),
        forall|i: int| 0 <= i < r.len() ==> {
            let row = #[trigger] r@[i];
            &&& row.node_id@ == nodes@[i].node_id@
            &&& row.status@ == nodes@[i].status@
            &&& row.style == style_of(nodes@[i].status@)
            &&& match row.value {
                None => nodes@[i].value@ == null_text(),
                Some(t) => nodes@[i].value@ != null_text() && t@ == nodes@[i].value@,
            }
        },
{
    let mut r: Vec<DisplayRow> = Vec::new();
    let mut i: usize = 0;
    while i < nodes.len()
        invariant
            i <= nodes.len(),
            r.len() == i,
            forall|j: int| 0 <= j < i ==> {
                let row = #[trigger] r@[j];
                &&& row.node_id@ == nodes@[j].node_id@
                &&& row.status@ == nodes@[j].status@
                &&& row.style == style_of(nodes@[j].status@)
                &&& match row.value {
                    None => nodes@[j].value@ == null_text(),
                    Some(t) => nodes@[j].value@ != null_text() && t@ == nodes@[j].value@,
                }
            },
        decreases nodes.len() - i,
    {
        let node = &nodes[i];
        let row = DisplayRow {
            node_id: node.node_id.clone(),
            value: value_cell(node),
            status: node.status.clone(),
            style: status_style(node),
        };
        r.push(row);
        i += 1;
    }
    r
}

} // verus!
