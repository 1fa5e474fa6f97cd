use hermes::browse::{tree_lines, BrowseTree, Children};
use hermes::client::{browse_start, OpcClient};
use hermes::node::NodeValue;
use hermes::session::{round_error_message, PollLoop, Step, RETRY_SECS};
use hermes::walk::BrowseWalk;

fn reading(id: &str, status: &str) -> NodeValue {
    NodeValue { node_id: id.to_string(), value: "1".to_string(), status: status.to_string(), timestamp: "T".to_string() }
}

#[test]
fn loop_connects_reads_and_reconnects_on_error() {
    let mut l = PollLoop::new();
    assert_eq!(l.next_step(), Step::Connect);
    assert_eq!(l.on_connect_failed(), RETRY_SECS);
    assert_eq!(RETRY_SECS, 2);
    assert_eq!(l.next_step(), Step::Connect);
    l.on_connected();
    assert_eq!(l.next_step(), Step::Read);
    assert!(!l.on_read(&vec![reading("a", "Good")]));
    assert_eq!(l.next_step(), Step::Read);
    assert!(l.on_read(&vec![reading("a", "Good"), reading("b", "Error: BadTimeout")]));
    assert_eq!(l.next_step(), Step::Connect);
}

#[test]
fn loop_counts_rows() {
    let mut l = PollLoop::new();
    assert_eq!(l.rows_written(), 0);
    l.on_row_written();
    l.on_row_written();
    assert_eq!(l.rows_written(), 2);
}

#[test]
fn round_error_text() {
    assert_eq!(round_error_message(&vec![reading("a", "Good")]), None);
    assert_eq!(
        round_error_message(&vec![reading("a", "Error: x")]),
        Some("One or more read errors".to_string())
    );
}

#[test]
fn client_and_start_node() {
    let c = OpcClient::new("opc.tcp://localhost:4840");
    assert_eq!(c.endpoint_url(), "opc.tcp://localhost:4840");
    assert_eq!(browse_start(None), "i=85");
    assert_eq!(browse_start(Some("ns=2;s=MyFolder".to_string())), "ns=2;s=MyFolder");
}

#[test]
fn children_sorted_and_replaced() {
    let mut c = Children::new();
    c.insert("b".to_string(), BrowseTree::Leaf);
    c.insert("a".to_string(), BrowseTree::Leaf);
    c.insert("c".to_string(), BrowseTree::Leaf);
    let mut inner = Children::new();
    inner.insert("x".to_string(), BrowseTree::Leaf);
    c.insert("b".to_string(), BrowseTree::Branch(inner));
    let names: Vec<&str> = c.entries.iter().map(|e| e.0.as_str()).collect();
    assert_eq!(names, vec!["a", "b", "c"]);
    let lines = tree_lines(&BrowseTree::Branch(c));
    let shown: Vec<(usize, &str)> = lines.iter().map(|l| (l.depth, l.name.as_str())).collect();
    assert_eq!(shown, vec![(0, "a"), (0, "b"), (1, "x"), (0, "c")]);
}

#[test]
fn depth_zero_walk_is_a_leaf() {
    let w = BrowseWalk::new(0);
    assert_eq!(w.next_request(), None);
    assert!(matches!(w.tree(), BrowseTree::Leaf));
}

#[test]
fn walk_goes_depth_first_and_stops_at_limit() {
    let mut w = BrowseWalk::new(2);
    assert_eq!(w.next_request(), Some(0));
    let base = w.on_browsed(vec!["Server".to_string(), "Devices".to_string()]);
    assert_eq!(base, 1);
    // The first reference is browsed next.
    assert_eq!(w.next_request(), Some(1));
    let b2 = w.on_browsed(vec!["Status".to_string()]);
    assert_eq!(b2, 3);
    // Slot 3 lies at the limit and is not browsed.
    assert_eq!(w.next_request(), Some(2));
    w.on_browsed(vec!["Pump".to_string(), "Pump".to_string()]);
    assert_eq!(w.next_request(), None);
    let lines = tree_lines(&w.tree());
    let shown: Vec<(usize, &str)> = lines.iter().map(|l| (l.depth, l.name.as_str())).collect();
    assert_eq!(shown, vec![(0, "Devices"), (1, "Pump"), (0, "Server"), (1, "Status")]);
}
