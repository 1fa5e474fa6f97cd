use hermes::node::{has_error, is_error, NodeValue};
use hermes::read::{nodes_from_failure, nodes_from_failure_at, nodes_from_read, nodes_from_read_at, ReadResult};

fn ids(list: &[&str]) -> Vec<String> {
    list.iter().map(|s| s.to_string()).collect()
}

#[test]
fn error_reading_has_null_value_and_error_status() {
    let v = NodeValue::error_at("ns=2;s=A", "BadTimeout", "T".to_string());
    assert_eq!(v.node_id, "ns=2;s=A");
    assert_eq!(v.value, "null");
    assert_eq!(v.status, "Error: BadTimeout");
    assert_eq!(v.timestamp, "T");
    assert!(is_error(&v));
    let w = NodeValue::error("x", "");
    assert_eq!(w.status, "Error: ");
    assert!(!w.timestamp.is_empty());
}

#[test]
fn has_error_looks_for_error_in_any_status() {
    let good = NodeValue::error_at("a", "m", "T".to_string());
    let mut ok = good.clone();
    ok.status = "Good".to_string();
    assert!(!has_error(&vec![]));
    assert!(!has_error(&vec![ok.clone()]));
    assert!(has_error(&vec![ok.clone(), good]));
    let mut inner = ok.clone();
    inner.status = "BadError(0x80)".to_string();
    assert!(has_error(&vec![inner]));
    let mut lower = ok;
    lower.status = "error".to_string();
    assert!(!has_error(&vec![lower]));
}

#[test]
fn read_results_pair_up_with_node_ids() {
    let results = vec![
        ReadResult { status: Some("Good".to_string()), value: Some("42".to_string()), source_timestamp: Some("S".to_string()) },
        ReadResult { status: None, value: None, source_timestamp: None },
    ];
    let r = nodes_from_read_at(&ids(&["a", "b"]), &results, &"NOW".to_string());
    assert_eq!(r.len(), 2);
    assert_eq!(r[0].node_id, "a");
    assert_eq!(r[0].value, "42");
    assert_eq!(r[0].status, "Good");
    assert_eq!(r[0].timestamp, "S");
    assert_eq!(r[1].node_id, "b");
    assert_eq!(r[1].value, "null");
    assert_eq!(r[1].status, "Unknown");
    assert_eq!(r[1].timestamp, "NOW");
}

#[test]
fn read_stops_at_shorter_list() {
    let results = vec![ReadResult { status: None, value: None, source_timestamp: None }];
    let r = nodes_from_read_at(&ids(&["a", "b", "c"]), &results, &"NOW".to_string());
    assert_eq!(r.len(), 1);
    let r2 = nodes_from_read(&ids(&[]), &results);
    assert_eq!(r2.len(), 0);
}

#[test]
fn read_with_clock_keeps_source_timestamp() {
    let results = vec![ReadResult { status: Some("Good".to_string()), value: None, source_timestamp: Some("S".to_string()) }];
    let r = nodes_from_read(&ids(&["a"]), &results);
    assert_eq!(r[0].timestamp, "S");
}

#[test]
fn failed_round_marks_every_node() {
    let r = nodes_from_failure_at(&ids(&["a", "b"]), "BadCommunicationError", &"T".to_string());
    assert_eq!(r.len(), 2);
    assert_eq!(r[1].node_id, "b");
    assert_eq!(r[1].status, "Error: BadCommunicationError");
    assert!(has_error(&r));
    let r2 = nodes_from_failure(&ids(&["a"]), "x");
    assert_eq!(r2[0].value, "null");
    assert!(has_error(&r2));
}
