use hermes::display::{display_rows, status_style, value_cell, StatusStyle};
use hermes::logger::{csv_header, csv_row, log_bytes, log_entry};
use hermes::node::NodeValue;

fn reading(id: &str, value: &str, status: &str) -> NodeValue {
    NodeValue { node_id: id.to_string(), value: value.to_string(), status: status.to_string(), timestamp: "T".to_string() }
}

#[test]
fn status_styles() {
    assert_eq!(status_style(&reading("a", "1", "Good")), StatusStyle::Good);
    assert_eq!(status_style(&reading("a", "1", "GoodClamped")), StatusStyle::Good);
    assert_eq!(status_style(&reading("a", "1", "BadNodeIdUnknown")), StatusStyle::Bad);
    assert_eq!(status_style(&reading("a", "1", "Error: timeout")), StatusStyle::Other);
    assert_eq!(status_style(&reading("a", "1", "Uncertain")), StatusStyle::Other);
}

#[test]
fn value_cells() {
    assert_eq!(value_cell(&reading("a", "null", "Good")), None);
    assert_eq!(value_cell(&reading("a", "12.5", "Good")), Some("12.5".to_string()));
    assert_eq!(value_cell(&reading("a", "\"null\"", "Good")), Some("\"null\"".to_string()));
}

#[test]
fn rows_follow_readings() {
    let rows = display_rows(&vec![reading("a", "null", "Good"), reading("b", "3", "Bad")]);
    assert_eq!(rows.len(), 2);
    assert_eq!(rows[0].node_id, "a");
    assert_eq!(rows[0].value, None);
    assert_eq!(rows[0].style, StatusStyle::Good);
    assert_eq!(rows[1].value, Some("3".to_string()));
    assert_eq!(rows[1].status, "Bad");
    assert_eq!(rows[1].style, StatusStyle::Bad);
}

#[test]
fn csv_records() {
    let vals = vec![reading("ns=2;s=A", "1", "Good"), reading("ns=2;s=B", "\"x\"", "Good")];
    assert_eq!(csv_header(&vals), vec!["timestamp", "ns=2;s=A", "ns=2;s=B"]);
    assert_eq!(csv_row(&"T".to_string(), &vals), vec!["T", "1", "\"x\""]);
}

#[test]
fn log_bytes_header_only_for_new_file() {
    let vals = vec![reading("ns=2;s=A", "1", "Good"), reading("B,C", "\"x\"", "Good")];
    let fresh = log_bytes(false, &"T".to_string(), &vals).unwrap();
    assert_eq!(String::from_utf8(fresh).unwrap(), "timestamp,ns=2;s=A,\"B,C\"\nT,1,\"\"\"x\"\"\"\n");
    let again = log_bytes(true, &"T".to_string(), &vals).unwrap();
    assert_eq!(String::from_utf8(again).unwrap(), "T,1,\"\"\"x\"\"\"\n");
    let stamped = log_entry(true, &vals).unwrap();
    assert!(stamped.ends_with(b",1,\"\"\"x\"\"\"\n"));
}

#[test]
fn log_of_no_nodes() {
    let fresh = log_bytes(false, &"T".to_string(), &vec![]).unwrap();
    assert_eq!(String::from_utf8(fresh).unwrap(), "timestamp\nT\n");
}

#[test]
fn csv_quoting_rules() {
    let vals = vec![reading("", "a\rb", "Good"), reading("x", "", "Good")];
    let fresh = log_bytes(false, &"T".to_string(), &vals).unwrap();
    assert_eq!(String::from_utf8(fresh).unwrap(), "timestamp,,x\nT,\"a\rb\",\n");
    let single = log_bytes(true, &String::new(), &vec![]).unwrap();
    assert_eq!(String::from_utf8(single).unwrap(), "\"\"\n");
    let unicode = log_bytes(true, &"é".to_string(), &vec![]).unwrap();
    assert_eq!(unicode, "é\n".as_bytes().to_vec());
}
