use hermes::api::{update_state, update_state_at, ApiState};
use hermes::node::NodeValue;

fn reading(id: &str, value: &str, status: &str) -> NodeValue {
    NodeValue {
        node_id: id.to_string(),
        value: value.to_string(),
        status: status.to_string(),
        timestamp: "2024-01-01T00:00:00+00:00".to_string(),
    }
}

#[test]
fn new_state_is_empty() {
    let s = ApiState::new();
    assert!(s.nodes().is_empty());
    assert_eq!(s.last_updated(), &None);
    assert_eq!(s.error(), &None);
    let d = ApiState::default();
    assert!(d.nodes().is_empty());
}

#[test]
fn get_missing_node_is_none() {
    let s = ApiState::new();
    assert!(s.get_node("ns=2;s=Temperature").is_none());
}

#[test]
fn read_after_update_gives_written_value() {
    let mut s = ApiState::new();
    update_state_at(
        &mut s,
        vec![reading("ns=2;s=Temperature", "21", "Good"), reading("ns=2;s=Pressure", "3", "Good")],
        None,
        "T1".to_string(),
    );
    let t = s.get_node("ns=2;s=Temperature").unwrap();
    assert_eq!(t.value, "21");
    assert_eq!(t.status, "Good");
    let p = s.get_node("ns=2;s=Pressure").unwrap();
    assert_eq!(p.value, "3");
    assert_eq!(s.nodes().len(), 2);
    assert_eq!(s.last_updated(), &Some("T1".to_string()));
    assert_eq!(s.error(), &None);
}

#[test]
fn later_reading_of_same_node_wins() {
    let mut s = ApiState::new();
    update_state_at(
        &mut s,
        vec![reading("a", "1", "Good"), reading("a", "2", "Good")],
        None,
        "T1".to_string(),
    );
    assert_eq!(s.nodes().len(), 1);
    assert_eq!(s.get_node("a").unwrap().value, "2");
}

#[test]
fn update_keeps_other_nodes_and_replaces_error() {
    let mut s = ApiState::new();
    update_state_at(&mut s, vec![reading("a", "1", "Good")], None, "T1".to_string());
    update_state_at(&mut s, vec![], Some("Connect failed".to_string()), "T2".to_string());
    assert_eq!(s.get_node("a").unwrap().value, "1");
    assert_eq!(s.error(), &Some("Connect failed".to_string()));
    assert_eq!(s.last_updated(), &Some("T2".to_string()));
    update_state_at(&mut s, vec![reading("b", "true", "Good")], None, "T3".to_string());
    assert_eq!(s.error(), &None);
    assert_eq!(s.nodes().len(), 2);
}

#[test]
fn repeated_update_changes_nothing() {
    let mut s = ApiState::new();
    let vals = vec![reading("a", "1", "Good"), reading("b", "2", "Good")];
    update_state_at(&mut s, vals.clone(), None, "T1".to_string());
    update_state_at(&mut s, vals, None, "T1".to_string());
    assert_eq!(s.nodes().len(), 2);
    assert_eq!(s.get_node("a").unwrap().value, "1");
    assert_eq!(s.get_node("b").unwrap().value, "2");
}

#[test]
fn update_with_clock_stamps_time() {
    let mut s = ApiState::new();
    update_state(&mut s, vec![reading("a", "1", "Good")], None);
    let stamp = s.last_updated().clone().unwrap();
    assert!(stamp.ends_with("+00:00"));
    assert_eq!(s.get_node("a").unwrap().value, "1");
}

#[test]
fn node_ids_compare_exactly() {
    let mut s = ApiState::new();
    update_state_at(&mut s, vec![reading("ns=2;s=Tank", "1", "Good")], None, "T".to_string());
    assert!(s.get_node("ns=2;s=Tan").is_none());
    assert!(s.get_node("ns=2;s=Tank1").is_none());
    assert!(s.get_node("ns=2;s=tank").is_none());
    assert!(s.get_node("ns=2;s=Tank").is_some());
}

fn is_rfc3339_utc(t: &str) -> bool {
    let c: Vec<char> = t.chars().collect();
    let y = if c.first() == Some(&'+') {
        match c.iter().position(|&ch| ch == '-') {
            Some(p) => p,
            None => return false,
        }
    } else {
        4
    };
    let digits = |a: usize, b: usize| b <= c.len() && c[a..b].iter().all(|ch| ch.is_ascii_digit());
    if c.len() < y + 21 {
        return false;
    }
    let f = c.len() - y - 21;
    digits(if y == 4 { 0 } else { 1 }, y)
        && c[y] == '-' && digits(y + 1, y + 3)
        && c[y + 3] == '-' && digits(y + 4, y + 6)
        && c[y + 6] == 'T' && digits(y + 7, y + 9)
        && c[y + 9] == ':' && digits(y + 10, y + 12)
        && c[y + 12] == ':' && digits(y + 13, y + 15)
        && (f == 0 || ((f == 4 || f == 7 || f == 10) && c[y + 15] == '.' && digits(y + 16, y + 15 + f)))
        && c[y + 15 + f..].iter().collect::<String>() == "+00:00"
}

#[test]
fn clock_text_is_rfc3339_utc() {
    let mut s = ApiState::new();
    update_state(&mut s, vec![], None);
    assert!(is_rfc3339_utc(s.last_updated().as_ref().unwrap()));
    assert!(is_rfc3339_utc("2024-05-01T12:00:00.123+00:00"));
    assert!(!is_rfc3339_utc("2024-05-01T12:00:00Z"));
}
