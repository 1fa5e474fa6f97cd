use hermes::nodeid::{browse_root, browse_root_of, read_target, read_target_of, read_targets, NodeIdentifier, NodeRef};

fn numeric(n: &NodeRef) -> Option<(u16, u32)> {
    match n.identifier {
        NodeIdentifier::Numeric(v) => Some((n.namespace, v)),
        _ => None,
    }
}

#[test]
fn read_targets_parse_node_ids() {
    let t = read_target("ns=2;s=Temperature");
    assert_eq!(t.namespace, 2);
    assert!(matches!(&t.identifier, NodeIdentifier::Text(s) if s == "Temperature"));
    assert_eq!(numeric(&read_target("ns=2;i=1234")), Some((2, 1234)));
    assert_eq!(numeric(&read_target("i=2258")), Some((0, 2258)));
    let g = read_target("g=72962B91-FA75-4AE6-8D28-B404DC7DAF63");
    assert!(matches!(&g.identifier, NodeIdentifier::Guid(b) if b.len() == 16));
    let b = read_target("ns=1;b=AQID");
    assert_eq!(b.namespace, 1);
    assert!(matches!(&b.identifier, NodeIdentifier::Opaque(v) if v == &vec![1u8, 2, 3]));
}

#[test]
fn unparsable_read_id_reads_the_null_node() {
    assert_eq!(numeric(&read_target("Temperature")), Some((0, 0)));
    assert_eq!(numeric(&read_target("ns=x;i=1")), Some((0, 0)));
    assert_eq!(numeric(&read_target("i=abc")), Some((0, 0)));
    assert_eq!(numeric(&read_target("")), Some((0, 0)));
    let all = read_targets(&vec!["i=5".to_string(), "bad".to_string()]);
    assert_eq!(all.len(), 2);
    assert_eq!(numeric(&all[0]), Some((0, 5)));
    assert_eq!(numeric(&all[1]), Some((0, 0)));
}

#[test]
fn unparsable_start_browses_objects_folder() {
    assert_eq!(numeric(&browse_root("i=85")), Some((0, 85)));
    assert_eq!(numeric(&browse_root("MyFolder")), Some((0, 85)));
    let f = browse_root("ns=2;s=MyFolder");
    assert_eq!(f.namespace, 2);
    assert!(matches!(&f.identifier, NodeIdentifier::Text(s) if s == "MyFolder"));
}

#[test]
fn fallbacks_for_parse_results() {
    assert_eq!(numeric(&read_target_of(None)), Some((0, 0)));
    assert_eq!(numeric(&browse_root_of(None)), Some((0, 85)));
    let n = NodeRef { namespace: 3, identifier: NodeIdentifier::Numeric(7) };
    assert_eq!(numeric(&read_target_of(Some(n))), Some((3, 7)));
    let m = NodeRef { namespace: 4, identifier: NodeIdentifier::Numeric(9) };
    assert_eq!(numeric(&browse_root_of(Some(m))), Some((4, 9)));
}
