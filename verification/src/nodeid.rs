//! Which node a node-id text names: the ids given for a read and the node
//! where a browse starts, written as `ns=<namespace>;<kind>=<value>` (the
//! namespace part left out for namespace 0), with `i` numeric, `s` string,
//! `g` GUID and `b` opaque (base64) identifiers.
use vstd::prelude::*;
use std::str::FromStr;

verus! {

/// The identifier of a node within its namespace.
pub enum NodeIdentifier {
    Numeric(u32),
    Text(String),
    Guid(Vec<u8>),
    Opaque(Vec<u8>),
}

/// A node of the server: its namespace index and identifier.
pub struct NodeRef {
    pub namespace: u16,
    pub identifier: NodeIdentifier,
}

/// A node identifier as values.
pub enum NodeIdentifierView {
    Numeric(u32),
    Text(Seq<char>),
    Guid(Seq<u8>),
    Opaque(Seq<u8>),
}

/// A node as values.
pub struct NodeRefView {
    pub namespace: u16,
    pub identifier: NodeIdentifierView,
}

impl View for NodeRef {
    type V = NodeRefView;

    open spec fn view(&self) -> NodeRefView {
        NodeRefView {
            namespace: self.namespace,
            identifier: match self.identifier {
                NodeIdentifier::Numeric(n) => NodeIdentifierView::Numeric(n),
                NodeIdentifier::Text(s) => NodeIdentifierView::Text(s@),
                NodeIdentifier::Guid(b) => NodeIdentifierView::Guid(b@),
                NodeIdentifier::Opaque(b) => NodeIdentifierView::Opaque(b@),
            },
        }
    }
}

/// The node that the OPC-UA crate's parser makes of the text `s`, or `None`
/// where it refuses the text.
pub uninterp spec fn parsed_node_id(s: Seq<char>) -> Option<NodeRefView>;

/// Calls `<opcua::types::NodeId as FromStr>::from_str` and hands back its
/// namespace and identifier.  Trusted to return the node `parsed_node_id`
/// names for the text, and `None` exactly where the parser fails.
#[verifier::external_body]
fn parse_node_id(s: &str) -> (r: Option<NodeRef>)
    ensures
        match r {
            Some(n) => parsed_node_id(s@) == Some(n@),
            None => parsed_node_id(s@) is None,
        },
{
    let id = opcua::types::NodeId::from_str(s).ok()?;
    let identifier = match id.identifier {
        opcua::types::Identifier::Numeric(n) => NodeIdentifier::Numeric(n),
        opcua::types::Identifier::String(t) => NodeIdentifier::Text(t.as_ref().to_string()),
        opcua::types::Identifier::Guid(g) => NodeIdentifier::Guid(g.as_bytes().to_vec()),
        opcua::types::Identifier::ByteString(b) => NodeIdentifier::Opaque(b.as_ref().to_vec()),
    };
    Some(NodeRef { namespace: id.namespace, identifier })
}

/// The null node, `i=0` in namespace 0.
pub open spec fn null_node() -> NodeRefView {
    NodeRefView { namespace: 0, identifier: NodeIdentifierView::Numeric(0) }
}

/// The standard Objects folder, `i=85` in namespace 0.
pub open spec fn objects_folder() -> NodeRefView {
    NodeRefView { namespace: 0, identifier: NodeIdentifierView::Numeric(85) }
}

/// The node read for an id the parser made `parsed` of: that node, or the
/// null node where the id does not parse.
pub fn read_target_of(parsed: Option<NodeRef>) -> (r: NodeRef)
    ensures
        r@ == match parsed {
            Some(n) => n@,
            None => null_node(),
        },
{
    match parsed {
        Some(n) => n,
        None => NodeRef { namespace: 0, identifier: NodeIdentifier::Numeric(0) },
    }
}

/// The node a browse starts from for a start id the parser made `parsed`
/// of: that node, or the Objects folder where it does not parse.
pub fn browse_root_of(parsed: Option<NodeRef>) -> (r: NodeRef)
    ensures
        r@ == match parsed {
            Some(n) => n@,
            None => objects_folder(),
        },
{
    match parsed {
        Some(n) => n,
        None => NodeRef { namespace: 0, identifier: NodeIdentifier::Numeric(85) },
    }
}

/// The node read for the id text `id`.
pub fn read_target(id: &str) -> (r: NodeRef)
    ensures
        r@ == match parsed_node_id(id@) {
            Some(n) => n,
            None => null_node(),
        },
{
    read_target_of(parse_node_id(id))
}

/// The nodes read for the id texts of a round, in order.
pub fn read_targets(ids: &Vec<String>) -> (r: Vec<NodeRef>)
    ensures
        r.len() == ids.len(),
        forall|i: int| 0 <= i < r.len() ==> (#[trigger] r@[i])@ == match parsed_node_id(ids@[i]@) {
            Some(n) => n,
            None => null_node(),
        },
{
    let mut r: Vec<NodeRef> = Vec::new();
    let mut i: usize = 0;
    while i < ids.len()
        invariant
            i <= ids.len(),
            r.len() == i,
            forall|j: int| 0 <= j < i ==> (#[trigger] r@[j])@ == match parsed_node_id(ids@[j]@) {
                Some(n) => n,
                None => null_node(),
            },
        decreases ids.len() - i,
    {
        r.push(read_target(ids[i].as_str()));
        i += 1;
    }
    r
}

/// The node a browse starts from for the start id text `id`.
pub fn browse_root(id: &str) -> (r: NodeRef)
    ensures
        r@ == match parsed_node_id(id@) {
            Some(n) => n,
            None => objects_folder(),
        },
{
    browse_root_of(parse_node_id(id))
}

} // verus!
