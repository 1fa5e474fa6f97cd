//! The OPC-UA client's settings, and the choice of the node where a
//! browse starts.
use vstd::prelude::*;
use vstd::string::*;

verus! {

/// A client of one OPC-UA server.  Opening sessions, reading and browsing
/// are done by the program around this library with these settings.
pub struct OpcClient {
    endpoint: String,
}

/// The node id of the standard Objects folder, `i=85`.
pub open spec fn objects_folder_text() -> Seq<char> {
    seq!['i', '=', '8', '5']
}

impl OpcClient {
    /// A client of the server at `endpoint`.
    pub fn new(endpoint: &str) -> (r: OpcClient)
        ensures
            r.endpoint()@ == endpoint@,
    {
        OpcClient { endpoint: String::from_str(endpoint) }
    }

    /// The endpoint URL of the server.
    pub closed spec fn endpoint(&self) -> String {
        self.endpoint
    }

    /// The endpoint URL of the server.
    pub fn endpoint_url(&self) -> (r: &String)
        ensures
            r@ == self.endpoint()@,
    {
        &self.endpoint
    }
}

/// The node where a browse starts: the one given, or else the Objects
/// folder.
pub fn browse_start(node: Option<String>) -> (r: String)
    ensures
        r@ == match node {
            Some(n) => n@,
            None => objects_folder_text(),
        },
{
    match node {
        Some(n) => n,
        None => {
            let text = "i=85";
            proof {
                reveal_strlit("i=85");
                assert(text@ =~= objects_folder_text());
            }
            String::from_str(text)
        },
    }
}

} // verus!
