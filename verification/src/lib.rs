//! Hermes: the decision logic of an OPC-UA bridge that polls plant-floor
//! nodes, keeps their latest values for a REST API, logs them to CSV and
//! walks the server's namespace.
use vstd::prelude::*;

pub mod api;
pub mod browse;
pub mod client;
pub mod clock;
pub mod display;
pub mod json;
pub mod logger;
pub mod node;
pub mod nodeid;
pub mod read;
pub mod session;
pub mod text;
pub mod walk;

verus! {
} // verus!
