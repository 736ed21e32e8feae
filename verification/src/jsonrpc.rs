//! Plain values of the JSON-RPC interface.
use vstd::prelude::*;

verus! {

/// A request identifier: absent, a number or a string.
#[derive(Debug, Clone, PartialEq, Eq)]
pub enum Id {
    Null,
    Number(i64),
    String(String),
}

impl Default for Id {
    fn default() -> (r: Self)
        ensures
            r == Id::Null,
    {
        Id::Null
    }
}

/// Where a transport listens.
#[derive(Debug, Clone)]
pub struct TransportConfig {
    pub bind_address: String,
    pub port: u16,
}

} // verus!
