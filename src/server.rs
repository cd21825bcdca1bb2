//! The key-value server's address and requests.
use vstd::prelude::*;

verus! {

/// A key-value server bound to one address.
#[derive(Clone)]
pub struct MaxServer {
    address: String,
}

/// A request to store `value` under `key`, with an optional time to live in seconds.
#[derive(Debug)]
pub struct PutRequest {
    pub key: String,
    pub value: Vec<u8>,
    pub ttl: Option<u64>,
}

impl MaxServer {
    /// The address, as characters.
    pub closed spec fn spec_address(&self) -> Seq<char> {
        self.address@
    }

    /// A server for the address `addr` (`host:port`).
    pub fn new(addr: &str) -> (r: Self)
        ensures
            r.spec_address() == addr@,
    {
        MaxServer { address: addr.to_string() }
    }

    /// The address the server binds to.
    pub fn address(&self) -> (r: &str)
        ensures
            r@ == self.spec_address(),
    {
        self.address.as_str()
    }
}

} // verus!
