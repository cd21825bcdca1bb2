//! Settings of the S3 gateway process.
use vstd::prelude::*;

verus! {

/// Where the gateway listens.
#[derive(Debug)]
pub struct S3GatewayConfig {
    pub port: u16,
    pub address: String,
}

impl Default for S3GatewayConfig {
    fn default() -> (r: Self)
        ensures
            r.port == 0,
            r.address@ == Seq::<char>::empty(),
    {
        S3GatewayConfig { port: 0, address: String::new() }
    }
}

/// The gateway's settings: port 0 and an empty address unless configured otherwise.
pub fn load_config() -> (r: S3GatewayConfig)
    ensures
        r.port == 0,
        r.address@ == Seq::<char>::empty(),
{
    S3GatewayConfig::default()
}

} // verus!
