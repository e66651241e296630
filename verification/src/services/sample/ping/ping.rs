//! Ping the client to make sure it's alive.

use vstd::prelude::*;

verus! {

/// The parameters of `ping.ping`: none.
#[derive(Debug)]
pub struct Params {}

impl Params {
    /// The parameters of `ping.ping`, out of a call's parameters.
    pub fn downgrade(p: super::super::Params) -> (r: Option<Self>)
        ensures
            r is Some <==> p is ping_ping,
    {
        match p {
            super::super::Params::ping_ping(p) => Some(p),
            _ => None,
        }
    }
}

/// The results of `ping.ping`: none.
#[derive(Debug)]
pub struct Results {}

impl Results {
    /// The results of `ping.ping`, out of a call's results.
    pub fn downgrade(p: super::super::Results) -> (r: Option<Self>)
        ensures
            r is Some <==> p is ping_ping,
    {
        match p {
            super::super::Results::ping_ping(p) => Some(p),
            _ => None,
        }
    }
}

} // verus!
