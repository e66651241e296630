//! Ping the server to make sure it's alive.

use vstd::prelude::*;

pub mod ping;

verus! {

/// The parameters of `ping`: none.
#[derive(Debug)]
pub struct Params {}

impl Params {
    /// The parameters of `ping`, out of a call's parameters.
    pub fn downgrade(p: super::Params) -> (r: Option<Self>)
        ensures
            r is Some <==> p is ping,
    {
        match p {
            super::Params::ping(p) => Some(p),
            _ => None,
        }
    }
}

/// The results of `ping`: none.
#[derive(Debug)]
pub struct Results {}

impl Results {
    /// The results of `ping`, out of a call's results.
    pub fn downgrade(p: super::Results) -> (r: Option<Self>)
        ensures
            r is Some <==> p is ping,
    {
        match p {
            super::Results::ping(p) => Some(p),
            _ => None,
        }
    }
}

} // verus!
