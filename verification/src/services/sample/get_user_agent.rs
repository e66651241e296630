//! Ask the client what its user-agent is.

use vstd::prelude::*;

verus! {

/// The parameters of `get_user_agent`: none.
#[derive(Debug)]
pub struct Params {}

impl Params {
    /// The parameters of `get_user_agent`, out of a call's parameters.
    pub fn downgrade(p: super::Params) -> (r: Option<Self>)
        ensures
            r is Some <==> p is get_user_agent,
    {
        match p {
            super::Params::get_user_agent(p) => Some(p),
            _ => None,
        }
    }
}

/// The results of `get_user_agent`: the client's user agent.
#[derive(Debug)]
pub struct Results {
    pub user_agent: String,
}

impl Results {
    /// The results of `get_user_agent`, out of a call's results.
    pub fn downgrade(p: super::Results) -> (r: Option<Self>)
        ensures
            r is Some <==> p is get_user_agent,
            r matches Some(res) ==> p == super::Results::get_user_agent(res),
    {
        match p {
            super::Results::get_user_agent(p) => Some(p),
            _ => None,
        }
    }
}

} // verus!
