//! Ask for a list of cookies from the server.

use vstd::prelude::*;
use super::Cookie;

verus! {

/// The parameters of `get_cookies`: none.
#[derive(Debug)]
pub struct Params {}

impl Params {
    /// The parameters of `get_cookies`, out of a call's parameters.
    pub fn downgrade(p: super::Params) -> (r: Option<Self>)
        ensures
            r is Some <==> p is get_cookies,
    {
        match p {
            super::Params::get_cookies(p) => Some(p),
            _ => None,
        }
    }
}

/// The results of `get_cookies`: the cookies.
#[derive(Debug)]
pub struct Results {
    pub cookies: Vec<Cookie>,
}

impl Results {
    /// The results of `get_cookies`, out of a call's results.
    pub fn downgrade(p: super::Results) -> (r: Option<Self>)
        ensures
            r is Some <==> p is get_cookies,
            r matches Some(res) ==> p == super::Results::get_cookies(res),
    {
        match p {
            super::Results::get_cookies(p) => Some(p),
            _ => None,
        }
    }
}

} // verus!
