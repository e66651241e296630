//! What the sample client answers when the server calls it back.

use vstd::prelude::*;
use vstd::string::StringExecFns;
use crate::services::sample::get_user_agent;

verus! {

/// What the sample client keeps between calls.
pub struct ClientState {
    /// The user agent the client announces.
    pub user_agent: String,
    /// Whether the server has asked for the user agent yet.
    pub asked_for_user_agent: bool,
}

impl ClientState {
    /// The state of a client that has not been asked anything yet.
    pub fn new() -> (s: Self)
        ensures
            s.user_agent@ == "lavish-sample/0.2.0"@,
            !s.asked_for_user_agent,
    {
        ClientState { user_agent: String::from_str("lavish-sample/0.2.0"), asked_for_user_agent: false }
    }

    /// The answer to `get_user_agent`: the user agent, remembering that it
    /// was asked for.
    pub fn get_user_agent(&mut self) -> (r: get_user_agent::Results)
        ensures
            r.user_agent@ == old(self).user_agent@,
            final(self).user_agent@ == old(self).user_agent@,
            final(self).asked_for_user_agent,
    {
        self.asked_for_user_agent = true;
        get_user_agent::Results { user_agent: self.user_agent.clone() }
    }
}

} // verus!
