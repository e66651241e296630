//! The `sample` service: its data types, its calls and their routing.

use vstd::prelude::*;
use vstd::string::StringSliceAdditionalSpecFns;
use vstd::string::StringExecFns;
use vstd::utf8::encode_utf8_decode_utf8;

pub mod get_cookies;
pub mod get_user_agent;
pub mod ping;

verus! {

/// A key/value pair used to remember session information.
///
/// Can be harmful in real life, but this is just a sample schema.
#[derive(Debug)]
pub struct Cookie {
    /// The key of the cookie.
    pub key: String,
    /// The value of the cookie.
    /// Although it's typed as a string, it can be anything underneath.
    pub value: String,
    /// A note on the cookie, if there is one.
    pub comment: Option<String>,
}

impl DeepView for Cookie {
    type V = (Seq<char>, Seq<char>, Option<Seq<char>>);

    open spec fn deep_view(&self) -> Self::V {
        (self.key@, self.value@, self.comment.deep_view())
    }
}

/// An emoji: its shortcode and the address of its picture.
#[derive(Debug)]
pub struct Emoji {
    pub shortcode: String,
    pub image_url: String,
}

impl DeepView for Emoji {
    type V = (Seq<char>, Seq<char>);

    open spec fn deep_view(&self) -> Self::V {
        (self.shortcode@, self.image_url@)
    }
}

/// The parameters of a call, by method.
#[allow(non_camel_case_types)]
#[derive(Debug)]
pub enum Params {
    get_cookies(get_cookies::Params),
    get_user_agent(get_user_agent::Params),
    ping(ping::Params),
    ping_ping(ping::ping::Params),
}

/// The results of a call, by method.
#[allow(non_camel_case_types)]
#[derive(Debug)]
pub enum Results {
    get_cookies(get_cookies::Results),
    get_user_agent(get_user_agent::Results),
    ping(ping::Results),
    ping_ping(ping::ping::Results),
}

/// The methods of the service, as they are named on the wire.
pub open spec fn is_method_name(name: Seq<char>) -> bool {
    ||| name == "get_cookies"@
    ||| name == "get_user_agent"@
    ||| name == "ping"@
    ||| name == "ping.ping"@
}

/// The message of the error on a method that the service does not have.
pub open spec fn unknown_method_message(name: Seq<char>) -> Seq<char> {
    "unknown method: "@ + name
}

/// Whether two strings hold the same characters.
fn same_text(a: &str, b: &str) -> (r: bool)
    ensures
        r == (a@ == b@),
{
    let x = a.as_bytes();
    let y = b.as_bytes();
    proof {
        encode_utf8_decode_utf8(a@);
        encode_utf8_decode_utf8(b@);
    }
    if x.len() != y.len() {
        return false;
    }
    let mut i: usize = 0;
    while i < x.len()
        invariant
            i <= x@.len(),
            x@.len() == y@.len(),
            x@ == a.spec_bytes(),
            y@ == b.spec_bytes(),
            forall|j: int| 0 <= j < i ==> x@[j] == y@[j],
        decreases x@.len() - i,
    {
        if x[i] != y[i] {
            return false;
        }
        i = i + 1;
    }
    assert(x@ =~= y@);
    true
}

/// The message "unknown method: " followed by `method`.
fn unknown_method(method: &str) -> (r: String)
    ensures
        r@ == unknown_method_message(method@),
{
    let mut msg = String::from_str("unknown method: ");
    msg.append(method);
    msg
}

impl Params {
    /// The name of the method on the wire.
    pub open spec fn method_name(&self) -> Seq<char> {
        match self {
            Params::get_cookies(_) => "get_cookies"@,
            Params::get_user_agent(_) => "get_user_agent"@,
            Params::ping(_) => "ping"@,
            Params::ping_ping(_) => "ping.ping"@,
        }
    }

    /// The name of the method that these parameters are for.
    pub fn method(&self) -> (r: &'static str)
        ensures
            r@ == self.method_name(),
    {
        match self {
            Params::get_cookies(_) => "get_cookies",
            Params::get_user_agent(_) => "get_user_agent",
            Params::ping(_) => "ping",
            Params::ping_ping(_) => "ping.ping",
        }
    }

    /// The parameters of a call to the method named `method`, given what
    /// reading its payload as that method's (empty) parameters gave: the
    /// error of an unknown method comes first, then the payload's.
    pub fn deserialize<E>(method: &str, payload: Result<(), E>) -> (r: Result<Self, DeserializeError<E>>)
        ensures
            !is_method_name(method@) ==> (r matches Err(DeserializeError::UnknownMethod(msg))
                && msg@ == unknown_method_message(method@)),
            is_method_name(method@) ==> match payload {
                Ok(_) => (r matches Ok(p) && p.method_name() == method@),
                Err(e) => r == Err::<Self, DeserializeError<E>>(DeserializeError::Payload(e)),
            },
    {
        if !is_method(method) {
            return Err(DeserializeError::UnknownMethod(unknown_method(method)));
        }
        match payload {
            Err(e) => Err(DeserializeError::Payload(e)),
            Ok(()) => if same_text(method, "get_cookies") {
                Ok(Params::get_cookies(get_cookies::Params {}))
            } else if same_text(method, "get_user_agent") {
                Ok(Params::get_user_agent(get_user_agent::Params {}))
            } else if same_text(method, "ping") {
                Ok(Params::ping(ping::Params {}))
            } else {
                Ok(Params::ping_ping(ping::ping::Params {}))
            },
        }
    }
}

impl Results {
    /// The name of the method on the wire.
    pub open spec fn method_name(&self) -> Seq<char> {
        match self {
            Results::get_cookies(_) => "get_cookies"@,
            Results::get_user_agent(_) => "get_user_agent"@,
            Results::ping(_) => "ping"@,
            Results::ping_ping(_) => "ping.ping"@,
        }
    }

    /// The name of the method that these results are for.
    pub fn method(&self) -> (r: &'static str)
        ensures
            r@ == self.method_name(),
    {
        match self {
            Results::get_cookies(_) => "get_cookies",
            Results::get_user_agent(_) => "get_user_agent",
            Results::ping(_) => "ping",
            Results::ping_ping(_) => "ping.ping",
        }
    }

    /// The reader that the payload of the results of a call to the method
    /// named `method` needs, or the error message when the service has no
    /// such method (then nothing is to be read).
    pub fn reader_for(method: &str) -> (r: Result<ResultsReader, String>)
        ensures
            r is Ok <==> is_method_name(method@),
            r matches Ok(k) ==> k.method_name() == method@,
            r matches Err(msg) ==> msg@ == unknown_method_message(method@),
    {
        if same_text(method, "get_cookies") {
            Ok(ResultsReader::GetCookies)
        } else if same_text(method, "get_user_agent") {
            Ok(ResultsReader::GetUserAgent)
        } else if same_text(method, "ping") {
            Ok(ResultsReader::Ping)
        } else if same_text(method, "ping.ping") {
            Ok(ResultsReader::PingPing)
        } else {
            Err(unknown_method(method))
        }
    }

    /// The results of a call, out of what its reader read: the value read,
    /// under the method it was read for, or the reader's error.
    pub fn from_read<E>(read: ReadResults<E>) -> (r: Result<Self, DeserializeError<E>>)
        ensures
            r == match read {
                ReadResults::GetCookies(Ok(x)) => Ok::<Results, DeserializeError<E>>(Results::get_cookies(x)),
                ReadResults::GetUserAgent(Ok(x)) => Ok(Results::get_user_agent(x)),
                ReadResults::Ping(Ok(x)) => Ok(Results::ping(x)),
                ReadResults::PingPing(Ok(x)) => Ok(Results::ping_ping(x)),
                ReadResults::GetCookies(Err(e)) => Err(DeserializeError::Payload(e)),
                ReadResults::GetUserAgent(Err(e)) => Err(DeserializeError::Payload(e)),
                ReadResults::Ping(Err(e)) => Err(DeserializeError::Payload(e)),
                ReadResults::PingPing(Err(e)) => Err(DeserializeError::Payload(e)),
            },
    {
        match read {
            ReadResults::GetCookies(Ok(x)) => Ok(Results::get_cookies(x)),
            ReadResults::GetUserAgent(Ok(x)) => Ok(Results::get_user_agent(x)),
            ReadResults::Ping(Ok(x)) => Ok(Results::ping(x)),
            ReadResults::PingPing(Ok(x)) => Ok(Results::ping_ping(x)),
            ReadResults::GetCookies(Err(e)) => Err(DeserializeError::Payload(e)),
            ReadResults::GetUserAgent(Err(e)) => Err(DeserializeError::Payload(e)),
            ReadResults::Ping(Err(e)) => Err(DeserializeError::Payload(e)),
            ReadResults::PingPing(Err(e)) => Err(DeserializeError::Payload(e)),
        }
    }
}

/// The reader that the payload of a method's results needs.
#[derive(Debug, Clone, Copy, PartialEq, Eq, Structural)]
pub enum ResultsReader {
    GetCookies,
    GetUserAgent,
    Ping,
    PingPing,
}

impl ResultsReader {
    /// The name of the method whose results this reader reads.
    pub open spec fn method_name(&self) -> Seq<char> {
        match self {
            ResultsReader::GetCookies => "get_cookies"@,
            ResultsReader::GetUserAgent => "get_user_agent"@,
            ResultsReader::Ping => "ping"@,
            ResultsReader::PingPing => "ping.ping"@,
        }
    }
}

/// What a reader read of the payload of a call's results, by method.
#[derive(Debug)]
pub enum ReadResults<E> {
    GetCookies(Result<get_cookies::Results, E>),
    GetUserAgent(Result<get_user_agent::Results, E>),
    Ping(Result<ping::Results, E>),
    PingPing(Result<ping::ping::Results, E>),
}

/// Why the parameters or results of a call could not be read.
#[derive(Debug)]
pub enum DeserializeError<E> {
    /// The service has no method of that name; the message names it.
    UnknownMethod(String),
    /// The payload did not read as what the method carries.
    Payload(E),
}

/// The error message for a notification named `method`: the service has no
/// notifications, so every name is unknown.
pub fn deserialize_notification(method: &str) -> (r: String)
    ensures
        r@ == unknown_method_message(method@),
{
    unknown_method(method)
}

/// Whether `name` is the name of one of the service's methods.
pub fn is_method(name: &str) -> (r: bool)
    ensures
        r == is_method_name(name@),
{
    same_text(name, "get_cookies") || same_text(name, "get_user_agent") || same_text(name, "ping")
        || same_text(name, "ping.ping")
}

/// A call for a method that no handler was registered for.
#[derive(Debug)]
pub struct MethodUnimplemented {
    pub method: &'static str,
}

/// The handlers of the service's methods, each run with the shared state.
/// A handler is whatever the caller runs for a call (in the sample program,
/// a function from the call to its future results).
pub struct Handler<T, S> {
    state: T,
    get_cookies: Option<S>,
    get_user_agent: Option<S>,
    ping: Option<S>,
    ping_ping: Option<S>,
}

impl<T, S> Handler<T, S> {
    /// The state that every handler is run with.
    pub closed spec fn state(&self) -> T {
        self.state
    }

    /// The handler registered for the method of `p`, if any.
    pub closed spec fn slot(&self, p: Params) -> Option<S> {
        match p {
            Params::get_cookies(_) => self.get_cookies,
            Params::get_user_agent(_) => self.get_user_agent,
            Params::ping(_) => self.ping,
            Params::ping_ping(_) => self.ping_ping,
        }
    }

    /// Handlers over `state`, with none registered yet.
    pub fn new(state: T) -> (h: Self)
        ensures
            h.state() == state,
            forall|p: Params| #[trigger] h.slot(p) is None,
    {
        Handler { state, get_cookies: None, get_user_agent: None, ping: None, ping_ping: None }
    }

    /// Registers `f` for `get_cookies`, in place of any handler before it.
    pub fn on_get_cookies(&mut self, f: S)
        ensures
            final(self).state() == old(self).state(),
            forall|p: Params| #[trigger] final(self).slot(p) == if p is get_cookies {
                Some(f)
            } else {
                old(self).slot(p)
            },
    {
        self.get_cookies = Some(f);
    }

    /// Registers `f` for `get_user_agent`, in place of any handler before it.
    pub fn on_get_user_agent(&mut self, f: S)
        ensures
            final(self).state() == old(self).state(),
            forall|p: Params| #[trigger] final(self).slot(p) == if p is get_user_agent {
                Some(f)
            } else {
                old(self).slot(p)
            },
    {
        self.get_user_agent = Some(f);
    }

    /// Registers `f` for `ping`, in place of any handler before it.
    pub fn on_ping(&mut self, f: S)
        ensures
            final(self).state() == old(self).state(),
            forall|p: Params| #[trigger] final(self).slot(p) == if p is ping {
                Some(f)
            } else {
                old(self).slot(p)
            },
    {
        self.ping = Some(f);
    }

    /// Registers `f` for `ping.ping`, in place of any handler before it.
    pub fn on_ping_ping(&mut self, f: S)
        ensures
            final(self).state() == old(self).state(),
            forall|p: Params| #[trigger] final(self).slot(p) == if p is ping_ping {
                Some(f)
            } else {
                old(self).slot(p)
            },
    {
        self.ping_ping = Some(f);
    }

    /// What a call with the parameters `params` is handled by: the handler
    /// registered for its method, with the state; or, when there is none,
    /// the error that names the method.
    pub fn handle(&self, params: &Params) -> (r: Result<(&T, &S), MethodUnimplemented>)
        ensures
            r matches Ok((st, f)) ==> *st == self.state() && self.slot(*params) == Some(*f),
            r matches Err(e) ==> self.slot(*params) is None && e.method@ == params.method_name(),
            r is Ok <==> self.slot(*params) is Some,
    {
        let method = params.method();
        let slot = match params {
            Params::get_cookies(_) => self.get_cookies.as_ref(),
            Params::get_user_agent(_) => self.get_user_agent.as_ref(),
            Params::ping(_) => self.ping.as_ref(),
            Params::ping_ping(_) => self.ping_ping.as_ref(),
        };
        match slot {
            Some(slot_fn) => Ok((&self.state, slot_fn)),
            None => Err(MethodUnimplemented { method }),
        }
    }
}

/// Each method has its own name on the wire, so the name tells the method,
/// and `deserialize` gives back the method of the name that `method` gives.
pub proof fn law_method_names(p: Params, q: Params)
    ensures
        is_method_name(p.method_name()),
        p.method_name() == q.method_name() ==> (
            (p is get_cookies && q is get_cookies)
            || (p is get_user_agent && q is get_user_agent)
            || (p is ping && q is ping)
            || (p is ping_ping && q is ping_ping)
        ),
{
    reveal_strlit("get_cookies");
    reveal_strlit("get_user_agent");
    reveal_strlit("ping");
    reveal_strlit("ping.ping");
    assert("get_cookies"@.len() == 11);
    assert("get_user_agent"@.len() == 14);
    assert("ping"@.len() == 4);
    assert("ping.ping"@.len() == 9);
}

/// The results of a method carry the same name as its parameters, and no
/// other method's: a call's results are named as the call. The reader that
/// a name asks for is the one of the results with that name.
pub proof fn law_results_named_as_params(p: Params, r: Results, k: ResultsReader)
    ensures
        p.method_name() == r.method_name() <==> (
            (p is get_cookies && r is get_cookies)
            || (p is get_user_agent && r is get_user_agent)
            || (p is ping && r is ping)
            || (p is ping_ping && r is ping_ping)
        ),
        k.method_name() == r.method_name() <==> (
            (k is GetCookies && r is get_cookies)
            || (k is GetUserAgent && r is get_user_agent)
            || (k is Ping && r is ping)
            || (k is PingPing && r is ping_ping)
        ),
{
    reveal_strlit("get_cookies");
    reveal_strlit("get_user_agent");
    reveal_strlit("ping");
    reveal_strlit("ping.ping");
    assert("get_cookies"@.len() == 11);
    assert("get_user_agent"@.len() == 14);
    assert("ping"@.len() == 4);
    assert("ping.ping"@.len() == 9);
}

} // verus!
