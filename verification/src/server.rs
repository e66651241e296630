//! What the sample server answers: the logic of its handlers, apart from
//! the connection that carries the calls.

use vstd::prelude::*;
use vstd::string::StringExecFns;
use vstd::string::StrSliceExecFns;
use crate::services::sample::{get_cookies, Cookie};

verus! {

/// `String::push`. Claimed, as std documents it: the character is appended.
#[verifier::external_body]
fn push_char(s: &mut String, c: char)
    ensures
        final(s)@ == old(s)@.push(c),
{
    s.push(c);
}

/// The answer to `get_cookies`, once the client has said what its user
/// agent is: a cookie that refuses ads, then one that holds the user agent.
pub fn get_cookies_results(user_agent: String) -> (r: get_cookies::Results)
    ensures
        r.cookies.deep_view() == seq![
            ("ads"@, "no"@, None::<Seq<char>>),
            ("user-agent"@, user_agent@, None::<Seq<char>>),
        ],
{
    let ghost ua = user_agent@;
    let mut cookies: Vec<Cookie> = Vec::new();
    cookies.push(Cookie { key: String::from_str("ads"), value: String::from_str("no"), comment: None });
    cookies.push(Cookie { key: String::from_str("user-agent"), value: user_agent, comment: None });
    assert(cookies.deep_view() =~= seq![
        ("ads"@, "no"@, None::<Seq<char>>),
        ("user-agent"@, ua, None::<Seq<char>>),
    ]);
    get_cookies::Results { cookies }
}

/// The answer to `reverse`: the characters of `s` in the reverse order.
pub fn reverse(s: &str) -> (r: String)
    ensures
        r@ == s@.reverse(),
{
    let mut chars: Vec<char> = Vec::new();
    for c in it: s.chars()
        invariant
            chars@ == it.seq().take(it.index() as int),
    {
        chars.push(c);
    }
    proof {
        broadcast use vstd::string::axiom_spec_iter;
        assert(chars@ =~= s@);
    }
    let mut res = String::new();
    let mut i: usize = chars.len();
    while i > 0
        invariant
            i <= chars@.len(),
            chars@ == s@,
            res@ == s@.skip(i as int).reverse(),
        decreases i,
    {
        i = i - 1;
        push_char(&mut res, chars[i]);
        assert(s@.skip(i as int).reverse() =~= s@.skip(i + 1).reverse().push(s@[i as int]));
    }
    assert(s@.skip(0) =~= s@);
    res
}

/// Whether `ping` shuts the server down: when `SAMPLE_SHUTDOWN` is set to "1".
pub fn ping_shuts_down(sample_shutdown: Option<&str>) -> (r: bool)
    ensures
        r == (sample_shutdown matches Some(v) && v@ == "1"@),
{
    match sample_shutdown {
        Some(val) => {
            proof {
                reveal_strlit("1");
            }
            if val.unicode_len() != 1 {
                return false;
            }
            let c = val.get_char(0);
            assert("1"@ =~= seq!['1']);
            assert(val@ =~= seq![c]);
            c == '1'
        },
        None => false,
    }
}

} // verus!
