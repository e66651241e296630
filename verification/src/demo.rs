//! The sample payload that the demonstration program encodes.

use vstd::prelude::*;
use vstd::string::StringExecFns;
use crate::services::sample::{Cookie, Emoji};

verus! {

/// The cookies of the sample payload, as their deep views.
pub open spec fn sample_cookies() -> Seq<(Seq<char>, Seq<char>, Option<Seq<char>>)> {
    seq![
        ("name"@, "Knytt Underground"@, Some("Open for collabs"@)),
        ("name"@, "Super Mario Maker"@, None),
        ("name"@, "Overland"@, None),
        ("name"@, "XCOM 2"@, None),
        ("name"@, "Civilization V"@, None),
    ]
}

fn cookie(key: &str, value: &str, comment: Option<&str>) -> (c: Cookie)
    ensures
        c.deep_view() == (key@, value@, match comment {
            Some(t) => Some(t@),
            None => None::<Seq<char>>,
        }),
{
    let comment = match comment {
        Some(t) => Some(String::from_str(t)),
        None => None,
    };
    Cookie { key: String::from_str(key), value: String::from_str(value), comment }
}

/// The five cookies of the sample payload.
pub fn get_cookies() -> (r: Vec<Cookie>)
    ensures
        r.deep_view() == sample_cookies(),
{
    let mut res: Vec<Cookie> = Vec::new();
    res.push(cookie("name", "Knytt Underground", Some("Open for collabs")));
    res.push(cookie("name", "Super Mario Maker", None));
    res.push(cookie("name", "Overland", None));
    res.push(cookie("name", "XCOM 2", None));
    res.push(cookie("name", "Civilization V", None));
    assert(res.deep_view() =~= sample_cookies());
    res
}

/// What `json::parse` makes of `text`, taken as the entries of an object:
/// `None` when the text is not JSON, `Some(None)` when it is not an object,
/// and otherwise each key with its value as `JsonValue`'s `Display` writes it,
/// in the object's order.
pub uninterp spec fn json_object_entries(text: Seq<char>) -> Option<Option<Seq<(Seq<char>, Seq<char>)>>>;

/// `json::parse`, with the entries of an object taken out as strings: each
/// key, and its value through `JsonValue::to_string`. Claimed: the result is
/// `json_object_entries` of the text (a function of the text alone; the
/// parser keeps an object's entries in their order).
#[verifier::external_body]
fn json_object_entries_of(text: &str) -> (r: Option<Option<Vec<(String, String)>>>)
    ensures
        r.deep_view() == json_object_entries(text@),
{
    match json::parse(text) {
        Err(_) => None,
        Ok(json::JsonValue::Object(obj)) => Some(Some(obj.iter().map(|(k, v)| (k.to_string(), v.to_string())).collect())),
        Ok(_) => Some(None),
    }
}

/// The emojis that a JSON object lists, shortcode to picture address, in
/// the object's order; `None` when the text is not JSON or not an object.
pub fn emojis_from_json(text: &str) -> (r: Option<Vec<Emoji>>)
    ensures
        match json_object_entries(text@) {
            Some(Some(entries)) => r matches Some(emojis) && emojis.deep_view() == entries,
            _ => r is None,
        },
{
    match json_object_entries_of(text) {
        Some(Some(entries)) => {
            let mut res: Vec<Emoji> = Vec::new();
            let n = entries.len();
            let mut rest = entries;
            let ghost all = rest.deep_view();
            // entries are taken from the back, then put in order
            let mut rev: Vec<Emoji> = Vec::new();
            while rest.len() > 0
                invariant
                    rest.len() + rev.len() == n,
                    all.len() == n,
                    forall|i: int| 0 <= i < rest.len() ==> #[trigger] rest[i].deep_view() == all[i],
                    forall|i: int| 0 <= i < rev.len() ==> #[trigger] rev[i].deep_view() == all[n - 1 - i],
                decreases rest.len(),
            {
                let ghost k = rest.len() - 1;
                let entry = rest.pop().unwrap();
                assert(entry.deep_view() == all[k]);
                let (shortcode, image_url) = entry;
                let e = Emoji { shortcode, image_url };
                assert(e.deep_view() == all[k]);
                rev.push(e);
                assert(rev[rev.len() - 1].deep_view() == all[n - 1 - (rev.len() - 1)]);
            }
            while rev.len() > 0
                invariant
                    res.len() + rev.len() == n,
                    all.len() == n,
                    forall|i: int| 0 <= i < rev.len() ==> #[trigger] rev[i].deep_view() == all[n - 1 - i],
                    forall|i: int| 0 <= i < res.len() ==> #[trigger] res[i].deep_view() == all[i],
                decreases rev.len(),
            {
                let e = rev.pop().unwrap();
                res.push(e);
            }
            assert(res.deep_view() =~= all);
            Some(res)
        },
        _ => None,
    }
}

} // verus!
