//! Trusted bridge to the `url` crate: parsing and joining of URLs.

use vstd::prelude::*;

verus! {

/// A parsed absolute URL: its scheme and its serialized text.
pub struct ParsedUrl {
    pub scheme: String,
    pub text: String,
}

/// What `url::Url::parse` yields on the given string: `None` when the
/// string is not a valid absolute URL, else the URL's scheme and its
/// serialized (normalized) text. The result depends on the string
/// alone.
pub uninterp spec fn url_parse_of(s: Seq<char>) -> Option<(Seq<char>, Seq<char>)>;

/// What joining `path` onto the URL written `base` yields, as by
/// `url::Url::parse(base)` followed by `Url::join(path)`: `None` when
/// `base` does not parse or the join fails, else the serialized text
/// of the joined URL. The result depends on the two strings alone.
pub uninterp spec fn url_join_of(base: Seq<char>, path: Seq<char>) -> Option<Seq<char>>;

/// Parses an absolute URL and hands back its scheme and serialization.
///
/// Relies on `url::Url::parse`, which is deterministic in its input,
/// together with `Url::scheme` and the serialization that
/// `String::from` reads.
#[verifier::external_body]
pub fn parse_url(s: &str) -> (r: Option<ParsedUrl>)
    ensures
        r is Some <==> url_parse_of(s@) is Some,
        r matches Some(p) ==> url_parse_of(s@) == Some((p.scheme@, p.text@)),
{
    match url::Url::parse(s) {
        Ok(u) => {
            let scheme = u.scheme().to_string();
            let text = String::from(u);
            Some(ParsedUrl { scheme, text })
        },
        Err(_) => None,
    }
}

/// Joins a relative path onto an already-serialized URL.
///
/// Relies on `url::Url::parse` and `Url::join`, both deterministic in
/// their inputs.
#[verifier::external_body]
pub fn join_url(base: &str, path: &str) -> (r: Option<String>)
    ensures
        r is Some <==> url_join_of(base@, path@) is Some,
        r matches Some(t) ==> url_join_of(base@, path@) == Some(t@),
{
    match url::Url::parse(base) {
        Ok(u) => match u.join(path) {
            Ok(j) => Some(String::from(j)),
            Err(_) => None,
        },
        Err(_) => None,
    }
}

} // verus!
