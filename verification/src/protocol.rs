//! URL protocols and the caller's protocol allow-list.

use vstd::prelude::*;
use vstd::string::*;

verus! {

/// A protocol a mirror address may use.
#[derive(Clone, Copy, PartialEq, Eq, Structural, Debug)]
pub enum Protocol {
    Http,
    Https,
    Rsync,
}

/// The protocol a URL scheme names, if any.
pub open spec fn protocol_of(s: Seq<char>) -> Option<Protocol> {
    if s == "http"@ {
        Some(Protocol::Http)
    } else if s == "https"@ {
        Some(Protocol::Https)
    } else if s == "rsync"@ {
        Some(Protocol::Rsync)
    } else {
        None
    }
}

/// True when the two strings hold the same characters.
pub fn str_eq(a: &str, b: &str) -> (r: bool)
    ensures
        r == (a@ == b@),
{
    let n = a.unicode_len();
    if n != b.unicode_len() {
        return false;
    }
    let mut i: usize = 0;
    while i < n
        invariant
            i <= n,
            n == a@.len(),
            n == b@.len(),
            forall|j: int| 0 <= j < i ==> a@[j] == b@[j],
        decreases n - i,
    {
        if a.get_char(i) != b.get_char(i) {
            return false;
        }
        i += 1;
    }
    assert(a@ =~= b@);
    true
}

/// Parses a URL scheme into a protocol.
pub fn parse_protocol(s: &str) -> (r: Option<Protocol>)
    ensures
        r == protocol_of(s@),
{
    if str_eq(s, "http") {
        Some(Protocol::Http)
    } else if str_eq(s, "https") {
        Some(Protocol::Https)
    } else if str_eq(s, "rsync") {
        Some(Protocol::Rsync)
    } else {
        None
    }
}

/// The caller's configuration: which protocols a mirror address may
/// use to be kept.
#[derive(Clone, Copy, PartialEq, Eq, Structural, Debug)]
pub struct Config {
    pub allow_http: bool,
    pub allow_https: bool,
    pub allow_rsync: bool,
}

impl Config {
    /// True when the policy admits `p`.
    pub open spec fn allows(self, p: Protocol) -> bool {
        match p {
            Protocol::Http => self.allow_http,
            Protocol::Https => self.allow_https,
            Protocol::Rsync => self.allow_rsync,
        }
    }

    /// Whether this configuration's policy admits `protocol`.
    pub fn is_protocol_allowed(&self, protocol: &Protocol) -> (r: bool)
        ensures
            r == self.allows(*protocol),
    {
        match protocol {
            Protocol::Http => self.allow_http,
            Protocol::Https => self.allow_https,
            Protocol::Rsync => self.allow_rsync,
        }
    }
}

} // verus!
