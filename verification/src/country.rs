//! Country tags taken from the `## <name>` headers of a mirror-list
//! document.

use vstd::prelude::*;

verus! {

/// A country tag. Any non-empty header remainder names a country; an
/// empty remainder is unparseable and stands for "unknown".
#[derive(Clone, Debug)]
pub struct Country {
    pub name: String,
}

/// The country named by the remainder of a `## ` header line.
pub open spec fn country_of(s: Seq<char>) -> Option<Seq<char>> {
    if s.len() == 0 {
        None
    } else {
        Some(s)
    }
}

/// The name an optional country tag carries.
pub open spec fn country_view(c: Option<Country>) -> Option<Seq<char>> {
    match c {
        None => None,
        Some(c) => Some(c.name@),
    }
}

impl Country {
    /// Parses a country tag; an empty tag is unknown.
    pub fn from_str(s: &str) -> (r: Option<Country>)
        ensures
            country_view(r) == country_of(s@),
    {
        if s.is_empty() {
            None
        } else {
            Some(Country { name: s.to_owned() })
        }
    }
}

/// Clones an optional country tag.
pub fn clone_country(c: &Option<Country>) -> (r: Option<Country>)
    ensures
        country_view(r) == country_view(*c),
{
    match c {
        None => None,
        Some(c) => Some(Country { name: c.name.clone() }),
    }
}

} // verus!
