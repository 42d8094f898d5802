//! Mirror records and their mathematical models.

use vstd::prelude::*;
use crate::country::{country_view, Country};
use crate::protocol::Protocol;

verus! {

/// The address of a mirror: the protocol its scheme names and the
/// serialized text of the parsed URL.
#[derive(Clone, Debug)]
pub struct MirrorUrl {
    pub scheme: Protocol,
    pub text: String,
}

/// One mirror record of the list document. `url` is the mirror's base
/// address; `url_to_test` is that address joined with the probe path.
#[derive(Clone, Debug)]
pub struct Mirror {
    pub country: Option<Country>,
    pub url: MirrorUrl,
    pub url_to_test: String,
}

/// The mathematical content of a mirror record.
#[verifier::ext_equal]
pub ghost struct MirrorModel {
    pub country: Option<Seq<char>>,
    pub scheme: Protocol,
    pub url: Seq<char>,
    pub url_to_test: Seq<char>,
}

impl View for Mirror {
    type V = MirrorModel;

    open spec fn view(&self) -> MirrorModel {
        MirrorModel {
            country: country_view(self.country),
            scheme: self.url.scheme,
            url: self.url.text@,
            url_to_test: self.url_to_test@,
        }
    }
}

/// The models of a sequence of mirror records.
pub open spec fn mirror_models(s: Seq<Mirror>) -> Seq<MirrorModel> {
    s.map_values(|m: Mirror| m@)
}

/// A mirror together with the update number its probe discovered;
/// the number is absent when the probe failed at any stage.
pub struct VersionedMirror {
    pub mirror: Mirror,
    pub update_number: Option<usize>,
}

} // verus!
