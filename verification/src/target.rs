//! The EndeavourOS target: its per-target settings, its list-line
//! formatting, and the parse of its mirror-list document.

use vstd::prelude::*;
use vstd::string::*;
use crate::mirror::{mirror_models, Mirror};
use crate::parser::{parse_mirror_list, parse_rec, AppError};
use crate::protocol::Config;
use crate::text::split_lines;

verus! {

/// The per-target settings: where the mirror list lives, the relative
/// probe path, the comment prefix of persisted lines, the probe
/// timeouts in milliseconds, and the probe concurrency bound.
#[derive(Clone, Debug)]
pub struct EndeavourOSTarget {
    pub mirror_list_file: String,
    pub path_to_test: String,
    pub comment_prefix: String,
    pub fetch_mirrors_timeout: u64,
    pub version_mirror_timeout: u64,
    pub version_mirror_concurrency: usize,
}

impl EndeavourOSTarget {
    /// Prefixes a status message with the target's comment prefix.
    pub fn format_comment(&self, message: &str) -> (r: String)
        ensures
            r@ == self.comment_prefix@ + message@,
    {
        let mut s = self.comment_prefix.clone();
        s.append(message);
        s
    }

    /// Writes a surviving mirror back as a mirror-list line.
    pub fn format_mirror(&self, mirror: &Mirror) -> (r: String)
        ensures
            r@ == "Server = "@ + mirror.url.text@ + "$repo/$arch"@,
    {
        let mut s = String::from_str("Server = ");
        s.append(mirror.url.text.as_str());
        s.append("$repo/$arch");
        s
    }

    /// Parses a mirror-list document for this target, joining each
    /// kept address with the target's probe path.
    pub fn parse_mirror_list(&self, doc: &str, config: &Config) -> (r: Result<
        Vec<Mirror>,
        AppError,
    >)
        ensures
            r matches Ok(v) ==> parse_rec(split_lines(doc@), None, *config, self.path_to_test@)
                == Ok::<_, AppError>(mirror_models(v@)),
            r matches Ok(v) ==> forall|k: int|
                0 <= k < v@.len() ==> config.allows(#[trigger] v@[k]@.scheme),
            r is Err <==> parse_rec(split_lines(doc@), None, *config, self.path_to_test@) is Err,
            r matches Err(e) ==> e == AppError::UrlJoinFailed,
    {
        parse_mirror_list(doc, config, self.path_to_test.as_str())
    }
}

} // verus!
