use vstd::prelude::*;

use crate::strings::{crlf_to_lf, replace_crlf};
use crate::text::str_equal;

verus! {

/// The text with every `\r\n` line ending turned into `\n`.
pub fn normalize_line_endings(source: &str) -> (normalized: String)
    ensures
        normalized@ == crlf_to_lf(source@),
{
    replace_crlf(source)
}

/// Whether the text read from disk (`None` when it could not be read)
/// matches the editor's text once line endings are normalized.
pub fn source_matches_disk_text(disk_source: Option<&str>, source: &str) -> (matches: bool)
    ensures
        matches == match disk_source {
            Some(disk) => crlf_to_lf(disk@) == crlf_to_lf(source@),
            None => false,
        },
{
    match disk_source {
        Some(disk) => {
            let a = normalize_line_endings(disk);
            let b = normalize_line_endings(source);
            str_equal(a.as_str(), b.as_str())
        },
        None => false,
    }
}

} // verus!
