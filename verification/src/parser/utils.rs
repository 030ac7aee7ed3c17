//! Splitting of a text into path-like pieces.

use vstd::prelude::*;

use crate::parser::{cands_view, single_byte_delims, split_pieces, PathCandidate};
use crate::text::byte_len;

verus! {

/// Splits `content`, whose first byte sits at the start of `path_ref`, at the
/// `delimiter` characters, and keeps the trimmed, non-blank pieces that hold
/// a slash or a backslash.
pub fn split(content: &str, path_ref: &PathCandidate, delimiter: &[char]) -> (results: Vec<
    PathCandidate,
>)
    requires
        path_ref.start_byte + byte_len(content@) <= usize::MAX,
        single_byte_delims(content@, delimiter@),
    ensures
        cands_view(results@) == split_pieces(content@, delimiter@, path_ref.start_byte as nat, 0),
{
    path_ref.split(content, delimiter)
}

} // verus!
