//! JSON-style unescaping of a line, used to read paths written inside
//! escaped string literals.

use vstd::prelude::*;

verus! {

/// What `serde_json` decodes from the JSON string literal `"` + `escaped` + `"`,
/// or `None` where that text is not a valid JSON string literal.
pub uninterp spec fn json_string_unescape(escaped: Seq<char>) -> Option<Seq<char>>;

/// Decodes `escaped` as the body of a JSON string literal, by calling
/// `serde_json::from_str::<String>` on the text wrapped in double quotes.
/// The contract names the decoded value (`json_string_unescape`) and states one
/// fact of the JSON grammar: every decoded character comes from at least one
/// character of the body, so decoding never makes the text longer.
#[verifier::external_body]
pub fn unescape(escaped: &str) -> (res: Option<String>)
    ensures
        match res {
            Some(u) => json_string_unescape(escaped@) == Some(u@),
            None => json_string_unescape(escaped@) is None,
        },
        res matches Some(u) ==> u@.len() <= escaped@.len(),
{
    let line = format!("\"{}\"", escaped);
    serde_json::from_str::<String>(&line).ok()
}

} // verus!
