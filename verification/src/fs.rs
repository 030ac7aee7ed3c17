//! Conversions between the URIs in which the client names documents and
//! file paths.

use vstd::prelude::*;

use crate::error::{PathServerError, PathServerResult};
use crate::text::{chars_of, concat_chars, str_eq, string_of};

verus! {

/// The scheme of `url` as `tower_lsp_server::ls_types::Uri` parses it; `None` where it is no
/// URI.
pub uninterp spec fn scheme_of_uri(url: Seq<char>) -> Option<Seq<char>>;

/// `tower_lsp_server::ls_types::Uri::from_str(url)`, then the scheme of the URI as written.
/// Stated beyond the name: a plain `file` URI parses; the scheme of a URI
/// that starts with `file:///` is `file`.
#[verifier::external_body]
fn uri_scheme(url: &str) -> (r: Option<String>)
    ensures
        plain_file_uri(url@) ==> r is Some,
        starts_file_uri(url@) && r is Some ==> r->0@ == seq!['f', 'i', 'l', 'e'],
        match r {
            Some(s) => scheme_of_uri(url@) == Some(s@),
            None => scheme_of_uri(url@) is None,
        },
{
    <tower_lsp_server::ls_types::Uri as std::str::FromStr>::from_str(url).ok().map(|u| u.scheme().as_str().to_string())
}

/// `tower_lsp_server::ls_types::Uri::from_str(url)`, then `to_file_path`, as text. Stated: a
/// URI that parses and starts with `file:///` names a path (its decoded path
/// starts with `/`, and `to_file_path` gives a path for every such one); for
/// a plain `file` URI, the path is the text after `file:///` with or without
/// a leading slash (the platform decides which). Otherwise nothing is stated:
/// how a URI maps to a path depends on the platform.
#[verifier::external_body]
pub(crate) fn uri_file_path(url: &str) -> (r: Option<String>)
    ensures
        starts_file_uri(url@) && scheme_of_uri(url@) is Some ==> r is Some,
        plain_file_uri(url@) ==> r is Some && plain_uri_path(url@, r->0@),
{
    <tower_lsp_server::ls_types::Uri as std::str::FromStr>::from_str(url).ok().and_then(
        |u| u.to_file_path().map(|p| p.to_string_lossy().into_owned()),
    )
}

/// A character that stands for itself in the path of a URI: ASCII letters
/// and digits, `-`, `.`, `_`, `~` and `/`.
pub open spec fn uri_path_char(c: char) -> bool {
    ||| ('a' <= c && c <= 'z')
    ||| ('A' <= c && c <= 'Z')
    ||| ('0' <= c && c <= '9')
    ||| c == '-'
    ||| c == '.'
    ||| c == '_'
    ||| c == '~'
    ||| c == '/'
}

/// The text `file:///`.
pub open spec fn file_uri_head() -> Seq<char> {
    seq!['f', 'i', 'l', 'e', ':', '/', '/', '/']
}

/// `u` starts with `file:///`: a `file` URI without a host.
pub open spec fn starts_file_uri(u: Seq<char>) -> bool {
    u.len() >= 8 && u.take(8) == file_uri_head()
}

/// A `file` URI without a host whose path is written with plain characters
/// only: `file:///` and then such characters.
pub open spec fn plain_file_uri(u: Seq<char>) -> bool {
    &&& u.len() >= 8
    &&& u.take(8) == file_uri_head()
    &&& forall|i: int| 8 <= i < u.len() ==> uri_path_char(#[trigger] u[i])
}

/// The file paths that a plain `file` URI names: the text after `file:///`,
/// with the leading slash (where a path starts at the root) or without it
/// (where it starts with a drive).
pub open spec fn plain_uri_path(u: Seq<char>, path: Seq<char>) -> bool {
    path == u.skip(8) || path == seq!['/'] + u.skip(8)
}

/// A `file` URI as written from a path: `file://` and then the path with
/// every other character percent-encoded (`%` and two hex digits).
pub open spec fn encoded_file_uri(u: Seq<char>) -> bool {
    &&& u.len() >= 7
    &&& u.take(7) == seq!['f', 'i', 'l', 'e', ':', '/', '/']
    &&& forall|i: int| 7 <= i < u.len() ==> uri_path_char(#[trigger] u[i]) || u[i] == '%'
}

/// `tower_lsp_server::ls_types::Uri::from_file_path(path)`, as text. Stated: the URI is
/// `file://` and then the percent-encoded path. Which path is encoded (a
/// relative one is made absolute through the file system, and the form
/// depends on the platform), and whether there is one, is not stated.
#[verifier::external_body]
fn file_path_uri(path: &str) -> (r: Option<String>)
    ensures
        r matches Some(u) ==> encoded_file_uri(u@),
{
    tower_lsp_server::ls_types::Uri::from_file_path(path).map(|u| u.as_str().to_string())
}

pub open spec fn to_path_error_text(url: Seq<char>) -> Seq<char> {
    "Failed to convert URL to file path: "@ + url
}

pub open spec fn non_local_error_text(url: Seq<char>) -> Seq<char> {
    "Non-local url is not supported: "@ + url
}

pub open spec fn to_url_error_text(path: Seq<char>) -> Seq<char> {
    "Failed to convert file path to URL: "@ + path
}

fn joined(prefix: &str, rest: &str) -> (s: String)
    ensures
        s@ == prefix@ + rest@,
{
    string_of(concat_chars(chars_of(prefix).as_slice(), chars_of(rest).as_slice()).as_slice())
}

/// The file path that `url` names: a path for a `file` URI (an error where
/// it names none), nothing for an `untitled` one, an error for any other
/// scheme (or for a text that is no URI).
pub fn url_to_path(url: &str) -> (r: PathServerResult<Option<String>>)
    ensures
        plain_file_uri(url@) ==> (r matches Ok(Some(p)) && plain_uri_path(url@, p@)),
        starts_file_uri(url@) && scheme_of_uri(url@) is Some ==> r matches Ok(Some(_)),
        match scheme_of_uri(url@) {
            None => r matches Err(PathServerError::InvalidPath(m)) && m@ == to_path_error_text(
                url@,
            ),
            Some(s) => if s == "file"@ {
                r matches Ok(Some(_)) || (r matches Err(PathServerError::InvalidPath(m)) && m@
                    == to_path_error_text(url@))
            } else if s == "untitled"@ {
                r matches Ok(None)
            } else {
                r matches Err(PathServerError::Unsupported(m)) && m@ == non_local_error_text(url@)
            },
        },
{
    proof {
        reveal_strlit("file");
        assert("file"@ =~= seq!['f', 'i', 'l', 'e']);
    }
    match uri_scheme(url) {
        None => Err(PathServerError::InvalidPath(joined("Failed to convert URL to file path: ", url))),
        Some(scheme) => {
            if str_eq(scheme.as_str(), "file") {
                match uri_file_path(url) {
                    Some(p) => Ok(Some(p)),
                    None => Err(
                        PathServerError::InvalidPath(
                            joined("Failed to convert URL to file path: ", url),
                        ),
                    ),
                }
            } else if str_eq(scheme.as_str(), "untitled") {
                Ok(None)
            } else {
                Err(PathServerError::Unsupported(joined("Non-local url is not supported: ", url)))
            }
        },
    }
}

/// The `file` URI of `path`: `file://` and then the path, percent-encoded.
pub fn path_to_url(path: &str) -> (r: PathServerResult<String>)
    ensures
        r matches Ok(u) ==> encoded_file_uri(u@),
        r matches Err(e) ==> e matches PathServerError::InvalidPath(m) && m@ == to_url_error_text(
            path@,
        ),
{
    match file_path_uri(path) {
        Some(u) => Ok(u),
        None => Err(PathServerError::InvalidPath(joined("Failed to convert file path to URL: ", path))),
    }
}

} // verus!
