//! Pattern-based extraction of the path at the end of a line.
//!
//! The line is searched for the last place where a path visibly begins
//! (`~/`, `../`, `./`, a `/` after a delimiter, a drive letter, `..\`, `.\`), in
//! that order of preference; without one, the last space-separated word is
//! taken.

use vstd::prelude::*;

use crate::parser::line::{rfind_char, split_point};
use crate::text::{
    byte_offset, char_index_of_byte, chars_of, is_ascii_alpha, is_white_space, slice_chars,
    string_of,
};

verus! {

/// Regular expressions searched for, as written in their source text.
pub open spec fn pattern_home() -> Seq<char> {
    seq!['~', '/']
}

pub open spec fn pattern_parent() -> Seq<char> {
    seq!['\\', '.', '\\', '.', '/']
}

pub open spec fn pattern_current() -> Seq<char> {
    seq!['\\', '.', '/']
}

/// `(?:^|[\s"'\[(])(/)`
pub open spec fn pattern_root() -> Seq<char> {
    seq!['(', '?', ':', '^', '|', '[', '\\', 's', '"', '\'', '\\', '[', '(', ']', ')', '(', '/', ')']
}

/// `[a-zA-Z]:\\`
pub open spec fn pattern_drive() -> Seq<char> {
    seq!['[', 'a', '-', 'z', 'A', '-', 'Z', ']', ':', '\\', '\\']
}

/// `\.\\`
pub open spec fn pattern_win_current() -> Seq<char> {
    seq!['\\', '.', '\\', '\\']
}

/// `\.\.\\`
pub open spec fn pattern_win_parent() -> Seq<char> {
    seq!['\\', '.', '\\', '.', '\\', '\\']
}

pub open spec fn is_known_pattern(p: Seq<char>) -> bool {
    ||| p == pattern_home()
    ||| p == pattern_parent()
    ||| p == pattern_current()
    ||| p == pattern_root()
    ||| p == pattern_drive()
    ||| p == pattern_win_current()
    ||| p == pattern_win_parent()
}

/// `h` holds the text `lit` at character index `p`.
pub open spec fn literal_at(h: Seq<char>, p: int, lit: Seq<char>) -> bool {
    0 <= p && p + lit.len() <= h.len() && h.subrange(p, p + lit.len()) == lit
}

/// The regular expression `pattern` has a match that starts at character `p` of `h`.
#[verifier::opaque]
pub open spec fn matches_at(pattern: Seq<char>, h: Seq<char>, p: int) -> bool {
    if pattern == pattern_home() {
        literal_at(h, p, seq!['~', '/'])
    } else if pattern == pattern_parent() {
        literal_at(h, p, seq!['.', '.', '/'])
    } else if pattern == pattern_current() {
        literal_at(h, p, seq!['.', '/'])
    } else if pattern == pattern_root() {
        (p == 0 && 0 < h.len() && h[0] == '/') || (0 <= p && p + 1 < h.len() && h[p + 1] == '/'
            && (is_white_space(h[p]) || h[p] == '"' || h[p] == '\'' || h[p] == '[' || h[p]
            == '('))
    } else if pattern == pattern_drive() {
        0 <= p && p + 2 < h.len() && is_ascii_alpha(h[p]) && h[p + 1] == ':' && h[p + 2] == '\\'
    } else if pattern == pattern_win_current() {
        literal_at(h, p, seq!['.', '\\'])
    } else {
        literal_at(h, p, seq!['.', '.', '\\'])
    }
}

/// Start of the last match of `pattern` in `h`, where there is one.
///
/// None of the patterns can overlap with itself, so the matches that a
/// left-to-right search finds are all the places where it matches, and the
/// last one found is the last such place.
#[verifier::opaque]
pub open spec fn last_match(pattern: Seq<char>, h: Seq<char>) -> Option<int> {
    if exists|p: int| matches_at(pattern, h, p) {
        Some(
            choose|p: int|
                matches_at(pattern, h, p) && forall|q: int| p < q ==> !matches_at(pattern, h, q),
        )
    } else {
        None
    }
}

/// Byte offset at which the last match of the regular expression `pattern`
/// in `haystack` starts (`Regex::new(pattern)`, then the last item of
/// `find_iter(haystack)`), for the fixed patterns that this module searches
/// for; the contract states for each of them where it matches.
#[verifier::external_body]
fn regex_last_match_start(pattern: &str, haystack: &str) -> (res: Option<usize>)
    requires
        is_known_pattern(pattern@),
    ensures
        match last_match(pattern@, haystack@) {
            Some(p) => res is Some && res->0 == byte_offset(haystack@, p),
            None => res is None,
        },
{
    regex::Regex::new(pattern).ok().and_then(|re| re.find_iter(haystack).last()).map(|m| m.start())
}

proof fn lemma_match_in_range(pattern: Seq<char>, h: Seq<char>, p: int)
    requires
        is_known_pattern(pattern),
        matches_at(pattern, h, p),
    ensures
        0 <= p < h.len(),
{
    reveal(matches_at);
}

/// Character index of the last match of `pattern` in the line `chars`.
fn last_match_index(pattern: &str, line: &str, chars: &Vec<char>) -> (r: Option<usize>)
    requires
        is_known_pattern(pattern@),
        chars@ == line@,
    ensures
        match last_match(pattern@, line@) {
            Some(p) => r is Some && r->0 == p && 0 <= p < line@.len(),
            None => r is None,
        },
{
    proof {
        reveal(last_match);
    }
    match regex_last_match_start(pattern, line) {
        Some(b) => {
            let ghost p = last_match(pattern@, line@)->0;
            proof {
                let p0 = choose|p: int| matches_at(pattern@, line@, p);
                lemma_last_match_exists(pattern@, line@, p0);
                let w = choose|w: int|
                    matches_at(pattern@, line@, w) && forall|q: int|
                        w < q ==> !matches_at(pattern@, line@, q);
                lemma_match_in_range(pattern@, line@, w);
                assert(p == w);
                assert(0 <= p <= chars@.len());
                assert(byte_offset(chars@, p) == b);
                assert(crate::text::is_boundary(chars@, b as int));
            }
            match char_index_of_byte(chars.as_slice(), b) {
                Some(k) => {
                    proof {
                        crate::text::lemma_byte_offset_injective(chars@, k as int, p);
                    }
                    Some(k)
                },
                None => None,
            }
        },
        None => None,
    }
}

/// The characters of `chars` from index `p` on, as a string.
fn suffix_from(chars: &Vec<char>, p: usize) -> (s: String)
    requires
        p <= chars@.len(),
    ensures
        s@ == chars@.skip(p as int),
{
    let s = string_of(slice_chars(chars.as_slice(), p, chars.len()).as_slice());
    assert(chars@.subrange(p as int, chars@.len() as int) =~= chars@.skip(p as int));
    s
}

/// A known pattern that matches somewhere has a last match.
proof fn lemma_last_match_exists(pattern: Seq<char>, h: Seq<char>, p: int)
    requires
        is_known_pattern(pattern),
        matches_at(pattern, h, p),
    ensures
        exists|w: int| matches_at(pattern, h, w) && forall|q: int| w < q ==> !matches_at(pattern, h, q),
    decreases h.len() - p,
{
    lemma_match_in_range(pattern, h, p);
    if exists|q: int| p < q && matches_at(pattern, h, q) {
        let q = choose|q: int| p < q && matches_at(pattern, h, q);
        lemma_match_in_range(pattern, h, q);
        lemma_last_match_exists(pattern, h, q);
    } else {
        assert(forall|q: int| p < q ==> !matches_at(pattern, h, q));
    }
}

proof fn lemma_last_match_matches(pattern: Seq<char>, h: Seq<char>)
    requires
        is_known_pattern(pattern),
        last_match(pattern, h) is Some,
    ensures
        matches_at(pattern, h, last_match(pattern, h)->0),
{
    reveal(last_match);
    let p0 = choose|p: int| matches_at(pattern, h, p);
    lemma_last_match_exists(pattern, h, p0);
}

proof fn lemma_root_match(h: Seq<char>, p: int)
    requires
        matches_at(pattern_root(), h, p),
    ensures
        0 <= p < h.len(),
        h[p] == '/' || (p + 1 < h.len() && h[p + 1] == '/'),
{
    reveal(matches_at);
}

/// Where a Unix-style path begins: the last `~/`, else the last `../`, else
/// the last `./`, else the last `/` that starts the line or follows a space,
/// a quote, `[` or `(`.
pub open spec fn unix_start(line: Seq<char>) -> Option<int> {
    if last_match(pattern_home(), line) is Some {
        last_match(pattern_home(), line)
    } else if last_match(pattern_parent(), line) is Some {
        last_match(pattern_parent(), line)
    } else if last_match(pattern_current(), line) is Some {
        last_match(pattern_current(), line)
    } else if last_match(pattern_root(), line) is Some {
        let p = last_match(pattern_root(), line)->0;
        if line[p] == '/' {
            Some(p)
        } else {
            Some(p + 1)
        }
    } else {
        None
    }
}

/// Where a Windows-style path begins: the last drive (`C:\`), else the last
/// `..\`, else the last `.\`.
pub open spec fn windows_start(line: Seq<char>) -> Option<int> {
    if last_match(pattern_drive(), line) is Some {
        last_match(pattern_drive(), line)
    } else if last_match(pattern_win_parent(), line) is Some {
        last_match(pattern_win_parent(), line)
    } else {
        last_match(pattern_win_current(), line)
    }
}

/// The text that [`parse_line`] returns for `line`.
pub open spec fn inline_path(line: Seq<char>) -> Seq<char> {
    if unix_start(line) is Some {
        line.skip(unix_start(line)->0)
    } else if windows_start(line) is Some {
        line.skip(windows_start(line)->0)
    } else if exists|i: int| 0 <= i < line.len() && line[i] == ' ' {
        line.skip(crate::parser::line::last_index_of(line, ' ') + 1)
    } else {
        line
    }
}

/// `lit` occurs in `h` at `p`, and at no later place.
pub open spec fn last_literal_at(h: Seq<char>, p: int, lit: Seq<char>) -> bool {
    literal_at(h, p, lit) && forall|q: int| p < q ==> !literal_at(h, q, lit)
}

/// `lit` occurs somewhere in `h`.
pub open spec fn holds_literal(h: Seq<char>, lit: Seq<char>) -> bool {
    exists|q: int| literal_at(h, q, lit)
}

/// A `/` at `p` that starts the line or follows whitespace, a quote, `[` or
/// `(`.
pub open spec fn root_slash_at(h: Seq<char>, p: int) -> bool {
    &&& 0 <= p < h.len()
    &&& h[p] == '/'
    &&& (p == 0 || is_white_space(h[p - 1]) || h[p - 1] == '"' || h[p - 1] == '\'' || h[p - 1]
        == '[' || h[p - 1] == '(')
}

/// A drive `X:\` at `p`.
pub open spec fn drive_at(h: Seq<char>, p: int) -> bool {
    0 <= p && p + 2 < h.len() && is_ascii_alpha(h[p]) && h[p + 1] == ':' && h[p + 2] == '\\'
}

/// The match found last is the last place where the pattern matches.
proof fn lemma_last_match_is(pattern: Seq<char>, h: Seq<char>, p: int)
    requires
        is_known_pattern(pattern),
        matches_at(pattern, h, p),
        forall|q: int| p < q ==> !matches_at(pattern, h, q),
    ensures
        last_match(pattern, h) == Some(p),
{
    reveal(last_match);
    let w = choose|w: int| matches_at(pattern, h, w) && forall|q: int| w < q ==> !matches_at(pattern, h, q);
    assert(matches_at(pattern, h, w));
    if w < p {
    } else if w > p {
    }
}

/// A pattern that matches nowhere has no last match.
proof fn lemma_last_match_none(pattern: Seq<char>, h: Seq<char>)
    requires
        forall|q: int| !matches_at(pattern, h, q),
    ensures
        last_match(pattern, h) is None,
{
    reveal(last_match);
}

/// Where a literal pattern is found last.
proof fn lemma_literal_last_match(pattern: Seq<char>, lit: Seq<char>, h: Seq<char>)
    requires
        is_known_pattern(pattern),
        forall|q: int| #[trigger] matches_at(pattern, h, q) == literal_at(h, q, lit),
    ensures
        !holds_literal(h, lit) ==> last_match(pattern, h) is None,
        forall|p: int| last_literal_at(h, p, lit) ==> last_match(pattern, h) == Some(p),
{
    if !holds_literal(h, lit) {
        assert forall|q: int| !matches_at(pattern, h, q) by {
            assert(matches_at(pattern, h, q) == literal_at(h, q, lit));
        }
        lemma_last_match_none(pattern, h);
    }
    assert forall|p: int| last_literal_at(h, p, lit) implies last_match(pattern, h) == Some(p) by {
        assert(matches_at(pattern, h, p) == literal_at(h, p, lit));
        assert forall|q: int| p < q implies !matches_at(pattern, h, q) by {
            assert(matches_at(pattern, h, q) == literal_at(h, q, lit));
        }
        lemma_last_match_is(pattern, h, p);
    }
}

/// The texts that begin a path: `~/`, `../`, `./`, `..\`, `.\`.
pub open spec fn home_prefix() -> Seq<char> {
    seq!['~', '/']
}

pub open spec fn parent_prefix() -> Seq<char> {
    seq!['.', '.', '/']
}

pub open spec fn current_prefix() -> Seq<char> {
    seq!['.', '/']
}

pub open spec fn win_parent_prefix() -> Seq<char> {
    seq!['.', '.', '\\']
}

pub open spec fn win_current_prefix() -> Seq<char> {
    seq!['.', '\\']
}

/// Where a path visibly begins, the line is cut there, with this
/// preference: the last `~/`; else the last `../`; else the last `./`; else
/// the last `/` that starts the line or follows whitespace, a quote, `[` or
/// `(`; else the last drive `X:\`; else the last `..\`; else the last `.\`.
/// Without any of these, the text after the last space is taken, or the
/// whole line where it has no space.
pub proof fn lemma_inline_path_preference(line: Seq<char>)
    ensures
        forall|p: int| #[trigger] last_literal_at(line, p, home_prefix()) ==> inline_path(line)
            == line.skip(p),
        forall|p: int|
            !holds_literal(line, home_prefix()) && #[trigger] last_literal_at(
                line,
                p,
                parent_prefix(),
            ) ==> inline_path(line) == line.skip(p),
        forall|p: int|
            !holds_literal(line, home_prefix()) && !holds_literal(line, parent_prefix())
                && #[trigger] last_literal_at(line, p, current_prefix()) ==> inline_path(line)
                == line.skip(p),
        forall|p: int|
            !holds_literal(line, home_prefix()) && !holds_literal(line, current_prefix())
                && #[trigger] root_slash_at(line, p) && (forall|q: int|
                p < q ==> !root_slash_at(line, q)) ==> inline_path(line) == line.skip(p),
        forall|p: int|
            !holds_literal(line, home_prefix()) && !holds_literal(line, current_prefix()) && (
            forall|q: int| !root_slash_at(line, q)) && #[trigger] drive_at(line, p) && (forall|q: int|
                p < q ==> !drive_at(line, q)) ==> inline_path(line) == line.skip(p),
        forall|p: int|
            !holds_literal(line, home_prefix()) && !holds_literal(line, current_prefix()) && (
            forall|q: int| !root_slash_at(line, q)) && (forall|q: int| !drive_at(line, q))
                && #[trigger] last_literal_at(line, p, win_parent_prefix()) ==> inline_path(line)
                == line.skip(p),
        forall|p: int|
            !holds_literal(line, home_prefix()) && !holds_literal(line, current_prefix()) && (
            forall|q: int| !root_slash_at(line, q)) && (forall|q: int| !drive_at(line, q))
                && !holds_literal(line, win_parent_prefix()) && #[trigger] last_literal_at(
                line,
                p,
                win_current_prefix(),
            ) ==> inline_path(line) == line.skip(p),
        !holds_literal(line, home_prefix()) && !holds_literal(line, current_prefix()) && (forall|q: int|
            !root_slash_at(line, q)) && (forall|q: int| !drive_at(line, q)) && !holds_literal(
            line,
            win_current_prefix(),
        ) ==> (forall|s: int|
            0 <= s < line.len() && line[s] == ' ' && (forall|q: int|
                s < q < line.len() ==> line[q] != ' ') ==> inline_path(line) == line.skip(s + 1)) && (
        (forall|q: int| 0 <= q < line.len() ==> line[q] != ' ') ==> inline_path(line) == line),
{
    reveal(matches_at);
    lemma_literal_last_match(pattern_home(), home_prefix(), line);
    lemma_literal_last_match(pattern_parent(), parent_prefix(), line);
    lemma_literal_last_match(pattern_current(), current_prefix(), line);
    lemma_literal_last_match(pattern_win_parent(), win_parent_prefix(), line);
    lemma_literal_last_match(pattern_win_current(), win_current_prefix(), line);
    // `../` holds `./`: without `./` there is no `../`; same for `..\`
    if !holds_literal(line, current_prefix()) {
        assert(!holds_literal(line, parent_prefix())) by {
            if holds_literal(line, parent_prefix()) {
                let q = choose|q: int| literal_at(line, q, parent_prefix());
                assert(line.subrange(q + 1, q + 3) =~= line.subrange(q, q + 3).subrange(1, 3));
                assert(line.subrange(q, q + 3) == parent_prefix());
                assert(line.subrange(q, q + 3).subrange(1, 3) =~= current_prefix());
                assert(literal_at(line, q + 1, current_prefix()));
            }
        }
    }
    if !holds_literal(line, win_current_prefix()) {
        assert(!holds_literal(line, win_parent_prefix())) by {
            if holds_literal(line, win_parent_prefix()) {
                let q = choose|q: int| literal_at(line, q, win_parent_prefix());
                assert(line.subrange(q + 1, q + 3) =~= line.subrange(q, q + 3).subrange(1, 3));
                assert(line.subrange(q, q + 3) == win_parent_prefix());
                assert(line.subrange(q, q + 3).subrange(1, 3) =~= win_current_prefix());
                assert(literal_at(line, q + 1, win_current_prefix()));
            }
        }
    }
    // the root pattern matches one place before each root slash (or at 0)
    assert forall|q: int| #[trigger] matches_at(pattern_root(), line, q) implies (line[q] == '/'
        && q == 0 && root_slash_at(line, 0)) || (line[q] != '/' && root_slash_at(line, q + 1)) by {
        if q == 0 && 0 < line.len() && line[0] == '/' {
        } else {
            assert(line[q] != '/');
        }
    }
    assert forall|s: int| #[trigger] root_slash_at(line, s) implies (s == 0 && matches_at(
        pattern_root(),
        line,
        0,
    )) || (s > 0 && matches_at(pattern_root(), line, s - 1)) by {
    }
    if forall|q: int| !root_slash_at(line, q) {
        assert forall|q: int| !matches_at(pattern_root(), line, q) by {
            if matches_at(pattern_root(), line, q) {
                if line[q] == '/' {
                    assert(root_slash_at(line, 0));
                } else {
                    assert(root_slash_at(line, q + 1));
                }
            }
        }
        lemma_last_match_none(pattern_root(), line);
    }
    assert forall|p: int|
        #[trigger] root_slash_at(line, p) && (forall|q: int| p < q ==> !root_slash_at(line, q))
            implies unix_start(line) is Some && (last_match(pattern_home(), line) is Some
        || last_match(pattern_parent(), line) is Some || last_match(pattern_current(), line) is Some
        || unix_start(line) == Some(p)) by {
        let m = if p == 0 {
            0
        } else {
            p - 1
        };
        assert(matches_at(pattern_root(), line, m));
        assert forall|q: int| m < q implies !matches_at(pattern_root(), line, q) by {
            if matches_at(pattern_root(), line, q) {
                if line[q] == '/' {
                    assert(q == 0);
                } else {
                    assert(root_slash_at(line, q + 1));
                }
            }
        }
        lemma_last_match_is(pattern_root(), line, m);
    }
    if forall|q: int| !drive_at(line, q) {
        assert forall|q: int| !matches_at(pattern_drive(), line, q) by {
            assert(matches_at(pattern_drive(), line, q) == drive_at(line, q));
        }
        lemma_last_match_none(pattern_drive(), line);
    }
    assert forall|p: int|
        #[trigger] drive_at(line, p) && (forall|q: int| p < q ==> !drive_at(line, q)) implies last_match(
        pattern_drive(),
        line,
    ) == Some(p) by {
        assert(matches_at(pattern_drive(), line, p) == drive_at(line, p));
        assert forall|q: int| p < q implies !matches_at(pattern_drive(), line, q) by {
            assert(matches_at(pattern_drive(), line, q) == drive_at(line, q));
        }
        lemma_last_match_is(pattern_drive(), line, p);
    }
    assert forall|s: int|
        0 <= s < line.len() && line[s] == ' ' && (forall|q: int| s < q < line.len() ==> line[q] != ' ')
            implies crate::parser::line::last_index_of(line, ' ') == s by {
        let i = crate::parser::line::last_index_of(line, ' ');
        assert(0 <= i < line.len() && line[i] == ' ' && forall|j: int|
            i < j < line.len() ==> line[j] != ' ');
        if i < s {
        } else if i > s {
        }
    }
}

fn find_unix_start(line: &str, chars: &Vec<char>) -> (r: Option<usize>)
    requires
        chars@ == line@,
    ensures
        match unix_start(line@) {
            Some(p) => r is Some && r->0 == p && 0 <= p <= line@.len(),
            None => r is None,
        },
{
    proof {
        reveal_strlit("~/");
        reveal_strlit("\\.\\./");
        reveal_strlit("\\./");
        assert("~/"@ =~= pattern_home());
        assert("\\.\\./"@ =~= pattern_parent());
        assert("\\./"@ =~= pattern_current());
        reveal_strlit("(?:^|[\\s\"'\\[(])(/)");
        assert("(?:^|[\\s\"'\\[(])(/)"@ =~= pattern_root());
    }
    if let Some(p) = last_match_index("~/", line, chars) {
        return Some(p);
    }
    if let Some(p) = last_match_index("\\.\\./", line, chars) {
        return Some(p);
    }
    if let Some(p) = last_match_index("\\./", line, chars) {
        return Some(p);
    }
    // special case for unix root "/"
    if let Some(p) = last_match_index("(?:^|[\\s\"'\\[(])(/)", line, chars) {
        proof {
            assert(last_match(pattern_root(), line@) is Some);
            assert(last_match(pattern_root(), line@)->0 == p as int);
            lemma_last_match_matches(pattern_root(), line@);
            lemma_root_match(line@, p as int);
        }
        let pos = if chars[p] == '/' {
            p
        } else {
            assert(p + 1 < chars@.len());
            assert(p + 1 < chars.len());
            p + 1
        };
        return Some(pos);
    }
    None
}

fn find_windows_start(line: &str, chars: &Vec<char>) -> (r: Option<usize>)
    requires
        chars@ == line@,
    ensures
        match windows_start(line@) {
            Some(p) => r is Some && r->0 == p && 0 <= p <= line@.len(),
            None => r is None,
        },
{
    proof {
        reveal_strlit("[a-zA-Z]:\\\\");
        reveal_strlit("\\.\\\\");
        reveal_strlit("\\.\\.\\\\");
        assert("[a-zA-Z]:\\\\"@ =~= pattern_drive());
        assert("\\.\\\\"@ =~= pattern_win_current());
        assert("\\.\\.\\\\"@ =~= pattern_win_parent());
    }
    if let Some(p) = last_match_index("[a-zA-Z]:\\\\", line, chars) {
        return Some(p);
    }
    if let Some(p) = last_match_index("\\.\\.\\\\", line, chars) {
        return Some(p);
    }
    last_match_index("\\.\\\\", line, chars)
}

/// Parses a line of text and extracts the path from it.
pub fn parse_line(line: &str) -> (res: String)
    ensures
        res@ == inline_path(line@),
{
    let chars = chars_of(line);
    // 1. parse by beginning: unix first, then windows
    if let Some(p) = find_unix_start(line, &chars) {
        return suffix_from(&chars, p);
    }
    if let Some(p) = find_windows_start(line, &chars) {
        return suffix_from(&chars, p);
    }
    // 2. parse by space
    if let Some(pos) = rfind_char(chars.as_slice(), ' ') {
        let n = chars.len();
        assert(pos < n);
        return suffix_from(&chars, pos + 1);
    }
    string_of(chars.as_slice())
}

/// Separates an incomplete path (prefix) into a complete base directory and a partial name.
pub fn separate_prefix(prefix: &str) -> (res: (String, String))
    ensures
        split_point(prefix@) == -1 ==> res.0@ == seq!['.', '/'] && res.1@ == prefix@,
        split_point(prefix@) >= 0 ==> res.0@ == prefix@.take(split_point(prefix@) + 1)
            && res.1@ == prefix@.skip(split_point(prefix@) + 1),
{
    let owned = string_of(chars_of(prefix).as_slice());
    crate::parser::line::separate_prefix(owned)
}

} // verus!
