//! Path extraction from the text of a single line, scanning from its end.
//!
//! The scanner walks the line from right to left and proposes every suffix
//! that may be the path the user is typing, each with a confidence: slashes
//! raise the confidence, separators such as quotes and spaces lower it.

use vstd::prelude::*;

use crate::parser::unescape::{json_string_unescape, unescape};
use crate::text::{
    byte_len, byte_offset, char_width, chars_eq, chars_of, is_ascii_alpha, is_ascii_alphabetic,
    is_slash, lemma_byte_offset_full, lemma_byte_offset_step, lemma_lex_total,
    lemma_lex_transitive, lex_less, lex_lt, slice_chars, string_of,
};

verus! {

/// Confidence a scan starts with.
pub const INIT_CONFIDENCE: usize = 16;

/// Characters that end the scan.
pub open spec fn is_terminal(c: char) -> bool {
    c == '\0' || c == '\t' || c == '\n' || c == '\r'
}

/// Characters that close a candidate and lower the confidence.
pub open spec fn is_separator(c: char) -> bool {
    ||| c == '\''
    ||| c == '"'
    ||| c == ' '
    ||| c == '['
    ||| c == '('
    ||| c == '<'
    ||| c == '>'
    ||| c == '|'
    ||| c == '?'
    ||| c == '*'
}

/// The candidate made of the first `k` characters of the reversed line,
/// i.e. the last `k` characters of the line.
pub open spec fn rev_candidate(rev: Seq<char>, k: int) -> Seq<char> {
    rev.take(k).reverse()
}

/// A `.` at reversed index `k` starts `./`, `.\`, `../` or `..\`.
pub open spec fn dot_marks_path(rev: Seq<char>, k: int) -> bool {
    ||| (k >= 1 && is_slash(rev[k - 1]) && !(k + 1 < rev.len() && rev[k + 1] == '.'))
    ||| (k >= 2 && is_slash(rev[k - 2]) && rev[k - 1] == '.')
}

/// Candidates that the scan proposes from reversed index `k` on, with
/// confidence `conf`, where `disk` says that a drive separator `:` was just
/// passed.
pub open spec fn scan(rev: Seq<char>, k: nat, conf: nat, disk: bool) -> Seq<(nat, Seq<char>)>
    decreases rev.len() - k,
{
    if k >= rev.len() {
        seq![(conf, rev_candidate(rev, rev.len() as int))]
    } else {
        let c = rev[k as int];
        let cur = k + 1;
        if conf == 0 {
            seq![]
        } else if disk {
            if is_ascii_alpha(c) {
                seq![(conf, rev_candidate(rev, cur as int))]
            } else {
                seq![]
            }
        } else if is_terminal(c) {
            seq![]
        } else if c == ':' {
            scan(rev, cur, conf, cur < rev.len() && is_ascii_alpha(rev[cur as int]))
        } else if is_separator(c) {
            seq![(conf, rev_candidate(rev, k as int))] + scan(rev, cur, (conf - 1) as nat, false)
        } else if is_slash(c) {
            seq![((conf + 1) as nat, rev_candidate(rev, cur as int))] + scan(
                rev,
                cur,
                (conf + 1) as nat,
                false,
            )
        } else if c == '.' && dot_marks_path(rev, k as int) {
            seq![(conf, rev_candidate(rev, cur as int))] + scan(rev, cur, conf, false)
        } else {
            scan(rev, cur, conf, false)
        }
    }
}

/// Candidates that a fresh scan of `line` proposes, in the order found.
pub open spec fn line_candidates(line: Seq<char>) -> Seq<(nat, Seq<char>)> {
    scan(line.reverse(), 0, INIT_CONFIDENCE as nat, false)
}

/// All candidates of `line`: those of the line as written, then those of its
/// JSON-unescaped form where it has one.
pub open spec fn all_candidates(line: Seq<char>) -> Seq<(nat, Seq<char>)> {
    line_candidates(line) + match json_string_unescape(line) {
        Some(u) => line_candidates(u),
        None => Seq::empty(),
    }
}

pub open spec fn pairs_view(v: Seq<(usize, String)>) -> Seq<(nat, Seq<char>)> {
    v.map_values(|p: (usize, String)| (p.0 as nat, p.1@))
}

/// Some candidate of `cands` is the text `s`.
pub open spec fn has_text(cands: Seq<(nat, Seq<char>)>, s: Seq<char>) -> bool {
    exists|j: int| 0 <= j < cands.len() && (#[trigger] cands[j]).1 == s
}

/// Confidence of the first candidate of `cands` whose text is `s`.
pub open spec fn first_conf(cands: Seq<(nat, Seq<char>)>, s: Seq<char>) -> nat
    decreases cands.len(),
{
    if cands.len() == 0 {
        0
    } else if has_text(cands.drop_last(), s) {
        first_conf(cands.drop_last(), s)
    } else {
        cands.last().0
    }
}

/// Ranking of two texts: higher confidence first, then more bytes first,
/// then lexicographic order.
pub open spec fn ranks_before(ca: nat, a: Seq<char>, cb: nat, b: Seq<char>) -> bool {
    ||| ca > cb
    ||| (ca == cb && byte_len(a) > byte_len(b))
    ||| (ca == cb && byte_len(a) == byte_len(b) && lex_lt(a, b))
}

/// `r` lists each distinct text of `cands` once, ranked by the confidence of
/// its first occurrence, then by byte length, then lexicographically.
pub open spec fn ranked_texts(r: Seq<Seq<char>>, cands: Seq<(nat, Seq<char>)>) -> bool {
    &&& forall|s: Seq<char>| r.contains(s) <==> has_text(cands, s)
    &&& forall|i: int, j: int|
        0 <= i < j < r.len() ==> ranks_before(
            first_conf(cands, r[i]),
            r[i],
            first_conf(cands, r[j]),
            r[j],
        )
}

/// Every candidate a scan proposes is made of the last characters of the
/// line.
proof fn lemma_scan_suffixes(rev: Seq<char>, k: nat, conf: nat, disk: bool)
    ensures
        forall|i: int|
            0 <= i < scan(rev, k, conf, disk).len() ==> exists|m: int|
                0 <= m <= rev.len() && #[trigger] scan(rev, k, conf, disk)[i].1 == rev_candidate(
                    rev,
                    m,
                ),
    decreases rev.len() - k,
{
    let sc = scan(rev, k, conf, disk);
    if k >= rev.len() {
        assert(sc[0].1 == rev_candidate(rev, rev.len() as int));
    } else {
        let c = rev[k as int];
        let cur = k + 1;
        if conf == 0 {
        } else if disk {
            if is_ascii_alpha(c) {
                assert(sc[0].1 == rev_candidate(rev, cur as int));
            }
        } else if is_terminal(c) {
        } else if c == ':' {
            let d2 = cur < rev.len() && is_ascii_alpha(rev[cur as int]);
            lemma_scan_suffixes(rev, cur, conf, d2);
            let rest = scan(rev, cur, conf, d2);
            assert(sc == rest);
            assert forall|i: int| 0 <= i < sc.len() implies exists|m: int|
                0 <= m <= rev.len() && #[trigger] sc[i].1 == rev_candidate(rev, m) by {
                assert(sc[i] == rest[i]);
            }
        } else {
            let (head_m, rest_conf) = if is_separator(c) {
                (k as int, (conf - 1) as nat)
            } else if is_slash(c) {
                (cur as int, (conf + 1) as nat)
            } else {
                (cur as int, conf)
            };
            lemma_scan_suffixes(rev, cur, rest_conf, false);
            if is_separator(c) || is_slash(c) || (c == '.' && dot_marks_path(rev, k as int)) {
                let rest = scan(rev, cur, rest_conf, false);
                assert forall|i: int| 0 <= i < sc.len() implies exists|m: int|
                    0 <= m <= rev.len() && #[trigger] sc[i].1 == rev_candidate(rev, m) by {
                    if i == 0 {
                        assert(sc[0].1 == rev_candidate(rev, head_m));
                    } else {
                        assert(sc[i] == rest[i - 1]);
                    }
                }
            } else {
                let rest = scan(rev, cur, conf, false);
                assert(sc == rest);
                assert forall|i: int| 0 <= i < sc.len() implies exists|m: int|
                    0 <= m <= rev.len() && #[trigger] sc[i].1 == rev_candidate(rev, m) by {
                    assert(sc[i] == rest[i]);
                }
            }
        }
    }
}

/// Where none of the first `k` reversed characters is a terminal, every
/// candidate that the scan from `k` on proposes is made of reversed
/// characters none of which is a terminal.
proof fn lemma_scan_no_terminal(rev: Seq<char>, k: nat, conf: nat, disk: bool)
    requires
        forall|t: int| 0 <= t < k && t < rev.len() ==> !is_terminal(#[trigger] rev[t]),
    ensures
        forall|i: int|
            0 <= i < scan(rev, k, conf, disk).len() ==> exists|m: int|
                0 <= m <= rev.len() && (forall|t: int| 0 <= t < m ==> !is_terminal(#[trigger] rev[t]))
                    && #[trigger] scan(rev, k, conf, disk)[i].1 == rev_candidate(rev, m),
    decreases rev.len() - k,
{
    let sc = scan(rev, k, conf, disk);
    if k >= rev.len() {
        assert(sc[0].1 == rev_candidate(rev, rev.len() as int));
    } else {
        let c = rev[k as int];
        let cur = k + 1;
        if conf == 0 {
        } else if disk {
            if is_ascii_alpha(c) {
                assert(sc[0].1 == rev_candidate(rev, cur as int));
            }
        } else if is_terminal(c) {
        } else if c == ':' {
            let d2 = cur < rev.len() && is_ascii_alpha(rev[cur as int]);
            lemma_scan_no_terminal(rev, cur, conf, d2);
            let rest = scan(rev, cur, conf, d2);
            assert(sc == rest);
        } else {
            let rest_conf = if is_separator(c) {
                (conf - 1) as nat
            } else if is_slash(c) {
                (conf + 1) as nat
            } else {
                conf
            };
            if is_separator(c) || is_slash(c) || (c == '.' && dot_marks_path(rev, k as int)) {
                lemma_scan_no_terminal(rev, cur, rest_conf, false);
                let rest = scan(rev, cur, rest_conf, false);
                assert forall|i: int| 0 <= i < sc.len() implies exists|m: int|
                    0 <= m <= rev.len() && (forall|t: int| 0 <= t < m ==> !is_terminal(#[trigger] rev[t]))
                        && #[trigger] sc[i].1 == rev_candidate(rev, m) by {
                    if i == 0 {
                        if is_separator(c) {
                            assert(sc[0].1 == rev_candidate(rev, k as int));
                        } else {
                            assert(sc[0].1 == rev_candidate(rev, cur as int));
                        }
                    } else {
                        assert(sc[i] == rest[i - 1]);
                    }
                }
            } else {
                lemma_scan_no_terminal(rev, cur, conf, false);
                let rest = scan(rev, cur, conf, false);
                assert(sc == rest);
            }
        }
    }
}

/// No candidate of a line holds a terminal character (NUL, tab, line feed,
/// carriage return): the scan stops at the last one, so every candidate (a
/// suffix of the line) lies after the line's last terminal character.
pub proof fn lemma_line_candidates_no_terminal(line: Seq<char>)
    ensures
        forall|i: int, j: int|
            0 <= i < line_candidates(line).len() && 0 <= j < line_candidates(line)[i].1.len()
                ==> !is_terminal(#[trigger] line_candidates(line)[i].1[j]),
        forall|i: int, t: int|
            0 <= i < line_candidates(line).len() && line.len() - line_candidates(line)[i].1.len()
                <= t < line.len() ==> !is_terminal(#[trigger] line_candidates(line)[i].1[t - (line.len()
                - line_candidates(line)[i].1.len())]) && line[t] == line_candidates(line)[i].1[t - (
            line.len() - line_candidates(line)[i].1.len())],
{
    let rev = line.reverse();
    let lc = line_candidates(line);
    lemma_scan_no_terminal(rev, 0, INIT_CONFIDENCE as nat, false);
    lemma_line_candidates_suffixes(line);
    assert forall|i: int, j: int| 0 <= i < lc.len() && 0 <= j < lc[i].1.len() implies !is_terminal(
        #[trigger] lc[i].1[j],
    ) by {
        let m = choose|m: int|
            0 <= m <= rev.len() && (forall|t: int| 0 <= t < m ==> !is_terminal(#[trigger] rev[t]))
                && #[trigger] lc[i].1 == rev_candidate(rev, m);
        assert(lc[i].1[j] == rev[m - 1 - j]);
    }
    assert forall|i: int, t: int|
        0 <= i < lc.len() && line.len() - lc[i].1.len() <= t < line.len() implies !is_terminal(
        #[trigger] lc[i].1[t - (line.len() - lc[i].1.len())],
    ) && line[t] == lc[i].1[t - (line.len() - lc[i].1.len())] by {
        let c = lc[i].1;
        assert(c.is_suffix_of(line));
        assert(line.subrange(line.len() - c.len(), line.len() as int) == c);
        assert(line[t] == line.subrange(line.len() - c.len(), line.len() as int)[t - (line.len() - c.len())]);
    }
}

/// No candidate of a line, or of its unescaped form, holds a terminal
/// character.
pub proof fn lemma_all_candidates_no_terminal(line: Seq<char>)
    ensures
        forall|i: int, j: int|
            0 <= i < all_candidates(line).len() && 0 <= j < all_candidates(line)[i].1.len()
                ==> !is_terminal(#[trigger] all_candidates(line)[i].1[j]),
{
    lemma_line_candidates_no_terminal(line);
    let a = line_candidates(line);
    let b = match json_string_unescape(line) {
        Some(u) => line_candidates(u),
        None => Seq::empty(),
    };
    if let Some(u) = json_string_unescape(line) {
        lemma_line_candidates_no_terminal(u);
    }
    assert(all_candidates(line) == a + b);
    assert forall|i: int, j: int|
        0 <= i < all_candidates(line).len() && 0 <= j < all_candidates(line)[i].1.len()
            implies !is_terminal(#[trigger] all_candidates(line)[i].1[j]) by {
        if i < a.len() {
            assert(all_candidates(line)[i] == a[i]);
        } else {
            assert(all_candidates(line)[i] == b[i - a.len()]);
        }
    }
}

/// Every candidate that a scan proposes from index `k` on has at least `k`
/// and at most all characters, and the candidates never get shorter.
proof fn lemma_scan_lengths(rev: Seq<char>, k: nat, conf: nat, disk: bool)
    ensures
        forall|i: int|
            0 <= i < scan(rev, k, conf, disk).len() ==> (k <= #[trigger] scan(
                rev,
                k,
                conf,
                disk,
            )[i].1.len() || k > rev.len()) && scan(rev, k, conf, disk)[i].1.len() <= rev.len(),
        forall|i: int, j: int|
            0 <= i < j < scan(rev, k, conf, disk).len() ==> (#[trigger] scan(rev, k, conf, disk)[i]).1.len()
                <= (#[trigger] scan(rev, k, conf, disk)[j]).1.len(),
    decreases rev.len() - k,
{
    let sc = scan(rev, k, conf, disk);
    if k >= rev.len() {
        assert(sc[0].1 =~= rev_candidate(rev, rev.len() as int));
    } else {
        let c = rev[k as int];
        let cur = k + 1;
        if conf == 0 {
        } else if disk {
            if is_ascii_alpha(c) {
                assert(sc[0].1.len() == cur);
            }
        } else if is_terminal(c) {
        } else if c == ':' {
            let d2 = cur < rev.len() && is_ascii_alpha(rev[cur as int]);
            lemma_scan_lengths(rev, cur, conf, d2);
            assert(sc == scan(rev, cur, conf, d2));
        } else {
            let rest_conf = if is_separator(c) {
                (conf - 1) as nat
            } else if is_slash(c) {
                (conf + 1) as nat
            } else {
                conf
            };
            lemma_scan_lengths(rev, cur, rest_conf, false);
            if is_separator(c) || is_slash(c) || (c == '.' && dot_marks_path(rev, k as int)) {
                let rest = scan(rev, cur, rest_conf, false);
                let head_m: int = if is_separator(c) {
                    k as int
                } else {
                    cur as int
                };
                assert(sc[0].1.len() == head_m);
                assert forall|i: int| 0 < i < sc.len() implies sc[i] == rest[i - 1] by {}
                assert forall|i: int, j: int|
                    0 <= i < j < sc.len() implies (#[trigger] sc[i]).1.len() <= (
                    #[trigger] sc[j]).1.len() by {
                    if i > 0 {
                        assert(sc[i] == rest[i - 1] && sc[j] == rest[j - 1]);
                    } else {
                        assert(sc[j] == rest[j - 1]);
                    }
                }
            } else {
                assert(sc == scan(rev, cur, conf, false));
            }
        }
    }
}

/// A scan with confidence left, over characters that hold no terminal, and
/// with a drive letter next where a drive separator was just passed,
/// proposes at least one candidate.
proof fn lemma_scan_nonempty(rev: Seq<char>, k: nat, conf: nat, disk: bool)
    requires
        conf > 0,
        forall|i: int| k <= i < rev.len() ==> !is_terminal(#[trigger] rev[i]),
        disk ==> k < rev.len() && is_ascii_alpha(rev[k as int]),
    ensures
        scan(rev, k, conf, disk).len() > 0,
    decreases rev.len() - k,
{
    if k < rev.len() {
        let c = rev[k as int];
        let cur = k + 1;
        if !disk && !is_terminal(c) && c == ':' {
            let d2 = cur < rev.len() && is_ascii_alpha(rev[cur as int]);
            lemma_scan_nonempty(rev, cur, conf, d2);
        } else if !disk && !is_separator(c) && !is_slash(c) && !(c == '.' && dot_marks_path(
            rev,
            k as int,
        )) {
            lemma_scan_nonempty(rev, cur, conf, false);
        }
    }
}

/// Every candidate of a line (what `LineParser::new(line).parse()` returns)
/// is made of its last characters, and the candidates come in order of
/// length, shortest first.
pub proof fn lemma_line_candidates_suffixes(line: Seq<char>)
    ensures
        forall|i: int|
            0 <= i < line_candidates(line).len() ==> (#[trigger] line_candidates(line)[i]).1.is_suffix_of(
                line,
            ),
        forall|i: int, j: int|
            0 <= i < j < line_candidates(line).len() ==> (#[trigger] line_candidates(line)[i]).1.len()
                <= (#[trigger] line_candidates(line)[j]).1.len(),
{
    let rev = line.reverse();
    lemma_scan_suffixes(rev, 0, INIT_CONFIDENCE as nat, false);
    lemma_scan_lengths(rev, 0, INIT_CONFIDENCE as nat, false);
    assert forall|i: int|
        0 <= i < line_candidates(line).len() implies (#[trigger] line_candidates(line)[i]).1.is_suffix_of(
        line,
    ) by {
        let m = choose|m: int|
            0 <= m <= rev.len() && #[trigger] line_candidates(line)[i].1 == rev_candidate(rev, m);
        lemma_rev_candidate_suffix(line, m);
        assert(line.subrange(line.len() - m, line.len() as int) =~= line.skip(line.len() - m));
    }
}

/// A line that ends with a terminal character (NUL, tab, line feed, carriage
/// return) has no candidate (`LineParser::new(line).parse()` is empty); a
/// line that holds none has at least one.
pub proof fn lemma_line_candidates_empty(line: Seq<char>)
    ensures
        line.len() > 0 && is_terminal(line.last()) ==> line_candidates(line).len() == 0,
        (forall|i: int| 0 <= i < line.len() ==> !is_terminal(#[trigger] line[i])) ==> line_candidates(
            line,
        ).len() > 0,
{
    let rev = line.reverse();
    if line.len() > 0 && is_terminal(line.last()) {
        assert(rev[0] == line.last());
    }
    if forall|i: int| 0 <= i < line.len() ==> !is_terminal(#[trigger] line[i]) {
        assert forall|i: int| 0 <= i < rev.len() implies !is_terminal(#[trigger] rev[i]) by {
            assert(rev[i] == line[line.len() - 1 - i]);
        }
        lemma_scan_nonempty(rev, 0, INIT_CONFIDENCE as nat, false);
    }
}

/// The last `m` characters of a line, read from its reversal.
proof fn lemma_rev_candidate_suffix(line: Seq<char>, m: int)
    requires
        0 <= m <= line.len(),
    ensures
        rev_candidate(line.reverse(), m) == line.subrange(line.len() - m, line.len() as int),
{
    assert(rev_candidate(line.reverse(), m) =~= line.subrange(line.len() - m, line.len() as int));
}

/// Every text that `parse_line` proposes ends where the line ends: it is a
/// suffix of the line, or of its JSON-unescaped form.
pub proof fn lemma_parse_line_suffixes(line: Seq<char>, r: Seq<Seq<char>>)
    requires
        ranked_texts(r, all_candidates(line)),
    ensures
        forall|i: int|
            0 <= i < r.len() ==> (#[trigger] r[i]).is_suffix_of(line) || (json_string_unescape(
                line,
            ) matches Some(u) && r[i].is_suffix_of(u)),
{
    lemma_scan_suffixes(line.reverse(), 0, INIT_CONFIDENCE as nat, false);
    if let Some(u) = json_string_unescape(line) {
        lemma_scan_suffixes(u.reverse(), 0, INIT_CONFIDENCE as nat, false);
    }
    assert forall|i: int| 0 <= i < r.len() implies (#[trigger] r[i]).is_suffix_of(line) || (
    json_string_unescape(line) matches Some(u) && r[i].is_suffix_of(u)) by {
        assert(r.contains(r[i]));
        let cands = all_candidates(line);
        let j = choose|j: int| 0 <= j < cands.len() && (#[trigger] cands[j]).1 == r[i];
        let own = line_candidates(line);
        if j < own.len() {
            assert(cands[j] == own[j]);
            let m = choose|m: int|
                0 <= m <= line.reverse().len() && #[trigger] own[j].1 == rev_candidate(
                    line.reverse(),
                    m,
                );
            lemma_rev_candidate_suffix(line, m);
        } else {
            let u = json_string_unescape(line)->0;
            let other = line_candidates(u);
            assert(cands[j] == other[j - own.len()]);
            let m = choose|m: int|
                0 <= m <= u.reverse().len() && #[trigger] other[j - own.len()].1 == rev_candidate(
                    u.reverse(),
                    m,
                );
            lemma_rev_candidate_suffix(u, m);
        }
    }
}

/// A ranked list names each text once.
pub proof fn lemma_ranked_texts_distinct(r: Seq<Seq<char>>, cands: Seq<(nat, Seq<char>)>)
    requires
        ranked_texts(r, cands),
    ensures
        forall|i: int, j: int| 0 <= i < j < r.len() ==> r[i] != r[j],
{
    assert forall|i: int, j: int| 0 <= i < j < r.len() implies r[i] != r[j] by {
        assert(ranks_before(first_conf(cands, r[i]), r[i], first_conf(cands, r[j]), r[j]));
        if r[i] == r[j] {
            crate::text::lemma_lex_irreflexive(r[i]);
        }
    }
}

/// Parses a line of text and extracts the path from it.
/// Returns a series of candidates, from high priority to low priority.
pub fn parse_line(line: &str) -> (res: Vec<String>)
    requires
        line@.len() + INIT_CONFIDENCE <= usize::MAX,
    ensures
        ranked_texts(res@.map_values(|s: String| s@), all_candidates(line@)),
        forall|i: int, j: int|
            0 <= i < res@.len() && 0 <= j < res@[i]@.len() ==> !is_terminal(#[trigger] res@[i]@[j]),
{
    let mut without_escape_parser = LineParser::new(line);
    let without_escape = without_escape_parser.parse();
    let with_escape = if let Some(unescaped) = unescape(line) {
        let mut p = LineParser::new(&unescaped);
        p.parse()
    } else {
        Vec::new()
    };
    let ghost all = all_candidates(line@);
    let mut joined: Vec<(usize, Vec<char>)> = Vec::new();
    let mut i: usize = 0;
    while i < without_escape.len()
        invariant
            i <= without_escape@.len(),
            joined@.len() == i,
            forall|j: int|
                0 <= j < i ==> (#[trigger] joined@[j]).0 as nat == pairs_view(
                    without_escape@,
                )[j].0 && joined@[j].1@ == pairs_view(without_escape@)[j].1,
        decreases without_escape@.len() - i,
    {
        let (c, s) = &without_escape[i];
        joined.push((*c, chars_of(s.as_str())));
        i = i + 1;
    }
    let mut i: usize = 0;
    while i < with_escape.len()
        invariant
            i <= with_escape@.len(),
            joined@.len() == without_escape@.len() + i,
            forall|j: int|
                0 <= j < without_escape@.len() ==> (#[trigger] joined@[j]).0 as nat
                    == pairs_view(without_escape@)[j].0 && joined@[j].1@ == pairs_view(
                    without_escape@,
                )[j].1,
            forall|j: int|
                0 <= j < i ==> (#[trigger] joined@[without_escape@.len() + j]).0 as nat
                    == pairs_view(with_escape@)[j].0 && joined@[without_escape@.len()
                    + j].1@ == pairs_view(with_escape@)[j].1,
        decreases with_escape@.len() - i,
    {
        let (c, s) = &with_escape[i];
        joined.push((*c, chars_of(s.as_str())));
        i = i + 1;
    }
    let ghost jv = joined@.map_values(|p: (usize, Vec<char>)| (p.0 as nat, p.1@));
    proof {
        let a = pairs_view(without_escape@);
        let b = pairs_view(with_escape@);
        assert forall|j: int| 0 <= j < jv.len() implies jv[j] == (a + b)[j] by {
            if j < a.len() {
                assert(joined@[j].0 as nat == a[j].0);
            } else {
                let q = j - a.len();
                assert(joined@[a.len() + q].0 as nat == b[q].0);
            }
        }
        assert(jv =~= a + b);
    }
    assert(jv =~= all);
    let ranked = rank_candidates(&joined);
    let mut res: Vec<String> = Vec::new();
    let mut k: usize = 0;
    while k < ranked.len()
        invariant
            k <= ranked@.len(),
            res@.len() == k,
            forall|j: int| 0 <= j < k ==> (#[trigger] res@[j])@ == ranked@[j]@,
        decreases ranked@.len() - k,
    {
        res.push(string_of(ranked[k].as_slice()));
        k = k + 1;
    }
    proof {
        let rv = res@.map_values(|s: String| s@);
        let kv = ranked@.map_values(|v: Vec<char>| v@);
        assert(rv =~= kv);
        lemma_all_candidates_no_terminal(line@);
        assert forall|i: int, j: int| 0 <= i < res@.len() && 0 <= j < res@[i]@.len() implies !is_terminal(
            #[trigger] res@[i]@[j],
        ) by {
            assert(rv[i] == res@[i]@);
            assert(rv.contains(res@[i]@));
            assert(has_text(all, res@[i]@));
            let q = choose|q: int| 0 <= q < all.len() && (#[trigger] all[q]).1 == res@[i]@;
        }
    }
    res
}

/// One of the first `n` entries of `v` has the text `t`.
spec fn holds_text(v: Seq<(usize, Vec<char>)>, n: int, t: Seq<char>) -> bool {
    exists|j: int| 0 <= j < n && (#[trigger] v[j]).1@ == t
}

proof fn lemma_first_conf_prefix(cands: Seq<(nat, Seq<char>)>, i: int, s: Seq<char>)
    requires
        0 <= i <= cands.len(),
        has_text(cands.take(i), s),
    ensures
        first_conf(cands.take(i), s) == first_conf(cands, s),
    decreases cands.len() - i,
{
    if i < cands.len() {
        lemma_first_conf_prefix(cands, i + 1, s);
        assert(cands.take(i + 1).drop_last() =~= cands.take(i));
    } else {
        assert(cands.take(i) =~= cands);
    }
}

proof fn lemma_has_text_prefix(cands: Seq<(nat, Seq<char>)>, i: int, s: Seq<char>)
    requires
        0 <= i < cands.len(),
    ensures
        has_text(cands.take(i + 1), s) <==> (has_text(cands.take(i), s) || cands[i].1 == s),
{
    let a = cands.take(i + 1);
    let b = cands.take(i);
    if has_text(a, s) {
        let j = choose|j: int| 0 <= j < a.len() && (#[trigger] a[j]).1 == s;
        if j < i {
            assert(b[j] == a[j]);
        }
    }
    if has_text(b, s) {
        let j = choose|j: int| 0 <= j < b.len() && (#[trigger] b[j]).1 == s;
        assert(a[j] == b[j]);
    }
    if cands[i].1 == s {
        assert(a[i] == cands[i]);
    }
}

/// Sorts the deduplicated candidates by rank (highest first) and returns their texts.
fn rank_candidates(cands: &Vec<(usize, Vec<char>)>) -> (res: Vec<Vec<char>>)
    ensures
        ranked_texts(
            res@.map_values(|v: Vec<char>| v@),
            cands@.map_values(|p: (usize, Vec<char>)| (p.0 as nat, p.1@)),
        ),
{
    let ghost cv = cands@.map_values(|p: (usize, Vec<char>)| (p.0 as nat, p.1@));
    // keep the first occurrence of each text, in order
    let mut firsts: Vec<(usize, Vec<char>)> = Vec::new();
    let mut i: usize = 0;
    while i < cands.len()
        invariant
            i <= cands@.len(),
            cv == cands@.map_values(|p: (usize, Vec<char>)| (p.0 as nat, p.1@)),
            forall|s: Seq<char>|
                has_text(cv.take(i as int), s) <==> #[trigger] holds_text(
                    firsts@,
                    firsts@.len() as int,
                    s,
                ),
            forall|j: int|
                0 <= j < firsts@.len() ==> (#[trigger] firsts@[j]).0 as nat == first_conf(
                    cv.take(i as int),
                    firsts@[j].1@,
                ) && has_text(cv.take(i as int), firsts@[j].1@),
            forall|a: int, b: int|
                0 <= a < b < firsts@.len() ==> firsts@[a].1@ != firsts@[b].1@,
        decreases cands@.len() - i,
    {
        let (c, s) = &cands[i];
        let mut seen = false;
        let mut k: usize = 0;
        while k < firsts.len()
            invariant
                k <= firsts@.len(),
                seen <==> exists|j: int| 0 <= j < k && (#[trigger] firsts@[j]).1@ == s@,
            decreases firsts@.len() - k,
        {
            if chars_eq(firsts[k].1.as_slice(), s.as_slice()) {
                seen = true;
            }
            k = k + 1;
        }
        let ghost old_firsts = firsts@;
        proof {
            assert(cv[i as int] == (*c as nat, s@));
            assert forall|t: Seq<char>|
                #[trigger] has_text(cv.take(i as int + 1), t) <==> has_text(cv.take(i as int), t)
                    || cv[i as int].1 == t by {
                lemma_has_text_prefix(cv, i as int, t);
            }
            assert(cv.take(i as int + 1).drop_last() =~= cv.take(i as int));
            assert(cv.take(i as int + 1).last() == cv[i as int]);
        }
        if !seen {
            firsts.push((*c, slice_chars(s.as_slice(), 0, s.len())));
            proof {
                assert(s@.subrange(0, s@.len() as int) =~= s@);
            }
        }
        proof {
            let ni = i as int + 1;
            assert forall|t: Seq<char>|
                has_text(cv.take(ni), t) <==> #[trigger] holds_text(
                    firsts@,
                    firsts@.len() as int,
                    t,
                ) by {
                if holds_text(firsts@, firsts@.len() as int, t) {
                    let j = choose|j: int| 0 <= j < firsts@.len() && (#[trigger] firsts@[j]).1@ == t;
                    if j < old_firsts.len() {
                        assert(old_firsts[j] == firsts@[j]);
                        assert(holds_text(old_firsts, old_firsts.len() as int, t));
                    }
                }
                if holds_text(old_firsts, old_firsts.len() as int, t) {
                    let j = choose|j: int|
                        0 <= j < old_firsts.len() && (#[trigger] old_firsts[j]).1@ == t;
                    assert(firsts@[j] == old_firsts[j]);
                }
                if t == s@ && !seen {
                    assert(firsts@[old_firsts.len() as int].1@ == t);
                }
                if t == s@ && seen {
                    let j = choose|j: int| 0 <= j < old_firsts.len() && (#[trigger] old_firsts[j]).1@ == s@;
                    assert(holds_text(old_firsts, old_firsts.len() as int, t));
                }
            }
            assert forall|j: int| 0 <= j < firsts@.len() implies (#[trigger] firsts@[j]).0 as nat
                == first_conf(cv.take(ni), firsts@[j].1@) && has_text(
                cv.take(ni),
                firsts@[j].1@,
            ) by {
                if j < old_firsts.len() {
                    assert(old_firsts[j] == firsts@[j]);
                } else {
                    assert(!has_text(cv.take(i as int), s@)) by {
                        if has_text(cv.take(i as int), s@) {
                            assert(holds_text(old_firsts, old_firsts.len() as int, s@));
                        }
                    }
                }
            }
            assert forall|a: int, b: int|
                0 <= a < b < firsts@.len() implies firsts@[a].1@ != firsts@[b].1@ by {
                if b >= old_firsts.len() {
                    assert(old_firsts[a] == firsts@[a]);
                    if old_firsts[a].1@ == s@ {
                        assert(exists|j: int| 0 <= j < old_firsts.len() && (#[trigger] old_firsts[j]).1@ == s@);
                    }
                } else {
                    assert(old_firsts[a] == firsts@[a]);
                    assert(old_firsts[b] == firsts@[b]);
                }
            }
        }
        i = i + 1;
    }
    assert(cv.take(cands@.len() as int) =~= cv);
    // insertion sort by rank
    let mut sorted: Vec<(usize, Vec<char>)> = Vec::new();
    let mut i: usize = 0;
    while i < firsts.len()
        invariant
            i <= firsts@.len(),
            forall|j: int|
                0 <= j < firsts@.len() ==> (#[trigger] firsts@[j]).0 as nat == first_conf(
                    cv,
                    firsts@[j].1@,
                ),
            forall|a: int, b: int|
                0 <= a < b < firsts@.len() ==> firsts@[a].1@ != firsts@[b].1@,
            forall|s: Seq<char>|
                has_text(cv, s) <==> #[trigger] holds_text(firsts@, firsts@.len() as int, s),
            forall|j: int|
                0 <= j < sorted@.len() ==> (#[trigger] sorted@[j]).0 as nat == first_conf(
                    cv,
                    sorted@[j].1@,
                ),
            forall|s: Seq<char>|
                #[trigger] holds_text(sorted@, sorted@.len() as int, s) <==> holds_text(
                    firsts@,
                    i as int,
                    s,
                ),
            forall|a: int, b: int|
                0 <= a < b < sorted@.len() ==> ranks_before(
                    sorted@[a].0 as nat,
                    sorted@[a].1@,
                    sorted@[b].0 as nat,
                    sorted@[b].1@,
                ),
        decreases firsts@.len() - i,
    {
        let (c, s) = &firsts[i];
        proof {
            assert forall|j: int| 0 <= j < sorted@.len() implies (#[trigger] sorted@[j]).1@ != s@ by {
                if sorted@[j].1@ == s@ {
                    assert(holds_text(sorted@, sorted@.len() as int, s@));
                    assert(holds_text(firsts@, i as int, s@));
                    let q = choose|q: int| 0 <= q < i && (#[trigger] firsts@[q]).1@ == s@;
                    assert(firsts@[q].1@ != firsts@[i as int].1@);
                }
            }
        }
        // position: after every entry that ranks before the new one
        let mut pos: usize = 0;
        while pos < sorted.len() && !rank_less(*c, s.as_slice(), sorted[pos].0, sorted[pos].1.as_slice())
            invariant
                pos <= sorted@.len(),
                forall|j: int|
                    0 <= j < pos ==> ranks_before(
                        (#[trigger] sorted@[j]).0 as nat,
                        sorted@[j].1@,
                        *c as nat,
                        s@,
                    ),
                forall|a: int, b: int|
                    0 <= a < b < sorted@.len() ==> ranks_before(
                        sorted@[a].0 as nat,
                        sorted@[a].1@,
                        sorted@[b].0 as nat,
                        sorted@[b].1@,
                    ),
                forall|j: int| 0 <= j < sorted@.len() ==> (#[trigger] sorted@[j]).1@ != s@,
            decreases sorted@.len() - pos,
        {
            proof {
                lemma_rank_total(sorted@[pos as int].0 as nat, sorted@[pos as int].1@, *c as nat, s@);
            }
            pos = pos + 1;
        }
        proof {
            assert forall|j: int| pos <= j < sorted@.len() implies ranks_before(
                *c as nat,
                s@,
                (#[trigger] sorted@[j]).0 as nat,
                sorted@[j].1@,
            ) by {
                if j > pos {
                    lemma_rank_transitive(
                        *c as nat,
                        s@,
                        sorted@[pos as int].0 as nat,
                        sorted@[pos as int].1@,
                        sorted@[j].0 as nat,
                        sorted@[j].1@,
                    );
                }
            }
        }
        let ghost old_sorted = sorted@;
        sorted.insert(pos, (*c, slice_chars(s.as_slice(), 0, s.len())));
        assert(s@.subrange(0, s@.len() as int) =~= s@);
        proof {
            assert forall|a: int, b: int| 0 <= a < b < sorted@.len() implies ranks_before(
                sorted@[a].0 as nat,
                sorted@[a].1@,
                sorted@[b].0 as nat,
                sorted@[b].1@,
            ) by {
                if a < pos && b == pos {
                    assert(sorted@[a] == old_sorted[a]);
                } else if a == pos && b > pos {
                    assert(sorted@[b] == old_sorted[b - 1]);
                } else if b < pos {
                    assert(sorted@[a] == old_sorted[a]);
                    assert(sorted@[b] == old_sorted[b]);
                } else if a < pos && b > pos {
                    assert(sorted@[a] == old_sorted[a]);
                    assert(sorted@[b] == old_sorted[b - 1]);
                } else {
                    assert(sorted@[a] == old_sorted[a - 1]);
                    assert(sorted@[b] == old_sorted[b - 1]);
                }
            }
            assert forall|j: int| 0 <= j < sorted@.len() implies (#[trigger] sorted@[j]).0 as nat
                == first_conf(cv, sorted@[j].1@) by {
                if j < pos {
                    assert(sorted@[j] == old_sorted[j]);
                } else if j > pos {
                    assert(sorted@[j] == old_sorted[j - 1]);
                }
            }
            assert forall|t: Seq<char>|
                #[trigger] holds_text(sorted@, sorted@.len() as int, t) <==> holds_text(
                    firsts@,
                    i + 1,
                    t,
                ) by {
                if holds_text(sorted@, sorted@.len() as int, t) {
                    let j = choose|j: int| 0 <= j < sorted@.len() && (#[trigger] sorted@[j]).1@ == t;
                    if j < pos {
                        assert(sorted@[j] == old_sorted[j]);
                        assert(holds_text(old_sorted, old_sorted.len() as int, t));
                        assert(holds_text(firsts@, i as int, t));
                        let q = choose|q: int| 0 <= q < i && (#[trigger] firsts@[q]).1@ == t;
                        assert(firsts@[q].1@ == t);
                    } else if j > pos {
                        assert(sorted@[j] == old_sorted[j - 1]);
                        assert(holds_text(old_sorted, old_sorted.len() as int, t));
                        assert(holds_text(firsts@, i as int, t));
                        let q = choose|q: int| 0 <= q < i && (#[trigger] firsts@[q]).1@ == t;
                        assert(firsts@[q].1@ == t);
                    } else {
                        assert(firsts@[i as int].1@ == t);
                    }
                }
                if holds_text(firsts@, i + 1, t) {
                    let j = choose|j: int| 0 <= j < i + 1 && (#[trigger] firsts@[j]).1@ == t;
                    if j < i {
                        assert(holds_text(firsts@, i as int, t));
                        assert(holds_text(old_sorted, old_sorted.len() as int, t));
                        let q = choose|q: int|
                            0 <= q < old_sorted.len() && (#[trigger] old_sorted[q]).1@ == t;
                        if q < pos {
                            assert(sorted@[q] == old_sorted[q]);
                        } else {
                            assert(sorted@[q + 1] == old_sorted[q]);
                        }
                    } else {
                        assert(sorted@[pos as int].1@ == t);
                    }
                }
            }
        }
        i = i + 1;
    }
    let mut res: Vec<Vec<char>> = Vec::new();
    let mut k: usize = 0;
    while k < sorted.len()
        invariant
            k <= sorted@.len(),
            res@.len() == k,
            forall|j: int| 0 <= j < k ==> (#[trigger] res@[j])@ == sorted@[j].1@,
        decreases sorted@.len() - k,
    {
        res.push(sorted[k].1.clone());
        k = k + 1;
    }
    proof {
        let rv = res@.map_values(|v: Vec<char>| v@);
        assert forall|t: Seq<char>| rv.contains(t) <==> has_text(cv, t) by {
            if rv.contains(t) {
                let j = choose|j: int| 0 <= j < rv.len() && rv[j] == t;
                assert(sorted@[j].1@ == t);
                assert(holds_text(sorted@, sorted@.len() as int, t));
                assert(holds_text(firsts@, firsts@.len() as int, t));
            }
            if has_text(cv, t) {
                assert(holds_text(firsts@, firsts@.len() as int, t));
                assert(holds_text(sorted@, sorted@.len() as int, t));
                let q = choose|q: int| 0 <= q < sorted@.len() && (#[trigger] sorted@[q]).1@ == t;
                assert(rv[q] == res@[q]@);
            }
        }
    }
    res
}

proof fn lemma_rank_total(ca: nat, a: Seq<char>, cb: nat, b: Seq<char>)
    requires
        a != b,
    ensures
        ranks_before(ca, a, cb, b) || ranks_before(cb, b, ca, a),
{
    lemma_lex_total(a, b);
}

proof fn lemma_rank_transitive(
    ca: nat,
    a: Seq<char>,
    cb: nat,
    b: Seq<char>,
    cc: nat,
    c: Seq<char>,
)
    requires
        ranks_before(ca, a, cb, b),
        ranks_before(cb, b, cc, c),
    ensures
        ranks_before(ca, a, cc, c),
{
    if ca == cb && cb == cc && byte_len(a) == byte_len(b) && byte_len(b) == byte_len(c) {
        lemma_lex_transitive(a, b, c);
    }
}

/// `(ca, a)` ranks strictly before `(cb, b)`.
fn rank_less(ca: usize, a: &[char], cb: usize, b: &[char]) -> (r: bool)
    ensures
        r == ranks_before(ca as nat, a@, cb as nat, b@),
{
    if ca != cb {
        return ca > cb;
    }
    // byte lengths, compared without overflow by summing widths in step
    let la = byte_len_u128(a);
    let lb = byte_len_u128(b);
    if la != lb {
        return la > lb;
    }
    lex_less(a, b)
}

/// Byte length of a character sequence, in a type wide enough for any slice.
fn byte_len_u128(v: &[char]) -> (n: u128)
    ensures
        n == byte_len(v@),
{
    let mut n: u128 = 0;
    let mut i: usize = 0;
    while i < v.len()
        invariant
            i <= v@.len(),
            n == byte_offset(v@, i as int),
            n <= 4 * i,
        decreases v@.len() - i,
    {
        proof {
            lemma_byte_offset_step(v@, i as int);
        }
        n = n + char_width(v[i]) as u128;
        i = i + 1;
    }
    proof {
        lemma_byte_offset_full(v@);
    }
    n
}

/// Right-to-left scanner over the characters of one line.
pub struct LineParser {
    rev_content: Vec<char>,
    cursor: usize,
    confidence: usize,
    in_disk_identifier: bool,
}

impl LineParser {
    /// The scanner's state is consistent and its confidence cannot overflow.
    pub closed spec fn wf(&self) -> bool {
        &&& self.cursor <= self.rev_content@.len()
        &&& self.confidence <= INIT_CONFIDENCE + self.cursor
        &&& self.rev_content@.len() + INIT_CONFIDENCE <= usize::MAX
    }

    /// Candidates that the rest of the scan will propose.
    pub closed spec fn pending(&self) -> Seq<(nat, Seq<char>)> {
        scan(
            self.rev_content@,
            self.cursor as nat,
            self.confidence as nat,
            self.in_disk_identifier,
        )
    }

    pub fn new(line: &str) -> (p: LineParser)
        requires
            line@.len() + INIT_CONFIDENCE <= usize::MAX,
        ensures
            p.wf(),
            p.pending() == line_candidates(line@),
    {
        let chars = chars_of(line);
        let mut rev_content: Vec<char> = Vec::new();
        let mut i = chars.len();
        while i > 0
            invariant
                i <= chars@.len(),
                chars@ == line@,
                rev_content@ == chars@.subrange(i as int, chars@.len() as int).reverse(),
            decreases i,
        {
            i = i - 1;
            rev_content.push(chars[i]);
            assert(rev_content@ =~= chars@.subrange(i as int, chars@.len() as int).reverse());
        }
        assert(chars@.subrange(0, chars@.len() as int) =~= chars@);
        LineParser {
            rev_content,
            cursor: 0,
            confidence: INIT_CONFIDENCE,
            in_disk_identifier: false,
        }
    }

    fn peek(&self) -> (r: Option<char>)
        ensures
            r == if self.cursor < self.rev_content@.len() {
                Some(self.rev_content@[self.cursor as int])
            } else {
                None::<char>
            },
    {
        if self.cursor < self.rev_content.len() {
            Some(self.rev_content[self.cursor])
        } else {
            None
        }
    }

    fn peek_prev(&self) -> (r: Option<char>)
        requires
            self.cursor <= self.rev_content@.len(),
        ensures
            r == if self.cursor >= 2 {
                Some(self.rev_content@[self.cursor - 2])
            } else {
                None::<char>
            },
    {
        if self.cursor < 2 {
            None
        } else {
            Some(self.rev_content[self.cursor - 2])
        }
    }

    fn peek_prev_prev(&self) -> (r: Option<char>)
        requires
            self.cursor <= self.rev_content@.len(),
        ensures
            r == if self.cursor >= 3 {
                Some(self.rev_content@[self.cursor - 3])
            } else {
                None::<char>
            },
    {
        if self.cursor < 3 {
            None
        } else {
            Some(self.rev_content[self.cursor - 3])
        }
    }

    fn next(&mut self) -> (r: Option<char>)
        requires
            old(self).cursor <= old(self).rev_content@.len(),
        ensures
            final(self).rev_content == old(self).rev_content,
            final(self).confidence == old(self).confidence,
            final(self).in_disk_identifier == old(self).in_disk_identifier,
            old(self).cursor < old(self).rev_content@.len() ==> r == Some(
                old(self).rev_content@[old(self).cursor as int],
            ) && final(self).cursor == old(self).cursor + 1,
            old(self).cursor >= old(self).rev_content@.len() ==> r is None && final(self).cursor
                == old(self).cursor,
    {
        if self.cursor < self.rev_content.len() {
            let c = self.rev_content[self.cursor];
            self.cursor = self.cursor + 1;
            Some(c)
        } else {
            None
        }
    }

    fn construct_candidate(&self, end: usize) -> (s: String)
        requires
            end <= self.rev_content@.len(),
        ensures
            s@ == rev_candidate(self.rev_content@, end as int),
    {
        let mut v: Vec<char> = Vec::new();
        let mut i = end;
        while i > 0
            invariant
                i <= end,
                end <= self.rev_content@.len(),
                v@ == self.rev_content@.subrange(i as int, end as int).reverse(),
            decreases i,
        {
            i = i - 1;
            v.push(self.rev_content[i]);
            assert(v@ =~= self.rev_content@.subrange(i as int, end as int).reverse());
        }
        assert(self.rev_content@.subrange(0, end as int) =~= self.rev_content@.take(end as int));
        string_of(v.as_slice())
    }

    /// Runs the scan to its end and returns the proposed candidates with
    /// their confidences, in the order found.
    pub fn parse(&mut self) -> (candidates: Vec<(usize, String)>)
        requires
            old(self).wf(),
        ensures
            pairs_view(candidates@) == old(self).pending(),
    {
        let ghost total = self.pending();
        let mut candidates: Vec<(usize, String)> = Vec::new();
        let mut break_ = false;
        assert(pairs_view(candidates@) =~= Seq::<(nat, Seq<char>)>::empty());
        loop
            invariant_except_break
                self.wf(),
                !break_,
                pairs_view(candidates@) + self.pending() == total,
            ensures
                break_ ==> pairs_view(candidates@) == total,
                !break_ ==> self.wf() && self.cursor == self.rev_content@.len()
                    && pairs_view(candidates@) + self.pending() == total,
            decreases self.rev_content@.len() - self.cursor,
        {
            let ghost k = self.cursor;
            let ghost conf = self.confidence;
            let next = self.next();
            let c = match next {
                Some(c) => c,
                None => {
                    break ;
                },
            };
            let ghost rest = self.pending();
            if self.confidence == 0 {
                break_ = true;
                assert(pairs_view(candidates@) =~= total);
                break ;
            }
            if self.in_disk_identifier {
                if is_ascii_alphabetic(c) {
                    let cand = self.construct_candidate(self.cursor);
                    candidates.push((self.confidence, cand));
                }
                break_ = true;
                assert(pairs_view(candidates@) =~= total);
                break ;
            }
            if c == '\0' || c == '\t' || c == '\n' || c == '\r' {
                break_ = true;
                assert(pairs_view(candidates@) =~= total);
                break ;
            } else if c == ':' {
                let p = self.peek();
                let alpha_next = match p {
                    Some(next_c) => is_ascii_alphabetic(next_c),
                    None => false,
                };
                if !alpha_next {
                    continue ;
                } else if self.in_disk_identifier {
                    break_ = true;
                    break ;
                } else {
                    self.in_disk_identifier = true;
                }
            } else if c == '\'' || c == '"' || c == ' ' || c == '[' || c == '(' || c == '<' || c
                == '>' || c == '|' || c == '?' || c == '*' {
                let cand = self.construct_candidate(self.cursor - 1);
                let ghost before = pairs_view(candidates@);
                candidates.push((self.confidence, cand));
                assert(pairs_view(candidates@) =~= before.push((conf as nat, cand@)));
                self.confidence = self.confidence - 1;
            } else if c == '/' || c == '\\' {
                self.confidence = self.confidence + 1;
                let cand = self.construct_candidate(self.cursor);
                let ghost before = pairs_view(candidates@);
                candidates.push((self.confidence, cand));
                assert(pairs_view(candidates@) =~= before.push(((conf + 1) as nat, cand@)));
            } else if c == '.' {
                let prev = self.peek_prev();
                let nxt = self.peek();
                let prev_prev = self.peek_prev_prev();
                let prev_is_slash = match prev {
                    Some(p) => p == '/' || p == '\\',
                    None => false,
                };
                let next_is_dot = match nxt {
                    Some(n) => n == '.',
                    None => false,
                };
                let prev_is_dot = match prev {
                    Some(p) => p == '.',
                    None => false,
                };
                let prev_prev_is_slash = match prev_prev {
                    Some(p) => p == '/' || p == '\\',
                    None => false,
                };
                if prev_is_slash && !next_is_dot {
                    let cand = self.construct_candidate(self.cursor);
                    let ghost before = pairs_view(candidates@);
                    candidates.push((self.confidence, cand));
                    assert(pairs_view(candidates@) =~= before.push((conf as nat, cand@)));
                } else if prev_prev_is_slash && prev_is_dot {
                    let cand = self.construct_candidate(self.cursor);
                    let ghost before = pairs_view(candidates@);
                    candidates.push((self.confidence, cand));
                    assert(pairs_view(candidates@) =~= before.push((conf as nat, cand@)));
                }
            } else {
                continue ;
            }
        }
        if !break_ {
            let cand = self.construct_candidate(self.cursor);
            let ghost before = pairs_view(candidates@);
            candidates.push((self.confidence, cand));
            assert(pairs_view(candidates@) =~= before.push((self.confidence as nat, cand@)));
        }
        candidates
    }
}

/// Separates an incomplete path (prefix) into a complete base directory and a partial name.
pub fn separate_prefix(prefix: String) -> (res: (String, String))
    ensures
        split_point(prefix@) == -1 ==> res.0@ == seq!['.', '/'] && res.1@ == prefix@,
        split_point(prefix@) >= 0 ==> res.0@ == prefix@.take(split_point(prefix@) + 1)
            && res.1@ == prefix@.skip(split_point(prefix@) + 1),
{
    let chars = chars_of(prefix.as_str());
    let last_slash = last_separator(chars.as_slice());
    if let Some(pos) = last_slash {
        assert(pos < chars.len());
        let split_pos = pos + 1;
        let partial_name = string_of(slice_chars(chars.as_slice(), split_pos, chars.len()).as_slice());
        let base = string_of(slice_chars(chars.as_slice(), 0, split_pos).as_slice());
        proof {
            assert(prefix@.take(split_pos as int) + prefix@.skip(split_pos as int) =~= prefix@);
        }
        (base, partial_name)
    } else if chars.len() == 0 {
        proof {
            assert(prefix@ =~= Seq::<char>::empty());
        }
        (dot_slash(), String::new())
    } else {
        (dot_slash(), prefix)
    }
}

/// The text `./`.
fn dot_slash() -> (s: String)
    ensures
        s@ == seq!['.', '/'],
{
    let v = vec!['.', '/'];
    let s = string_of(v.as_slice());
    assert(v@ =~= seq!['.', '/']);
    s
}

/// `rfind('/')`, or where there is none, `rfind('\\')`.
fn last_separator(v: &[char]) -> (r: Option<usize>)
    ensures
        match r {
            Some(i) => i < v@.len() && i == split_point(v@),
            None => split_point(v@) == -1,
        },
{
    match rfind_char(v, '/') {
        Some(i) => Some(i),
        None => rfind_char(v, '\\'),
    }
}

/// Index of the last `/` in `s`, or where there is none, of the last `\`;
/// -1 where there is neither.
pub open spec fn split_point(s: Seq<char>) -> int {
    if exists|i: int| 0 <= i < s.len() && s[i] == '/' {
        last_index_of(s, '/')
    } else if exists|i: int| 0 <= i < s.len() && s[i] == '\\' {
        last_index_of(s, '\\')
    } else {
        -1
    }
}

/// Index of the last occurrence of `c` in `s` (meaningful where there is one).
pub open spec fn last_index_of(s: Seq<char>, c: char) -> int {
    choose|i: int| 0 <= i < s.len() && s[i] == c && forall|j: int| i < j < s.len() ==> s[j] != c
}

/// Last index of `c` in `v`.
pub fn rfind_char(v: &[char], c: char) -> (r: Option<usize>)
    ensures
        match r {
            Some(i) => i < v@.len() && v@[i as int] == c && forall|j: int|
                i < j < v@.len() ==> v@[j] != c,
            None => forall|j: int| 0 <= j < v@.len() ==> v@[j] != c,
        },
        r matches Some(i) ==> last_index_of(v@, c) == i,
{
    let mut i = v.len();
    while i > 0
        invariant
            i <= v@.len(),
            forall|j: int| i <= j < v@.len() ==> v@[j] != c,
        decreases i,
    {
        i = i - 1;
        if v[i] == c {
            proof {
                assert(0 <= i < v@.len() && v@[i as int] == c && forall|j: int|
                    i < j < v@.len() ==> v@[j] != c);
                let w = last_index_of(v@, c);
                if w < i {
                    assert(v@[i as int] != c);
                } else if w > i {
                    assert(v@[w] != c);
                }
            }
            return Some(i);
        }
    }
    None
}

} // verus!
