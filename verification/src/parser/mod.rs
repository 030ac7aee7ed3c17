//! Extraction of path candidates from lines and documents.

pub mod extract;
pub mod inline;
pub mod languages;
pub mod line;
pub mod quoted;
pub mod syntax;
pub mod unescape;
pub mod utils;

pub use syntax::ts_general::cands_of as ts_general_cands_of;

use vstd::prelude::*;

use crate::text::{
    byte_len, byte_offset, char_index_of_byte, char_width, chars_of, contains_slash,
    is_boundary, is_slash, is_white_space, is_whitespace, lemma_byte_offset_full,
    lemma_byte_offset_mono, lemma_byte_offset_step, lemma_byte_offset_subrange, slice_chars,
    string_of, utf8_width,
};

verus! {

/// Represents a parsed string in the source code with its range
#[derive(Debug, Clone)]
pub struct PathCandidate {
    pub content: String,
    pub start_byte: usize,
    pub end_byte: usize,
}

/// Text and byte range of a candidate.
pub open spec fn cand_view(c: PathCandidate) -> (Seq<char>, nat, nat) {
    (c.content@, c.start_byte as nat, c.end_byte as nat)
}

pub open spec fn cands_view(v: Seq<PathCandidate>) -> Seq<(Seq<char>, nat, nat)> {
    v.map_values(|c: PathCandidate| cand_view(c))
}

/// Number of leading whitespace characters of `s`.
pub open spec fn lead_ws(s: Seq<char>) -> nat
    decreases s.len(),
{
    if s.len() == 0 {
        0
    } else if is_white_space(s[0]) {
        1 + lead_ws(s.drop_first())
    } else {
        0
    }
}

/// Length of `s` without its trailing whitespace characters.
pub open spec fn keep_len(s: Seq<char>) -> nat
    decreases s.len(),
{
    if s.len() == 0 {
        0
    } else if is_white_space(s.last()) {
        keep_len(s.drop_last())
    } else {
        s.len()
    }
}

/// A candidate with text `s` starting at byte `start`, with the whitespace
/// trimmed from both ends; a text of whitespace only becomes the empty text
/// at its end.
pub open spec fn trimmed(s: Seq<char>, start: nat) -> (Seq<char>, nat, nat) {
    if lead_ws(s) < s.len() {
        (
            s.subrange(lead_ws(s) as int, keep_len(s) as int),
            start + byte_offset(s, lead_ws(s) as int),
            start + byte_offset(s, keep_len(s) as int),
        )
    } else {
        (Seq::empty(), start + byte_len(s), start + byte_len(s))
    }
}

/// Character index at which byte offset `b` of `s` falls (meaningful where
/// `b` is a boundary).
pub open spec fn char_at_byte(s: Seq<char>, b: int) -> int {
    choose|k: int| 0 <= k <= s.len() && byte_offset(s, k) == b
}

/// Index of the first character at or after `from` that is one of `delims`,
/// or the length of `s`.
pub open spec fn next_delim(s: Seq<char>, delims: Seq<char>, from: int) -> int
    decreases s.len() - from,
{
    if from >= s.len() {
        s.len() as int
    } else if delims.contains(s[from]) {
        from
    } else {
        next_delim(s, delims, from + 1)
    }
}

/// The pieces of `s` between delimiters, from character `pos` on, that hold a
/// slash and are not blank once trimmed, each trimmed, with byte ranges
/// counted from `base`.
pub open spec fn split_pieces(s: Seq<char>, delims: Seq<char>, base: nat, pos: int) -> Seq<
    (Seq<char>, nat, nat),
>
    decreases s.len() - pos,
{
    if pos >= s.len() || pos < 0 {
        Seq::empty()
    } else {
        let e = next_delim(s, delims, pos);
        proof {
            lemma_next_delim_bounds(s, delims, pos);
        }
        let piece = s.subrange(pos, e);
        let t = trimmed(piece, base + byte_offset(s, pos));
        let here = if e > pos && (exists|j: int| 0 <= j < piece.len() && is_slash(piece[j]))
            && t.0.len() > 0 {
            seq![t]
        } else {
            Seq::empty()
        };
        if e < s.len() {
            here + split_pieces(s, delims, base, e + 1)
        } else {
            here
        }
    }
}

pub proof fn lemma_next_delim_bounds(s: Seq<char>, delims: Seq<char>, from: int)
    requires
        0 <= from <= s.len(),
    ensures
        from <= next_delim(s, delims, from) <= s.len(),
        next_delim(s, delims, from) < s.len() ==> delims.contains(
            s[next_delim(s, delims, from)],
        ),
    decreases s.len() - from,
{
    if from < s.len() && !delims.contains(s[from]) {
        lemma_next_delim_bounds(s, delims, from + 1);
    }
}

/// No character of `s` from `from` up to `next_delim(s, delims, from)` is a
/// delimiter.
proof fn lemma_next_delim_first(s: Seq<char>, delims: Seq<char>, from: int)
    requires
        0 <= from <= s.len(),
    ensures
        forall|m: int| from <= m < next_delim(s, delims, from) ==> !delims.contains(#[trigger] s[m]),
    decreases s.len() - from,
{
    if from < s.len() && !delims.contains(s[from]) {
        lemma_next_delim_first(s, delims, from + 1);
    }
}

/// `s[i..j]` is a maximal run free of delimiters: it starts at the beginning
/// or just after a delimiter, ends at the end or at a delimiter, and holds
/// none.
pub open spec fn delim_free_run(s: Seq<char>, delims: Seq<char>, i: int, j: int) -> bool {
    &&& 0 <= i <= j <= s.len()
    &&& (i == 0 || delims.contains(s[i - 1]))
    &&& (j == s.len() || delims.contains(s[j]))
    &&& forall|m: int| i <= m < j ==> !delims.contains(#[trigger] s[m])
}

/// The candidate that the run `s[i..j]` gives: the run trimmed, with its byte
/// range counted from `base`, where the run is not empty, holds a slash and
/// is not blank.
pub open spec fn run_candidate(s: Seq<char>, base: nat, i: int, j: int) -> Option<
    (Seq<char>, nat, nat),
> {
    let piece = s.subrange(i, j);
    let t = trimmed(piece, base + byte_offset(s, i));
    if j > i && (exists|m: int| 0 <= m < piece.len() && is_slash(piece[m])) && t.0.len() > 0 {
        Some(t)
    } else {
        None
    }
}

/// What `split` gives is the candidates of the maximal delimiter-free runs
/// of `s`, in order: there is a run for each candidate, the runs come left
/// to right, and every run that gives a candidate is among them.
pub proof fn lemma_split_runs(s: Seq<char>, delims: Seq<char>, base: nat) -> (runs: Seq<(int, int)>)
    ensures
        runs.len() == split_pieces(s, delims, base, 0).len(),
        forall|k: int|
            0 <= k < runs.len() ==> delim_free_run(s, delims, (#[trigger] runs[k]).0, runs[k].1)
                && run_candidate(s, base, runs[k].0, runs[k].1) == Some(
                split_pieces(s, delims, base, 0)[k],
            ),
        forall|a: int, b: int| 0 <= a < b < runs.len() ==> (#[trigger] runs[a]).0 < (#[trigger] runs[b]).0,
        forall|i: int, j: int|
            delim_free_run(s, delims, i, j) && #[trigger] run_candidate(s, base, i, j) is Some
                ==> runs.contains((i, j)),
{
    lemma_split_runs_from(s, delims, base, 0)
}

proof fn lemma_split_runs_from(s: Seq<char>, delims: Seq<char>, base: nat, pos: int) -> (runs: Seq<
    (int, int),
>)
    requires
        0 <= pos <= s.len(),
        pos == 0 || delims.contains(s[pos - 1]),
    ensures
        runs.len() == split_pieces(s, delims, base, pos).len(),
        forall|k: int|
            0 <= k < runs.len() ==> pos <= (#[trigger] runs[k]).0 && delim_free_run(
                s,
                delims,
                runs[k].0,
                runs[k].1,
            ) && run_candidate(s, base, runs[k].0, runs[k].1) == Some(
                split_pieces(s, delims, base, pos)[k],
            ),
        forall|a: int, b: int| 0 <= a < b < runs.len() ==> (#[trigger] runs[a]).0 < (#[trigger] runs[b]).0,
        forall|i: int, j: int|
            pos <= i && delim_free_run(s, delims, i, j) && #[trigger] run_candidate(s, base, i, j) is Some
                ==> runs.contains((i, j)),
    decreases s.len() - pos,
{
    if pos >= s.len() {
        assert forall|i: int, j: int|
            pos <= i && delim_free_run(s, delims, i, j) && #[trigger] run_candidate(s, base, i, j) is Some
                implies false by {
            assert(i == j);
        }
        Seq::empty()
    } else {
        let e = next_delim(s, delims, pos);
        lemma_next_delim_bounds(s, delims, pos);
        lemma_next_delim_first(s, delims, pos);
        let here_run = delim_free_run(s, delims, pos, e);
        assert(here_run);
        let pieces = split_pieces(s, delims, base, pos);
        let hc = run_candidate(s, base, pos, e);
        let head: Seq<(int, int)> = if hc is Some {
            seq![(pos, e)]
        } else {
            Seq::empty()
        };
        let here = if hc is Some {
            seq![hc->0]
        } else {
            Seq::<(Seq<char>, nat, nat)>::empty()
        };
        if e < s.len() {
            let rest = lemma_split_runs_from(s, delims, base, e + 1);
            assert(pieces == here + split_pieces(s, delims, base, e + 1));
            let runs = head + rest;
            assert forall|k: int| 0 <= k < runs.len() implies pos <= (#[trigger] runs[k]).0
                && delim_free_run(s, delims, runs[k].0, runs[k].1) && run_candidate(
                s,
                base,
                runs[k].0,
                runs[k].1,
            ) == Some(pieces[k]) by {
                if k >= head.len() {
                    assert(runs[k] == rest[k - head.len()]);
                    assert(pieces[k] == split_pieces(s, delims, base, e + 1)[k - head.len()]);
                }
            }
            assert forall|a: int, b: int| 0 <= a < b < runs.len() implies (#[trigger] runs[a]).0
                < (#[trigger] runs[b]).0 by {
                if a >= head.len() {
                    assert(runs[a] == rest[a - head.len()]);
                    assert(runs[b] == rest[b - head.len()]);
                } else {
                    assert(runs[b] == rest[b - head.len()]);
                    assert(pos <= e);
                }
            }
            assert forall|i: int, j: int|
                pos <= i && delim_free_run(s, delims, i, j) && #[trigger] run_candidate(s, base, i, j)
                    is Some implies runs.contains((i, j)) by {
                if i == pos {
                    if j < e {
                        assert(delims.contains(s[j]));
                    }
                    if j > e {
                        assert(!delims.contains(s[e]));
                    }
                    assert(j == e);
                    assert(runs[0] == (i, j));
                } else {
                    assert(delims.contains(s[i - 1]));
                    if i - 1 < e {
                        assert(!delims.contains(s[i - 1]));
                    }
                    assert(e + 1 <= i);
                    let m = choose|m: int| 0 <= m < rest.len() && rest[m] == (i, j);
                    assert(runs[m + head.len()] == (i, j));
                }
            }
            runs
        } else {
            assert(pieces == here);
            assert forall|i: int, j: int|
                pos <= i && delim_free_run(s, delims, i, j) && #[trigger] run_candidate(s, base, i, j)
                    is Some implies head.contains((i, j)) by {
                if i == pos {
                    if j < e {
                        assert(delims.contains(s[j]));
                    }
                    assert(j == e);
                    assert(head[0] == (i, j));
                } else {
                    assert(delims.contains(s[i - 1]));
                    assert(!delims.contains(s[i - 1]));
                }
            }
            head
        }
    }
}

/// Every delimiter that occurs in `s` takes one byte.
pub open spec fn single_byte_delims(s: Seq<char>, delims: Seq<char>) -> bool {
    forall|i: int| 0 <= i < s.len() && delims.contains(s[i]) ==> utf8_width(#[trigger] s[i]) == 1
}

proof fn lemma_lead_ws(s: Seq<char>, k: int)
    requires
        0 <= k <= s.len(),
        forall|j: int| 0 <= j < k ==> is_white_space(#[trigger] s[j]),
        k == s.len() || !is_white_space(s[k]),
    ensures
        lead_ws(s) == k,
    decreases k,
{
    if k > 0 {
        lemma_lead_ws(s.drop_first(), k - 1);
    }
}

proof fn lemma_keep_len(s: Seq<char>, k: int)
    requires
        0 <= k <= s.len(),
        forall|j: int| k <= j < s.len() ==> is_white_space(#[trigger] s[j]),
        k == 0 || !is_white_space(s[k - 1]),
    ensures
        keep_len(s) == k,
    decreases s.len(),
{
    if s.len() > k {
        lemma_keep_len(s.drop_last(), k);
    }
}

pub(crate) proof fn lemma_ws_bounds(s: Seq<char>)
    ensures
        lead_ws(s) <= s.len(),
        keep_len(s) <= s.len(),
        lead_ws(s) < s.len() ==> lead_ws(s) < keep_len(s),
        lead_ws(s) < s.len() ==> !is_white_space(s[lead_ws(s) as int]),
        forall|j: int| 0 <= j < lead_ws(s) ==> is_white_space(#[trigger] s[j]),
    decreases s.len(),
{
    if s.len() > 0 {
        lemma_ws_bounds(s.drop_first());
        lemma_ws_bounds(s.drop_last());
        if is_white_space(s[0]) {
            assert forall|j: int| 0 <= j < lead_ws(s) implies is_white_space(#[trigger] s[j]) by {
                if j > 0 {
                    assert(s[j] == s.drop_first()[j - 1]);
                }
            }
            if lead_ws(s) < s.len() {
                let t = s.drop_first();
                assert(s[lead_ws(s) as int] == t[lead_ws(t) as int]);
                // keep_len of s is at least one past the first non-whitespace
                lemma_keep_after(s, lead_ws(s) as int);
            }
        } else {
            lemma_keep_after(s, 0);
        }
    }
}

/// A non-whitespace character at `i` is kept.
proof fn lemma_keep_after(s: Seq<char>, i: int)
    requires
        0 <= i < s.len(),
        !is_white_space(s[i]),
    ensures
        i < keep_len(s),
    decreases s.len(),
{
    if !is_white_space(s.last()) {
    } else {
        assert(i < s.len() - 1);
        assert(s.drop_last()[i] == s[i]);
        lemma_keep_after(s.drop_last(), i);
    }
}

/// The last kept character is no whitespace.
proof fn lemma_keep_last(s: Seq<char>)
    ensures
        keep_len(s) > 0 ==> !is_white_space(s[keep_len(s) - 1]),
    decreases s.len(),
{
    if s.len() > 0 && is_white_space(s.last()) {
        lemma_keep_last(s.drop_last());
        if keep_len(s) > 0 {
            lemma_ws_bounds(s.drop_last());
            assert(s[keep_len(s) - 1] == s.drop_last()[keep_len(s) - 1]);
        }
    }
}

/// Trimming a trimmed candidate changes nothing, and a trimmed text starts
/// and ends with no whitespace.
pub proof fn lemma_trim_idempotent(s: Seq<char>, start: nat)
    ensures
        trimmed(trimmed(s, start).0, trimmed(s, start).1) == trimmed(s, start),
        trimmed(s, start).0.len() > 0 ==> !is_white_space(trimmed(s, start).0[0])
            && !is_white_space(trimmed(s, start).0.last()),
{
    lemma_ws_bounds(s);
    if lead_ws(s) < s.len() {
        let l = lead_ws(s) as int;
        let k = keep_len(s) as int;
        let t = s.subrange(l, k);
        lemma_keep_last(s);
        assert(t[0] == s[l]);
        assert(t.last() == s[k - 1]);
        lemma_lead_ws(t, 0);
        lemma_keep_len(t, t.len() as int);
        assert(t.subrange(0, t.len() as int) =~= t);
        crate::text::lemma_byte_offset_subrange(s, l, k);
        crate::text::lemma_byte_offset_full(t);
        assert(t.take(0) =~= Seq::<char>::empty());
    } else {
        let e: Seq<char> = Seq::empty();
        assert(lead_ws(e) == 0);
    }
}

impl PathCandidate {
    /// Byte positions derived from this candidate fit in `usize`.
    pub open spec fn fits(&self) -> bool {
        self.start_byte + byte_len(self.content@) <= usize::MAX
    }

    fn char_count(&self) -> (n: usize)
        ensures
            n == self.content@.len(),
    {
        chars_of(self.content.as_str()).len()
    }

    /// From utf-8 character index to byte index
    fn char_to_byte(&self, ch_idx: usize) -> (b: usize)
        requires
            ch_idx <= self.content@.len(),
            self.fits(),
        ensures
            b == byte_offset(self.content@, ch_idx as int),
    {
        let chars = chars_of(self.content.as_str());
        let total = self.char_count();
        let mut acc: usize = 0;
        let mut i: usize = 0;
        while i < ch_idx
            invariant
                i <= ch_idx <= chars@.len(),
                chars@ == self.content@,
                acc == byte_offset(chars@, i as int),
                self.fits(),
            decreases ch_idx - i,
        {
            proof {
                lemma_byte_offset_step(chars@, i as int);
                lemma_byte_offset_mono(chars@, i as int + 1, chars@.len() as int);
                lemma_byte_offset_full(chars@);
            }
            acc = acc + char_width(chars[i]);
            i = i + 1;
        }
        if ch_idx == total {
            proof {
                lemma_byte_offset_full(chars@);
            }
        }
        acc
    }

    /// Slice by absolute byte positions in the document
    pub fn slice_bytes(&self, start_byte: usize, end_byte: usize) -> (r: PathCandidate)
        requires
            start_byte <= end_byte,
            self.start_byte <= start_byte,
            end_byte <= self.end_byte,
            is_boundary(self.content@, start_byte - self.start_byte),
            is_boundary(self.content@, end_byte - self.start_byte),
        ensures
            r.content@ == self.content@.subrange(
                char_at_byte(self.content@, start_byte - self.start_byte),
                char_at_byte(self.content@, end_byte - self.start_byte),
            ),
            r.start_byte == start_byte,
            r.end_byte == end_byte,
    {
        // Convert absolute positions to relative offsets in self.content
        let rel_start = start_byte - self.start_byte;
        let rel_end = end_byte - self.start_byte;
        let chars = chars_of(self.content.as_str());
        let i = match char_index_of_byte(chars.as_slice(), rel_start) {
            Some(i) => i,
            None => {
                proof {
                    assert(false);
                }
                0
            },
        };
        let j = match char_index_of_byte(chars.as_slice(), rel_end) {
            Some(j) => j,
            None => {
                proof {
                    assert(false);
                }
                0
            },
        };
        proof {
            let ci = char_at_byte(self.content@, rel_start as int);
            let cj = char_at_byte(self.content@, rel_end as int);
            crate::text::lemma_byte_offset_injective(chars@, i as int, ci);
            crate::text::lemma_byte_offset_injective(chars@, j as int, cj);
            if j < i {
                lemma_byte_offset_mono(chars@, j as int, i as int);
            }
        }
        let slice = slice_chars(chars.as_slice(), i, j);
        PathCandidate { content: string_of(slice.as_slice()), start_byte, end_byte }
    }

    pub fn len(&self) -> (n: usize)
        requires
            byte_len(self.content@) <= usize::MAX,
        ensures
            n == byte_len(self.content@),
    {
        let chars = chars_of(self.content.as_str());
        crate::text::byte_len_of(chars.as_slice())
    }

    /// Trim the space from both begin and end
    pub fn trim(&self) -> (r: PathCandidate)
        requires
            self.fits(),
        ensures
            cand_view(r) == trimmed(self.content@, self.start_byte as nat),
    {
        let s = chars_of(self.content.as_str());
        let mut first: Option<usize> = None;
        let mut last: Option<usize> = None;

        let mut i: usize = 0;
        while i < s.len()
            invariant_except_break
                first is None,
            invariant
                i <= s@.len(),
                forall|j: int| 0 <= j < i ==> is_white_space(#[trigger] s@[j]),
            ensures
                match first {
                    Some(f) => f < s@.len() && !is_white_space(s@[f as int]) && forall|j: int|
                        0 <= j < f ==> is_white_space(#[trigger] s@[j]),
                    None => forall|j: int| 0 <= j < s@.len() ==> is_white_space(#[trigger] s@[j]),
                },
            decreases s@.len() - i,
        {
            if !is_whitespace(s[i]) {
                first = Some(i);
                break ;
            }
            i = i + 1;
        }

        let mut i = s.len();
        while i > 0
            invariant_except_break
                last is None,
            invariant
                i <= s@.len(),
                forall|j: int| i <= j < s@.len() ==> is_white_space(#[trigger] s@[j]),
            ensures
                match last {
                    Some(l) => 0 < l <= s@.len() && !is_white_space(s@[l - 1]) && forall|j: int|
                        l <= j < s@.len() ==> is_white_space(#[trigger] s@[j]),
                    None => forall|j: int| 0 <= j < s@.len() ==> is_white_space(#[trigger] s@[j]),
                },
            decreases i,
        {
            if !is_whitespace(s[i - 1]) {
                last = Some(i);
                break ;
            }
            i = i - 1;
        }
        proof {
            lemma_ws_bounds(s@);
            lemma_byte_offset_full(s@);
        }
        match (first, last) {
            (Some(f), Some(l)) => {
                proof {
                    lemma_lead_ws(s@, f as int);
                    lemma_keep_len(s@, l as int);
                    lemma_byte_offset_mono(s@, f as int, s@.len() as int);
                    lemma_byte_offset_mono(s@, l as int, s@.len() as int);
                }
                let bf = self.char_to_byte(f);
                let bl = self.char_to_byte(l);
                let slice = slice_chars(s.as_slice(), f, l);
                PathCandidate {
                    content: string_of(slice.as_slice()),
                    start_byte: self.start_byte + bf,
                    end_byte: self.start_byte + bl,
                }
            },
            _ => {
                // all whitespace -> empty slice at end
                proof {
                    if first is Some {
                        let f = first->0;
                        assert(is_white_space(s@[f as int]));
                    }
                    if last is Some {
                        let l = last->0;
                        assert(is_white_space(s@[l - 1]));
                    }
                    lemma_lead_ws(s@, s@.len() as int);
                }
                let pos = self.char_to_byte(s.len());
                PathCandidate {
                    content: string_of(slice_chars(s.as_slice(), 0, 0).as_slice()),
                    start_byte: self.start_byte + pos,
                    end_byte: self.start_byte + pos,
                }
            },
        }
    }

    /// Splits `content` (whose first byte sits at this candidate's start) at
    /// the `delimiter` characters and keeps the trimmed, non-blank pieces
    /// that hold a slash or a backslash.
    pub fn split(&self, content: &str, delimiter: &[char]) -> (results: Vec<PathCandidate>)
        requires
            self.start_byte + byte_len(content@) <= usize::MAX,
            single_byte_delims(content@, delimiter@),
        ensures
            cands_view(results@) == split_pieces(
                content@,
                delimiter@,
                self.start_byte as nat,
                0,
            ),
    {
        let s = chars_of(content);
        let mut results: Vec<PathCandidate> = Vec::new();
        let mut last_pos: usize = 0;
        let mut last_byte: usize = 0;
        proof {
            lemma_byte_offset_full(s@);
        }
        while last_pos < s.len()
            invariant_except_break
                cands_view(results@) + split_pieces(
                    s@,
                    delimiter@,
                    self.start_byte as nat,
                    last_pos as int,
                ) == split_pieces(s@, delimiter@, self.start_byte as nat, 0),
            invariant
                last_pos <= s@.len(),
                s@ == content@,
                last_byte == byte_offset(s@, last_pos as int),
                self.start_byte + byte_len(s@) <= usize::MAX,
                byte_len(s@) == byte_offset(s@, s@.len() as int),
                single_byte_delims(s@, delimiter@),
            ensures
                cands_view(results@) == split_pieces(s@, delimiter@, self.start_byte as nat, 0),
            decreases s@.len() - last_pos,
        {
            // find the next delimiter
            let mut end = last_pos;
            let mut end_byte = last_byte;
            while end < s.len() && !crate::text::contains_char(delimiter, s[end])
                invariant
                    last_pos <= end <= s@.len(),
                    end_byte == byte_offset(s@, end as int),
                    next_delim(s@, delimiter@, last_pos as int) == next_delim(
                        s@,
                        delimiter@,
                        end as int,
                    ),
                    self.start_byte + byte_len(s@) <= usize::MAX,
                    byte_len(s@) == byte_offset(s@, s@.len() as int),
                decreases s@.len() - end,
            {
                proof {
                    lemma_byte_offset_step(s@, end as int);
                    lemma_byte_offset_mono(s@, end as int + 1, s@.len() as int);
                }
                end_byte = end_byte + char_width(s[end]);
                end = end + 1;
            }
            proof {
                lemma_byte_offset_mono(s@, end as int, s@.len() as int);
                lemma_byte_offset_mono(s@, last_pos as int, end as int);
            }
            let ghost e = next_delim(s@, delimiter@, last_pos as int);
            proof {
                lemma_next_delim_bounds(s@, delimiter@, last_pos as int);
                if end < s@.len() {
                    assert(delimiter@.contains(s@[end as int]));
                    assert(next_delim(s@, delimiter@, end as int) == end);
                } else {
                    assert(next_delim(s@, delimiter@, end as int) == end);
                }
            }
            assert(e == end);
            let ghost before = cands_view(results@);
            if end > last_pos {
                let piece = slice_chars(s.as_slice(), last_pos, end);
                if contains_slash(piece.as_slice()) {
                    proof {
                        lemma_byte_offset_subrange(s@, last_pos as int, end as int);
                    }
                    let untrimmed = PathCandidate {
                        content: string_of(piece.as_slice()),
                        start_byte: self.start_byte + last_byte,
                        end_byte: self.start_byte + end_byte,
                    };
                    let trimmed_candidate = untrimmed.trim();
                    if chars_of(trimmed_candidate.content.as_str()).len() > 0 {
                        results.push(trimmed_candidate);
                        proof {
                            assert(cands_view(results@) =~= before.push(cand_view(trimmed_candidate)));
                        }
                    }
                }
            }
            if end >= s.len() {
                break ;
            }
            // the delimiter takes one byte
            proof {
                lemma_byte_offset_step(s@, end as int);
                assert(delimiter@.contains(s@[end as int]));
                lemma_byte_offset_mono(s@, end as int + 1, s@.len() as int);
            }
            last_byte = end_byte + 1;
            last_pos = end + 1;
        }
        proof {
            if last_pos >= s@.len() {
                assert(split_pieces(s@, delimiter@, self.start_byte as nat, last_pos as int)
                    =~= Seq::<(Seq<char>, nat, nat)>::empty());
            }
        }
        results
    }
}

} // verus!
