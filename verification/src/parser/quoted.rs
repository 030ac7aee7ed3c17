//! Contents of quoted runs (`'...'`, `"..."`) inside a text, as a regular
//! expression search finds them.

use vstd::prelude::*;

use crate::parser::PathCandidate;
use crate::text::{byte_len, byte_offset, chars_of, lemma_byte_offset_mono, slice_chars, string_of};

verus! {

/// `'([^']+)'`
pub open spec fn pattern_single_quoted() -> Seq<char> {
    seq!['\'', '(', '[', '^', '\'', ']', '+', ')', '\'']
}

/// `"([^"]+)"`
pub open spec fn pattern_double_quoted() -> Seq<char> {
    seq!['"', '(', '[', '^', '"', ']', '+', ')', '"']
}

/// Index of the first `q` in `h` at or after `from`, or the length of `h`.
pub open spec fn next_quote(h: Seq<char>, q: char, from: int) -> int
    decreases h.len() - from,
{
    if from >= h.len() {
        h.len() as int
    } else if h[from] == q {
        from
    } else {
        next_quote(h, q, from + 1)
    }
}

pub proof fn lemma_next_quote_bounds(h: Seq<char>, q: char, from: int)
    requires
        0 <= from <= h.len(),
    ensures
        next_quote(h, q, from) >= from,
        next_quote(h, q, from) <= h.len(),
        next_quote(h, q, from) < h.len() ==> h[next_quote(h, q, from)] == q,
        forall|i: int| from <= i < next_quote(h, q, from) && i < h.len() ==> h[i] != q,
    decreases h.len() - from,
{
    if from < h.len() && h[from] != q {
        lemma_next_quote_bounds(h, q, from + 1);
    }
}

/// Character ranges of the text between each pair of `q` that a
/// left-to-right search for `q([^q]+)q` matches, from index `p` on: a `q`
/// followed by at least one other character and then a `q`.
pub open spec fn quoted_groups(h: Seq<char>, q: char, p: int) -> Seq<(int, int)>
    decreases h.len() - p,
{
    if p < 0 || p >= h.len() {
        Seq::empty()
    } else if h[p] != q {
        quoted_groups(h, q, p + 1)
    } else {
        let e = next_quote(h, q, p + 1);
        proof {
            lemma_next_quote_bounds(h, q, p + 1);
        }
        if e < h.len() && e > p + 1 {
            seq![(p + 1, e)] + quoted_groups(h, q, e + 1)
        } else {
            quoted_groups(h, q, p + 1)
        }
    }
}

/// The quote character of one of the two quoted patterns.
pub open spec fn quote_of(pattern: Seq<char>) -> char {
    if pattern == pattern_single_quoted() {
        '\''
    } else {
        '"'
    }
}

/// `spans` holds, in order, the byte ranges of the quoted runs of `h`.
pub open spec fn spans_agree(spans: Seq<Option<(usize, usize)>>, h: Seq<char>, q: char) -> bool {
    let g = quoted_groups(h, q, 0);
    &&& spans.len() == g.len()
    &&& forall|i: int|
        0 <= i < g.len() ==> match #[trigger] spans[i] {
            Some(r) => r.0 == byte_offset(h, g[i].0) && r.1 == byte_offset(h, g[i].1),
            None => false,
        }
}

/// For every match of `pattern` in `haystack`, in order, the byte range of its
/// first group where it took part (`Regex::new(pattern)`, then
/// `captures_iter(haystack)` and `get(1)` of each capture), for the two quoted
/// patterns of this module; the contract states where they match.
#[verifier::external_body]
fn regex_group_spans(pattern: &str, haystack: &str) -> (res: Vec<Option<(usize, usize)>>)
    requires
        pattern@ == pattern_single_quoted() || pattern@ == pattern_double_quoted(),
    ensures
        spans_agree(res@, haystack@, quote_of(pattern@)),
{
    let re = regex::Regex::new(pattern).unwrap();
    re.captures_iter(haystack).map(|cap| cap.get(1).map(|m| (m.start(), m.end()))).collect()
}

/// Candidates for the quoted runs of `text`, whose first byte sits at `offset`.
pub open spec fn quoted_candidates_spec(text: Seq<char>, q: char, offset: nat) -> Seq<(Seq<char>, nat, nat)> {
    quoted_groups(text, q, 0).map_values(
        |g: (int, int)|
            (
                text.subrange(g.0, g.1),
                offset + byte_offset(text, g.0),
                offset + byte_offset(text, g.1),
            ),
    )
}

pub proof fn lemma_quoted_groups_in_range(h: Seq<char>, q: char, p: int)
    ensures
        forall|i: int|
            0 <= i < quoted_groups(h, q, p).len() ==> 0 <= (#[trigger] quoted_groups(h, q, p)[i]).0
                < quoted_groups(h, q, p)[i].1 < h.len(),
    decreases h.len() - p,
{
    if p < 0 || p >= h.len() {
    } else if h[p] != q {
        lemma_quoted_groups_in_range(h, q, p + 1);
        assert(quoted_groups(h, q, p) == quoted_groups(h, q, p + 1));
    } else {
        let e = next_quote(h, q, p + 1);
        lemma_next_quote_bounds(h, q, p + 1);
        if e < h.len() && e > p + 1 {
            lemma_quoted_groups_in_range(h, q, e + 1);
            let rest = quoted_groups(h, q, e + 1);
            assert forall|i: int|
                0 <= i < quoted_groups(h, q, p).len() implies 0 <= (
                #[trigger] quoted_groups(h, q, p)[i]).0 < quoted_groups(h, q, p)[i].1 < h.len() by {
                if i > 0 {
                    assert(quoted_groups(h, q, p)[i] == rest[i - 1]);
                }
            }
        } else {
            lemma_quoted_groups_in_range(h, q, p + 1);
            assert(quoted_groups(h, q, p) == quoted_groups(h, q, p + 1));
        }
    }
}

/// Candidates for the runs that `pattern` (one of the two quoted patterns)
/// captures in `text`, with byte ranges counted from `offset`.
pub fn quoted_candidates(pattern: &str, text: &str, offset: usize) -> (res: Vec<PathCandidate>)
    requires
        pattern@ == pattern_single_quoted() || pattern@ == pattern_double_quoted(),
        offset + byte_len(text@) <= usize::MAX,
    ensures
        res@.map_values(|c: PathCandidate| (c.content@, c.start_byte as nat, c.end_byte as nat))
            == quoted_candidates_spec(
            text@,
            if pattern@ == pattern_single_quoted() {
                '\''
            } else {
                '"'
            },
            offset as nat,
        ),
{
    let ghost q = quote_of(pattern@);
    let ghost g = quoted_groups(text@, q, 0);
    let chars = chars_of(text);
    let spans = regex_group_spans(pattern, text);
    let mut res: Vec<PathCandidate> = Vec::new();
    let mut i: usize = 0;
    proof {
        lemma_quoted_groups_in_range(text@, q, 0);
        crate::text::lemma_byte_offset_full(text@);
    }
    while i < spans.len()
        invariant
            i <= spans@.len(),
            spans@.len() == g.len(),
            chars@ == text@,
            g == quoted_groups(text@, q, 0),
            offset + byte_len(text@) <= usize::MAX,
            byte_len(text@) == byte_offset(text@, text@.len() as int),
            spans_agree(spans@, text@, q),
            forall|k: int| 0 <= k < g.len() ==> 0 <= (#[trigger] g[k]).0 < g[k].1 < text@.len(),
            res@.map_values(|c: PathCandidate| (c.content@, c.start_byte as nat, c.end_byte as nat))
                == quoted_candidates_spec(text@, q, offset as nat).take(i as int),
        decreases spans@.len() - i,
    {
        assert(spans@[i as int] is Some);
        if let Some((a, b)) = spans[i] {
            let ghost ga = g[i as int].0;
            let ghost gb = g[i as int].1;
            proof {
                lemma_byte_offset_mono(text@, ga, text@.len() as int);
                lemma_byte_offset_mono(text@, gb, text@.len() as int);
            }
            // character indices of the group's ends
            let ia = match crate::text::char_index_of_byte(chars.as_slice(), a) {
                Some(k) => k,
                None => {
                    proof {
                        assert(crate::text::is_boundary(chars@, a as int));
                    }
                    0
                },
            };
            let ib = match crate::text::char_index_of_byte(chars.as_slice(), b) {
                Some(k) => k,
                None => {
                    proof {
                        assert(crate::text::is_boundary(chars@, b as int));
                    }
                    0
                },
            };
            proof {
                crate::text::lemma_byte_offset_injective(chars@, ia as int, ga);
                crate::text::lemma_byte_offset_injective(chars@, ib as int, gb);
            }
            let content = string_of(slice_chars(chars.as_slice(), ia, ib).as_slice());
            let ghost before = res@.map_values(
                |c: PathCandidate| (c.content@, c.start_byte as nat, c.end_byte as nat),
            );
            let cand = PathCandidate { content, start_byte: offset + a, end_byte: offset + b };
            res.push(cand);
            proof {
                let now = res@.map_values(
                    |c: PathCandidate| (c.content@, c.start_byte as nat, c.end_byte as nat),
                );
                let want = quoted_candidates_spec(text@, q, offset as nat);
                assert(want[i as int] == (
                    text@.subrange(ga, gb),
                    (offset + byte_offset(text@, ga)) as nat,
                    (offset + byte_offset(text@, gb)) as nat,
                ));
                assert(cand.content@ == text@.subrange(ga, gb));
                assert(now =~= before.push(
                    (cand.content@, cand.start_byte as nat, cand.end_byte as nat),
                ));
                assert(want.take(i as int + 1) =~= want.take(i as int).push(want[i as int]));
            }
        }
        i = i + 1;
    }
    proof {
        let want = quoted_candidates_spec(text@, q, offset as nat);
        assert(want.take(want.len() as int) =~= want);
    }
    res
}

} // verus!
