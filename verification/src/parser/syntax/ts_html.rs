//! Extract from html

use vstd::prelude::*;

use crate::parser::languages::Language;
use crate::parser::quoted::{
    pattern_double_quoted, pattern_single_quoted, quoted_candidates, quoted_candidates_spec,
};
use crate::parser::syntax::{
    all_children, all_nodes, byte_slice, byte_slice_or_empty, candidate_between,
    get_bytes, lemma_all_children, lemma_byte_slice_len, SyntaxNode,
};
use crate::parser::quoted::{lemma_quoted_groups_in_range, quoted_groups};
use crate::parser::syntax::char_at;
use crate::parser::syntax::ts_general::{children_within, piece_within};
use crate::parser::ts_general_cands_of as cands_of;
use crate::parser::{
    keep_len, lead_ws, lemma_next_delim_bounds, lemma_ws_bounds, next_delim, split_pieces,
    trimmed, PathCandidate,
};
use crate::text::{
    byte_offset, chars_of, is_boundary, is_slash, lemma_byte_offset_full,
    lemma_byte_offset_injective, lemma_byte_offset_mono, lemma_byte_offset_subrange, str_eq,
    string_of,
};

verus! {

/// Kinds of nodes that hold text worth reading.
pub open spec fn is_html_string_kind(kind: Seq<char>) -> bool {
    kind == "text"@ || kind == "quoted_attribute_value"@
}

/// Text nodes span a well-formed piece of the source.
pub open spec fn text_in_source(src: Seq<char>, n: SyntaxNode) -> bool {
    n.kind@ == "text"@ ==> byte_slice(src, n.start_byte as int, n.end_byte as int) is Some
}

/// Start and end of the attribute value pieces of `ch[0..i]`, and whether one
/// was seen.
pub open spec fn fragment_scan(ch: Seq<SyntaxNode>, i: int, init: (nat, nat, bool)) -> (
    nat,
    nat,
    bool,
)
    decreases i,
{
    if i <= 0 {
        init
    } else {
        let (b, e, have) = fragment_scan(ch, i - 1, init);
        let c = ch[i - 1];
        if c.kind@ == "attribute_value"@ {
            (if have { b } else { c.start_byte as nat }, c.end_byte as nat, true)
        } else {
            (b, e, have)
        }
    }
}

/// The characters ` ` and `\n`, at which a text node is split.
pub open spec fn space_newline() -> Seq<char> {
    seq![' ', '\n']
}

/// Candidates read from one html node: the span of its attribute value
/// pieces; for a text node also the quoted runs (single quotes first) and the
/// space- or newline-separated pieces that hold a slash.
pub open spec fn html_contents(src: Seq<char>, node: SyntaxNode) -> Seq<(Seq<char>, nat, nat)> {
    let st = fragment_scan(
        node.children@,
        node.children@.len() as int,
        (node.start_byte as nat, node.end_byte as nat, false),
    );
    let base = if st.0 < st.1 {
        seq![(byte_slice_or_empty(src, st.0 as int, st.1 as int), st.0, st.1)]
    } else {
        Seq::empty()
    };
    if node.kind@ == "text"@ {
        let text = byte_slice(src, node.start_byte as int, node.end_byte as int)->0;
        let start = node.start_byte as nat;
        base + quoted_candidates_spec(text, '\'', start) + quoted_candidates_spec(text, '"', start)
            + split_pieces(text, space_newline(), start, 0)
    } else {
        base
    }
}

/// Candidates of the tree under `node`, in preorder.
pub open spec fn html_strings(src: Seq<char>, node: SyntaxNode) -> Seq<(Seq<char>, nat, nat)>
    decreases node, node.children@.len() + 1,
{
    (if is_html_string_kind(node.kind@) {
        html_contents(src, node)
    } else {
        Seq::empty()
    }) + html_children(src, node, 0)
}

pub open spec fn html_children(src: Seq<char>, node: SyntaxNode, i: int) -> Seq<
    (Seq<char>, nat, nat),
>
    decreases node, node.children@.len() - i,
{
    if 0 <= i < node.children@.len() {
        html_strings(src, node.children@[i]) + html_children(src, node, i + 1)
    } else {
        Seq::empty()
    }
}

/// A piece of a slice of the source is the slice of the source at the
/// shifted offsets, within the outer slice.
proof fn lemma_sub_slice(src: Seq<char>, a: int, b: int, t: Seq<char>, i: int, j: int)
    requires
        byte_slice(src, a, b) == Some(t),
        0 <= i <= j <= t.len(),
    ensures
        byte_slice_or_empty(src, a + byte_offset(t, i), a + byte_offset(t, j)) == t.subrange(i, j),
        a <= a + byte_offset(t, i) <= a + byte_offset(t, j) <= b,
        i < j ==> byte_offset(t, i) < byte_offset(t, j),
{
    lemma_byte_slice_len(src, a, b);
    let ci = char_at(src, a);
    let cj = char_at(src, b);
    assert(t == src.subrange(ci, cj));
    assert(0 <= ci <= cj <= src.len()) by {
        if cj < ci {
            lemma_byte_offset_mono(src, cj, ci);
        }
    }
    lemma_byte_offset_subrange(src, ci, ci + i);
    lemma_byte_offset_subrange(src, ci, ci + j);
    assert(src.subrange(ci, ci + i) =~= t.take(i));
    assert(src.subrange(ci, ci + j) =~= t.take(j));
    lemma_byte_offset_mono(t, i, j);
    lemma_byte_offset_mono(t, j, t.len() as int);
    lemma_byte_offset_full(t);
    let x = a + byte_offset(t, i);
    let y = a + byte_offset(t, j);
    assert(byte_offset(src, ci + i) == x);
    assert(byte_offset(src, ci + j) == y);
    assert(is_boundary(src, x));
    assert(is_boundary(src, y));
    lemma_byte_offset_injective(src, char_at(src, x), ci + i);
    lemma_byte_offset_injective(src, char_at(src, y), ci + j);
    assert(src.subrange(ci + i, ci + j) =~= t.subrange(i, j));
}

proof fn lemma_quoted_within(src: Seq<char>, a: int, b: int, t: Seq<char>, q: char)
    requires
        byte_slice(src, a, b) == Some(t),
        a >= 0,
    ensures
        forall|k: int|
            0 <= k < quoted_candidates_spec(t, q, a as nat).len() ==> piece_within(
                src,
                #[trigger] quoted_candidates_spec(t, q, a as nat)[k],
                a as nat,
                b as nat,
            ),
{
    lemma_quoted_groups_in_range(t, q, 0);
    assert forall|k: int| 0 <= k < quoted_candidates_spec(t, q, a as nat).len() implies piece_within(
        src,
        #[trigger] quoted_candidates_spec(t, q, a as nat)[k],
        a as nat,
        b as nat,
    ) by {
        let g = quoted_groups(t, q, 0)[k];
        lemma_sub_slice(src, a, b, t, g.0, g.1);
    }
}

proof fn lemma_split_within(src: Seq<char>, a: int, b: int, t: Seq<char>, delims: Seq<char>, pos: int)
    requires
        byte_slice(src, a, b) == Some(t),
        a >= 0,
    ensures
        forall|k: int|
            0 <= k < split_pieces(t, delims, a as nat, pos).len() ==> piece_within(
                src,
                #[trigger] split_pieces(t, delims, a as nat, pos)[k],
                a as nat,
                b as nat,
            ),
    decreases t.len() - pos,
{
    if 0 <= pos < t.len() {
        let e = next_delim(t, delims, pos);
        lemma_next_delim_bounds(t, delims, pos);
        let piece = t.subrange(pos, e);
        let tr = trimmed(piece, (a + byte_offset(t, pos)) as nat);
        let sp = split_pieces(t, delims, a as nat, pos);
        let here = if e > pos && (exists|j: int| 0 <= j < piece.len() && is_slash(piece[j]))
            && tr.0.len() > 0 {
            seq![tr]
        } else {
            Seq::empty()
        };
        if here.len() > 0 {
            lemma_ws_bounds(piece);
            let l = lead_ws(piece) as int;
            let kk = keep_len(piece) as int;
            assert(l < piece.len());
            lemma_byte_offset_subrange(t, pos, pos + l);
            lemma_byte_offset_subrange(t, pos, pos + kk);
            assert(t.subrange(pos, pos + l) =~= piece.take(l));
            assert(t.subrange(pos, pos + kk) =~= piece.take(kk));
            assert(piece.subrange(l, kk) =~= t.subrange(pos + l, pos + kk));
            lemma_sub_slice(src, a, b, t, pos + l, pos + kk);
            assert(piece_within(src, tr, a as nat, b as nat));
        }
        if e < t.len() {
            lemma_split_within(src, a, b, t, delims, e + 1);
            let rest = split_pieces(t, delims, a as nat, e + 1);
            assert(sp == here + rest);
            assert forall|k: int| 0 <= k < sp.len() implies piece_within(
                src,
                #[trigger] sp[k],
                a as nat,
                b as nat,
            ) by {
                if k < here.len() {
                    assert(sp[k] == here[k]);
                } else {
                    assert(sp[k] == rest[k - here.len()]);
                }
            }
        } else {
            assert(sp == here);
        }
    }
}

proof fn lemma_fragment_scan_within(node: SyntaxNode, i: int)
    requires
        children_within(node),
        0 <= i <= node.children@.len(),
    ensures
        ({
            let st = fragment_scan(
                node.children@,
                i,
                (node.start_byte as nat, node.end_byte as nat, false),
            );
            node.start_byte <= st.0 && st.1 <= node.end_byte
        }),
    decreases i,
{
    if i > 0 {
        lemma_fragment_scan_within(node, i - 1);
        let c = node.children@[i - 1];
        assert(node.start_byte <= c.start_byte && c.start_byte <= c.end_byte && c.end_byte
            <= node.end_byte);
    }
}

proof fn lemma_html_contents_within(src: Seq<char>, node: SyntaxNode)
    requires
        children_within(node),
        text_in_source(src, node),
    ensures
        forall|k: int|
            0 <= k < html_contents(src, node).len() ==> piece_within(
                src,
                #[trigger] html_contents(src, node)[k],
                node.start_byte as nat,
                node.end_byte as nat,
            ),
{
    lemma_fragment_scan_within(node, node.children@.len() as int);
    let st = fragment_scan(
        node.children@,
        node.children@.len() as int,
        (node.start_byte as nat, node.end_byte as nat, false),
    );
    let base = if st.0 < st.1 {
        seq![(byte_slice_or_empty(src, st.0 as int, st.1 as int), st.0, st.1)]
    } else {
        Seq::empty()
    };
    let hc = html_contents(src, node);
    if node.kind@ == "text"@ {
        let text = byte_slice(src, node.start_byte as int, node.end_byte as int)->0;
        let a = node.start_byte as int;
        let b = node.end_byte as int;
        let q1 = quoted_candidates_spec(text, '\'', a as nat);
        let q2 = quoted_candidates_spec(text, '"', a as nat);
        let sp = split_pieces(text, space_newline(), a as nat, 0);
        lemma_quoted_within(src, a, b, text, '\'');
        lemma_quoted_within(src, a, b, text, '"');
        lemma_split_within(src, a, b, text, space_newline(), 0);
        assert(hc == base + q1 + q2 + sp);
        assert forall|k: int| 0 <= k < hc.len() implies piece_within(
            src,
            #[trigger] hc[k],
            node.start_byte as nat,
            node.end_byte as nat,
        ) by {
            if k < base.len() {
                assert(hc[k] == base[k]);
            } else if k < base.len() + q1.len() {
                assert(hc[k] == q1[k - base.len()]);
            } else if k < base.len() + q1.len() + q2.len() {
                assert(hc[k] == q2[k - base.len() - q1.len()]);
            } else {
                assert(hc[k] == sp[k - base.len() - q1.len() - q2.len()]);
            }
        }
    } else {
        assert(hc == base);
    }
}

/// Every candidate of the HTML extractor is the text of the source between
/// its offsets, and lies inside the node it was read from, where each node's
/// children lie within it and each text node spans a piece of the source.
pub proof fn lemma_html_strings_within(src: Seq<char>, node: SyntaxNode)
    requires
        all_nodes(node, |n: SyntaxNode| children_within(n) && text_in_source(src, n)),
    ensures
        forall|k: int|
            0 <= k < html_strings(src, node).len() ==> piece_within(
                src,
                #[trigger] html_strings(src, node)[k],
                node.start_byte as nat,
                node.end_byte as nat,
            ),
    decreases node, node.children@.len() + 1,
{
    let own = if is_html_string_kind(node.kind@) {
        html_contents(src, node)
    } else {
        Seq::empty()
    };
    if is_html_string_kind(node.kind@) {
        lemma_html_contents_within(src, node);
    }
    lemma_html_children_within(src, node, 0);
    let rest = html_children(src, node, 0);
    assert(html_strings(src, node) == own + rest);
    assert forall|k: int| 0 <= k < html_strings(src, node).len() implies piece_within(
        src,
        #[trigger] html_strings(src, node)[k],
        node.start_byte as nat,
        node.end_byte as nat,
    ) by {
        if k < own.len() {
            assert(html_strings(src, node)[k] == own[k]);
        } else {
            assert(html_strings(src, node)[k] == rest[k - own.len()]);
        }
    }
}

proof fn lemma_html_children_within(src: Seq<char>, node: SyntaxNode, i: int)
    requires
        children_within(node),
        all_children(node, |n: SyntaxNode| children_within(n) && text_in_source(src, n), i),
    ensures
        forall|k: int|
            0 <= k < html_children(src, node, i).len() ==> piece_within(
                src,
                #[trigger] html_children(src, node, i)[k],
                node.start_byte as nat,
                node.end_byte as nat,
            ),
    decreases node, node.children@.len() - i,
{
    if 0 <= i < node.children@.len() {
        let c = node.children@[i];
        lemma_html_strings_within(src, c);
        lemma_html_children_within(src, node, i + 1);
        let first = html_strings(src, c);
        let rest = html_children(src, node, i + 1);
        assert(node.start_byte <= c.start_byte && c.end_byte <= node.end_byte);
        assert forall|k: int| 0 <= k < html_children(src, node, i).len() implies piece_within(
            src,
            #[trigger] html_children(src, node, i)[k],
            node.start_byte as nat,
            node.end_byte as nat,
        ) by {
            if k < first.len() {
                assert(html_children(src, node, i)[k] == first[k]);
                assert(piece_within(src, first[k], c.start_byte as nat, c.end_byte as nat));
            } else {
                assert(html_children(src, node, i)[k] == rest[k - first.len()]);
            }
        }
    }
}

pub fn extract_strings(source: &str, node: &SyntaxNode, language: &Language) -> (strings: Vec<
    PathCandidate,
>)
    requires
        *language == Language::HTML,
        all_nodes(*node, |n: SyntaxNode| text_in_source(source@, n)),
    ensures
        cands_of(strings@) == html_strings(source@, *node),
{
    let src = chars_of(source);
    let mut strings = Vec::new();
    extract_into(src.as_slice(), node, &mut strings);
    assert(cands_of(strings@) =~= html_strings(source@, *node));
    strings
}

/// Appends the candidates of the tree under `node` to `out`.
fn extract_into(src: &[char], node: &SyntaxNode, out: &mut Vec<PathCandidate>)
    requires
        all_nodes(*node, |n: SyntaxNode| text_in_source(src@, n)),
    ensures
        cands_of(final(out)@) == cands_of(old(out)@) + html_strings(src@, *node),
    decreases node, node.children@.len() + 1,
{
    let ghost start = cands_of(out@);
    let ghost p = |n: SyntaxNode| text_in_source(src@, n);
    // check if this node is a string
    if is_string_node(node) {
        let found = extract_string_content(src, node);
        append_all(out, found);
    }
    let ghost mid = cands_of(out@);
    // recursively process children
    let mut i: usize = 0;
    while i < node.children.len()
        invariant
            i <= node.children@.len(),
            all_children(*node, p, 0),
            p == (|n: SyntaxNode| text_in_source(src@, n)),
            cands_of(out@) + html_children(src@, *node, i as int) == mid + html_children(
                src@,
                *node,
                0,
            ),
        decreases node.children@.len() - i,
    {
        proof {
            lemma_all_children(*node, p, 0, i as int);
        }
        extract_into(src, &node.children[i], out);
        i = i + 1;
    }
    assert(cands_of(out@) =~= start + html_strings(src@, *node));
}

/// Moves the candidates of `found` to the end of `out`.
pub fn append_all(out: &mut Vec<PathCandidate>, found: Vec<PathCandidate>)
    ensures
        cands_of(final(out)@) == cands_of(old(out)@) + cands_of(found@),
{
    let mut found = found;
    let ghost before = out@;
    let ghost added = found@;
    out.append(&mut found);
    assert(cands_of(out@) =~= cands_of(before) + cands_of(added));
}

fn extract_string_content(src: &[char], node: &SyntaxNode) -> (candidates: Vec<PathCandidate>)
    requires
        text_in_source(src@, *node),
    ensures
        cands_of(candidates@) == html_contents(src@, *node),
{
    let mut candidates: Vec<PathCandidate> = Vec::new();
    let mut begin_byte = node.start_byte;
    let mut end_byte = node.end_byte;
    let mut have_string_fragment = false;
    let ghost init = (node.start_byte as nat, node.end_byte as nat, false);
    let mut i: usize = 0;
    while i < node.children.len()
        invariant
            i <= node.children@.len(),
            fragment_scan(node.children@, i as int, init) == (
                begin_byte as nat,
                end_byte as nat,
                have_string_fragment,
            ),
        decreases node.children@.len() - i,
    {
        let child = &node.children[i];
        if is_string_fragment_node(child) {
            if !have_string_fragment {
                begin_byte = child.start_byte;
                have_string_fragment = true;
            }
            end_byte = child.end_byte;
        }
        i = i + 1;
    }
    // add the last candidate after the last fragment
    if begin_byte < end_byte {
        let candidate = candidate_between(src, begin_byte, end_byte);
        candidates.push(candidate);
    }
    assert(cands_of(candidates@) =~= if begin_byte < end_byte {
        seq![(byte_slice_or_empty(src@, begin_byte as int, end_byte as int), begin_byte as nat, end_byte as nat)]
    } else {
        Seq::empty()
    });
    // fall back regex parse
    if need_regex_parse(node) {
        // parse based on `'` and `"` and space
        let text_chars = match get_bytes(src, node.start_byte, node.end_byte) {
            Some(t) => t,
            None => {
                proof {
                    assert(false);
                }
                Vec::new()
            },
        };
        let node_text = string_of(text_chars.as_slice());
        let offset = node.start_byte;
        proof {
            lemma_byte_slice_len(src@, node.start_byte as int, node.end_byte as int);
            reveal_strlit("'([^']+)'");
            reveal_strlit("\"([^\"]+)\"");
            assert("'([^']+)'"@ =~= pattern_single_quoted());
            assert("\"([^\"]+)\""@ =~= pattern_double_quoted());
        }
        let single = quoted_candidates("'([^']+)'", node_text.as_str(), offset);
        append_all(&mut candidates, single);
        let double = quoted_candidates("\"([^\"]+)\"", node_text.as_str(), offset);
        append_all(&mut candidates, double);
        let whole = PathCandidate {
            content: string_of(text_chars.as_slice()),
            start_byte: node.start_byte,
            end_byte: node.end_byte,
        };
        let delims = vec![' ', '\n'];
        proof {
            assert(delims@ =~= space_newline());
            assert forall|i: int|
                0 <= i < node_text@.len() && delims@.contains(node_text@[i]) implies crate::text::utf8_width(
                #[trigger] node_text@[i]) == 1 by {
                let k = choose|k: int| 0 <= k < delims@.len() && delims@[k] == node_text@[i];
                assert(k == 0 || k == 1);
            }
        }
        let pieces = whole.split(node_text.as_str(), delims.as_slice());
        append_all(&mut candidates, pieces);
    }
    candidates
}

/// Determine if a node represents a string literal
fn is_string_node(node: &SyntaxNode) -> (r: bool)
    ensures
        r == is_html_string_kind(node.kind@),
{
    let kind = node.kind.as_str();
    str_eq(kind, "text") || str_eq(kind, "quoted_attribute_value")
}

/// Determine if a node represents a part of string literal
fn is_string_fragment_node(node: &SyntaxNode) -> (r: bool)
    ensures
        r == (node.kind@ == "attribute_value"@),
{
    str_eq(node.kind.as_str(), "attribute_value")
}

fn need_regex_parse(node: &SyntaxNode) -> (r: bool)
    ensures
        r == (node.kind@ == "text"@),
{
    str_eq(node.kind.as_str(), "text")
}

} // verus!
