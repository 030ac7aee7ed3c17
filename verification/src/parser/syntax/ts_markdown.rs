//! Extract from markdown
//!
//! The tree read here is the block tree of a markdown document in which each
//! `inline` node holds, as its children, the nodes that the inline grammar
//! parses from its range (the offsets of both are offsets in the document).

use vstd::prelude::*;

use crate::parser::quoted::{
    pattern_double_quoted, pattern_single_quoted, quoted_candidates, quoted_candidates_spec,
};
use crate::parser::syntax::ts_html::{append_all, space_newline};
use crate::parser::syntax::{
    all_children, all_nodes, byte_slice, cv, get_bytes, lemma_all_children, lemma_byte_slice_len,
    SyntaxNode,
};
use crate::parser::ts_general_cands_of as cands_of;
use crate::parser::{split_pieces, PathCandidate};
use crate::text::{chars_of, str_eq, string_of};

verus! {

/// Start and end of the content of a code span after its children `ch[0..i]`:
/// a delimiter that starts where the span starts moves the start to its end,
/// one that ends where the span ends moves the end to its start.
pub open spec fn span_bounds(node: SyntaxNode, i: int) -> (int, int)
    decreases i,
{
    if i <= 0 {
        (node.start_byte as int, node.end_byte as int)
    } else {
        let (b, e) = span_bounds(node, i - 1);
        let c = node.children@[i - 1];
        if c.kind@ == "code_span_delimiter"@ {
            (
                if c.start_byte == node.start_byte {
                    c.end_byte as int
                } else {
                    b
                },
                if c.end_byte == node.end_byte {
                    c.start_byte as int
                } else {
                    e
                },
            )
        } else {
            (b, e)
        }
    }
}

proof fn lemma_span_bounds_range(node: SyntaxNode, i: int)
    ensures
        0 <= span_bounds(node, i).0 <= usize::MAX,
        0 <= span_bounds(node, i).1 <= usize::MAX,
    decreases i,
{
    if i > 0 {
        lemma_span_bounds_range(node, i - 1);
    }
}

/// The byte range a node of each kind stands for, where it stands for one:
/// a link destination whole, a code span without its delimiters, an emphasis
/// without its single marks, a strong emphasis without its double marks.
pub open spec fn marked_range(node: SyntaxNode) -> Option<(int, int)> {
    let k = node.kind@;
    let s = node.start_byte as int;
    let e = node.end_byte as int;
    if k == "link_destination"@ {
        Some((s, e))
    } else if k == "code_span"@ {
        Some(span_bounds(node, node.children@.len() as int))
    } else if k == "emphasis"@ {
        Some((s + 1, e - 1))
    } else if k == "strong_emphasis"@ {
        Some((s + 2, e - 2))
    } else {
        None
    }
}

/// Kinds whose text is searched for quoted runs and split into pieces.
pub open spec fn is_searched_kind(k: Seq<char>) -> bool {
    k == "inline"@ || k == "html_block"@
}

/// Kinds whose text is split into pieces.
pub open spec fn is_split_kind(k: Seq<char>) -> bool {
    k == "code_block"@ || k == "fenced_code_block"@
}

/// The node slices its text soundly: the range it stands for, or its whole
/// range where its text is read.
pub open spec fn md_node_ok(src: Seq<char>, n: SyntaxNode) -> bool {
    &&& marked_range(n) matches Some(r) ==> 0 <= r.0 && byte_slice(src, r.0, r.1) is Some
    &&& (is_searched_kind(n.kind@) || is_split_kind(n.kind@)) ==> byte_slice(
        src,
        n.start_byte as int,
        n.end_byte as int,
    ) is Some
}

/// Candidates read from the text of one node.
pub open spec fn markdown_contents(src: Seq<char>, node: SyntaxNode) -> Seq<(Seq<char>, nat, nat)> {
    let text = byte_slice(src, node.start_byte as int, node.end_byte as int)->0;
    let start = node.start_byte as nat;
    if is_searched_kind(node.kind@) {
        quoted_candidates_spec(text, '\'', start) + quoted_candidates_spec(text, '"', start)
            + split_pieces(text, space_newline(), start, 0)
    } else if is_split_kind(node.kind@) {
        split_pieces(text, space_newline(), start, 0)
    } else {
        Seq::empty()
    }
}

/// Candidates of the tree under `node`, in preorder, where a node that
/// stands for a range gives that range alone and is not descended into.
pub open spec fn markdown_strings(src: Seq<char>, node: SyntaxNode) -> Seq<(Seq<char>, nat, nat)>
    decreases node, node.children@.len() + 1,
{
    match marked_range(node) {
        Some(r) => seq![(byte_slice(src, r.0, r.1)->0, r.0 as nat, r.1 as nat)],
        None => markdown_contents(src, node) + markdown_children(src, node, 0),
    }
}

pub open spec fn markdown_children(src: Seq<char>, node: SyntaxNode, i: int) -> Seq<
    (Seq<char>, nat, nat),
>
    decreases node, node.children@.len() - i,
{
    if 0 <= i < node.children@.len() && marked_range(node) is None {
        markdown_strings(src, node.children@[i]) + markdown_children(src, node, i + 1)
    } else {
        Seq::empty()
    }
}

/// `v` with later repetitions left out.
pub open spec fn dedup(v: Seq<(Seq<char>, nat, nat)>) -> Seq<(Seq<char>, nat, nat)>
    decreases v.len(),
{
    if v.len() == 0 {
        Seq::empty()
    } else {
        let prev = dedup(v.drop_last());
        if prev.contains(v.last()) {
            prev
        } else {
            prev.push(v.last())
        }
    }
}

/// The candidates of a markdown tree, each once: the link destinations, the
/// contents of code spans and emphases, the quoted runs of inline text and
/// html blocks, and the pieces of inline text, html blocks and code blocks
/// that hold a slash.
pub fn extract_strings(source: &str, node: &SyntaxNode) -> (strings: Vec<PathCandidate>)
    requires
        all_nodes(*node, |n: SyntaxNode| md_node_ok(source@, n)),
    ensures
        cands_of(strings@) == dedup(markdown_strings(source@, *node)),
{
    let src = chars_of(source);
    let mut found = Vec::new();
    extract_into(src.as_slice(), node, &mut found);
    assert(cands_of(found@) =~= markdown_strings(source@, *node));
    dedup_candidates(&found)
}

/// Appends the candidates of the tree under `node` to `out`.
fn extract_into(src: &[char], node: &SyntaxNode, out: &mut Vec<PathCandidate>)
    requires
        all_nodes(*node, |n: SyntaxNode| md_node_ok(src@, n)),
    ensures
        cands_of(final(out)@) == cands_of(old(out)@) + markdown_strings(src@, *node),
    decreases node, node.children@.len() + 1,
{
    let ghost start = cands_of(out@);
    let ghost p = |n: SyntaxNode| md_node_ok(src@, n);
    let kind = node.kind.as_str();
    if str_eq(kind, "link_destination") || str_eq(kind, "code_span") || str_eq(kind, "emphasis")
        || str_eq(kind, "strong_emphasis") {
        proof {
            lemma_span_bounds_range(*node, node.children@.len() as int);
            assert(md_node_ok(src@, *node));
        }
        let (a, b) = marked_bounds(node);
        let c = piece_between(src, a, b);
        out.push(c);
        assert(cands_of(out@) =~= start + markdown_strings(src@, *node));
        return;
    }
    assert(marked_range(*node) is None);
    let found = extract_string_content(src, node);
    append_all(out, found);
    let ghost mid = cands_of(out@);
    let mut i: usize = 0;
    while i < node.children.len()
        invariant
            i <= node.children@.len(),
            marked_range(*node) is None,
            all_children(*node, p, 0),
            p == (|n: SyntaxNode| md_node_ok(src@, n)),
            cands_of(out@) + markdown_children(src@, *node, i as int) == mid + markdown_children(
                src@,
                *node,
                0,
            ),
        decreases node.children@.len() - i,
    {
        proof {
            lemma_all_children(*node, p, 0, i as int);
        }
        extract_into(src, &node.children[i], out);
        i = i + 1;
    }
    assert(cands_of(out@) =~= start + markdown_strings(src@, *node));
}

/// The range a link destination, code span, emphasis or strong emphasis
/// stands for.
fn marked_bounds(node: &SyntaxNode) -> (r: (usize, usize))
    requires
        marked_range(*node) matches Some(x) && 0 <= x.0 <= x.1 <= usize::MAX,
    ensures
        marked_range(*node) == Some((r.0 as int, r.1 as int)),
{
    let kind = node.kind.as_str();
    if str_eq(kind, "link_destination") {
        (node.start_byte, node.end_byte)
    } else if str_eq(kind, "code_span") {
        // resolve the content except code_span_delimiter
        let mut content_start = node.start_byte;
        let mut content_end = node.end_byte;
        let mut i: usize = 0;
        while i < node.children.len()
            invariant
                i <= node.children@.len(),
                span_bounds(*node, i as int) == (content_start as int, content_end as int),
            decreases node.children@.len() - i,
        {
            let child = &node.children[i];
            if str_eq(child.kind.as_str(), "code_span_delimiter") {
                if child.start_byte == node.start_byte {
                    content_start = child.end_byte;
                }
                if child.end_byte == node.end_byte {
                    content_end = child.start_byte;
                }
            }
            i = i + 1;
        }
        (content_start, content_end)
    } else if str_eq(kind, "emphasis") {
        // strip *text* or _text_
        (node.start_byte + 1, node.end_byte - 1)
    } else {
        // strip **text** or __text__
        (node.start_byte + 2, node.end_byte - 2)
    }
}

/// The candidate for the text between byte offsets `a` and `b`.
fn piece_between(src: &[char], a: usize, b: usize) -> (c: PathCandidate)
    requires
        byte_slice(src@, a as int, b as int) is Some,
    ensures
        cv(c) == (byte_slice(src@, a as int, b as int)->0, a as nat, b as nat),
{
    let t = get_bytes(src, a, b).unwrap();
    PathCandidate { content: string_of(t.as_slice()), start_byte: a, end_byte: b }
}

/// Candidates read from the text of one node that stands for no range.
fn extract_string_content(src: &[char], node: &SyntaxNode) -> (candidates: Vec<PathCandidate>)
    requires
        md_node_ok(src@, *node),
    ensures
        cands_of(candidates@) == markdown_contents(src@, *node),
{
    let kind = node.kind.as_str();
    let searched = str_eq(kind, "inline") || str_eq(kind, "html_block");
    let split = str_eq(kind, "code_block") || str_eq(kind, "fenced_code_block");
    let mut candidates: Vec<PathCandidate> = Vec::new();
    if !searched && !split {
        assert(cands_of(candidates@) =~= markdown_contents(src@, *node));
        return candidates;
    }
    let text_chars = get_bytes(src, node.start_byte, node.end_byte).unwrap();
    let node_text = string_of(text_chars.as_slice());
    let offset = node.start_byte;
    proof {
        lemma_byte_slice_len(src@, node.start_byte as int, node.end_byte as int);
    }
    if searched {
        proof {
            reveal_strlit("'([^']+)'");
            reveal_strlit("\"([^\"]+)\"");
            assert("'([^']+)'"@ =~= pattern_single_quoted());
            assert("\"([^\"]+)\""@ =~= pattern_double_quoted());
        }
        let single = quoted_candidates("'([^']+)'", node_text.as_str(), offset);
        append_all(&mut candidates, single);
        let double = quoted_candidates("\"([^\"]+)\"", node_text.as_str(), offset);
        append_all(&mut candidates, double);
    }
    let whole = PathCandidate {
        content: string_of(text_chars.as_slice()),
        start_byte: node.start_byte,
        end_byte: node.end_byte,
    };
    let delims = vec![' ', '\n'];
    proof {
        assert(delims@ =~= space_newline());
        assert forall|i: int|
            0 <= i < node_text@.len() && delims@.contains(node_text@[i]) implies crate::text::utf8_width(
            #[trigger] node_text@[i]) == 1 by {
            let k = choose|k: int| 0 <= k < delims@.len() && delims@[k] == node_text@[i];
            assert(k == 0 || k == 1);
        }
    }
    let pieces = whole.split(node_text.as_str(), delims.as_slice());
    append_all(&mut candidates, pieces);
    assert(cands_of(candidates@) =~= markdown_contents(src@, *node));
    candidates
}

/// `v` with later repetitions left out.
fn dedup_candidates(v: &Vec<PathCandidate>) -> (r: Vec<PathCandidate>)
    ensures
        cands_of(r@) == dedup(cands_of(v@)),
{
    let mut r: Vec<PathCandidate> = Vec::new();
    let mut i: usize = 0;
    while i < v.len()
        invariant
            i <= v@.len(),
            cands_of(r@) == dedup(cands_of(v@).take(i as int)),
        decreases v@.len() - i,
    {
        let c = &v[i];
        let ghost cur = cands_of(r@);
        assert(cands_of(v@).take(i + 1).drop_last() =~= cands_of(v@).take(i as int));
        assert(cands_of(v@).take(i + 1).last() == cv(*c));
        let content = chars_of(c.content.as_str());
        let mut seen = false;
        let mut k: usize = 0;
        while k < r.len()
            invariant
                k <= r@.len(),
                cur == cands_of(r@),
                content@ == c.content@,
                seen == exists|m: int| 0 <= m < k && #[trigger] cur[m] == cv(*c),
            decreases r@.len() - k,
        {
            let same = r[k].start_byte == c.start_byte && r[k].end_byte == c.end_byte
                && crate::text::chars_eq(chars_of(r[k].content.as_str()).as_slice(), content.as_slice());
            assert(cur[k as int] == cv(r@[k as int]));
            if same {
                seen = true;
            }
            k = k + 1;
        }
        if !seen {
            let copy = PathCandidate {
                content: string_of(content.as_slice()),
                start_byte: c.start_byte,
                end_byte: c.end_byte,
            };
            r.push(copy);
            assert(cands_of(r@) =~= cur.push(cv(copy)));
        } else {
            assert(cur.contains(cv(*c)));
        }
        i = i + 1;
    }
    assert(cands_of(v@).take(i as int) =~= cands_of(v@));
    r
}

} // verus!
