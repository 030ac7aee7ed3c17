//! The strings of a document: the string nodes of its syntax tree where it
//! has one, else the quoted runs that a regular expression finds; and the
//! path candidates taken from each.

use vstd::prelude::*;

use crate::document::Document;
use crate::parser::languages::Language;
use crate::parser::syntax::{
    byte_slice_or_empty, candidate_between, cv, preorder, syntax_of, tree_nodes, SyntaxNode,
};
use crate::parser::ts_general_cands_of as cands_of;
use crate::parser::PathCandidate;
use crate::parser::quoted::{lemma_next_quote_bounds, next_quote};
use crate::text::{byte_offset, chars_of, contains_slash, is_slash, str_eq, string_of};

verus! {

/// Represents a parsed string in the source code with its range
#[derive(Debug, Clone)]
pub struct StringLiteral {
    pub content: String,
    pub start_byte: usize,
    pub end_byte: usize,
}

pub open spec fn literal_view(s: StringLiteral) -> (Seq<char>, nat, nat) {
    (s.content@, s.start_byte as nat, s.end_byte as nat)
}

pub open spec fn literals_view(v: Seq<StringLiteral>) -> Seq<(Seq<char>, nat, nat)> {
    v.map_values(|s: StringLiteral| literal_view(s))
}

/// Which nodes of a syntax tree count as strings.
#[derive(Debug, Clone, Copy, PartialEq, Eq, Structural)]
pub enum NodeSelection {
    /// The text pieces inside string literals (`string_fragment`,
    /// `string_content`).
    Fragments,
    /// Whole string literals, quotes included.
    Literals,
}

/// A node of kind `kind` is selected for language `l`.
pub open spec fn selects(sel: NodeSelection, l: Language, kind: Seq<char>) -> bool {
    match sel {
        NodeSelection::Fragments => if l == Language::JavaScript || l == Language::TypeScript {
            kind == "string_fragment"@
        } else if l == Language::Python || l == Language::Rust {
            kind == "string_content"@
        } else {
            false
        },
        NodeSelection::Literals => if l == Language::JavaScript || l == Language::TypeScript {
            kind == "string"@ || kind == "template_string"@
        } else if l == Language::Python {
            kind == "string"@
        } else if l == Language::Rust {
            kind == "string_literal"@
        } else if l == Language::Markdown {
            kind == "code_span"@ || kind == "inline_code"@
        } else if l == Language::HTML {
            kind == "attribute_value"@ || kind == "text"@
        } else {
            false
        },
    }
}

/// The selected nodes of the tree under `node`, in preorder: the text of
/// each (`source.get(start..end)`, empty where that is no piece of it) and
/// its byte range.
pub open spec fn selected_nodes(
    src: Seq<char>,
    node: SyntaxNode,
    l: Language,
    sel: NodeSelection,
) -> Seq<(Seq<char>, nat, nat)>
    decreases node, node.children@.len() + 1,
{
    (if selects(sel, l, node.kind@) {
        seq![
            (
                byte_slice_or_empty(src, node.start_byte as int, node.end_byte as int),
                node.start_byte as nat,
                node.end_byte as nat,
            ),
        ]
    } else {
        Seq::empty()
    }) + selected_children(src, node, l, sel, 0)
}

/// The selected nodes of the subtrees of the children of `node` from index
/// `i` on.
pub open spec fn selected_children(
    src: Seq<char>,
    node: SyntaxNode,
    l: Language,
    sel: NodeSelection,
    i: int,
) -> Seq<(Seq<char>, nat, nat)>
    decreases node, node.children@.len() - i,
{
    if 0 <= i < node.children@.len() {
        selected_nodes(src, node.children@[i], l, sel) + selected_children(src, node, l, sel, i + 1)
    } else {
        Seq::empty()
    }
}

/// Determine if a node represents a string literal
pub fn is_string_node(node: &SyntaxNode, language: &Language, sel: NodeSelection) -> (r: bool)
    ensures
        r == selects(sel, *language, node.kind@),
{
    let kind = node.kind.as_str();
    match sel {
        NodeSelection::Fragments => match language {
            Language::JavaScript | Language::TypeScript => str_eq(kind, "string_fragment"),
            Language::Python | Language::Rust => str_eq(kind, "string_content"),
            _ => false,
        },
        NodeSelection::Literals => match language {
            Language::JavaScript | Language::TypeScript => str_eq(kind, "string") || str_eq(
                kind,
                "template_string",
            ),
            Language::Python => str_eq(kind, "string"),
            Language::Rust => str_eq(kind, "string_literal"),
            Language::Markdown => str_eq(kind, "code_span") || str_eq(kind, "inline_code"),
            Language::HTML => str_eq(kind, "attribute_value") || str_eq(kind, "text"),
            _ => false,
        },
    }
}

/// Extract content from a string node
pub fn extract_string_content(src: &[char], node: &SyntaxNode) -> (c: PathCandidate)
    ensures
        cv(c) == (
            byte_slice_or_empty(src@, node.start_byte as int, node.end_byte as int),
            node.start_byte as nat,
            node.end_byte as nat,
        ),
{
    candidate_between(src, node.start_byte, node.end_byte)
}

/// Recursively walk the syntax tree and extract string nodes
pub fn extract_strings_recursive(
    src: &[char],
    node: &SyntaxNode,
    language: &Language,
    sel: NodeSelection,
) -> (strings: Vec<PathCandidate>)
    ensures
        cands_of(strings@) == selected_nodes(src@, *node, *language, sel),
        all_fit(strings@),
{
    let mut strings = Vec::new();
    collect_into(src, node, language, sel, &mut strings);
    assert(cands_of(strings@) =~= selected_nodes(src@, *node, *language, sel));
    strings
}

/// Appends the selected nodes of the tree under `node` to `out`.
fn collect_into(
    src: &[char],
    node: &SyntaxNode,
    language: &Language,
    sel: NodeSelection,
    out: &mut Vec<PathCandidate>,
)
    requires
        all_fit(old(out)@),
    ensures
        cands_of(final(out)@) == cands_of(old(out)@) + selected_nodes(src@, *node, *language, sel),
        all_fit(final(out)@),
    decreases node, node.children@.len() + 1,
{
    let ghost start = cands_of(out@);
    if is_string_node(node, language, sel) {
        let c = extract_string_content(src, node);
        proof {
            lemma_candidate_fits(src@, node.start_byte, node.end_byte, c);
        }
        out.push(c);
        assert(cands_of(out@) =~= start.push(cv(c)));
    }
    let ghost mid = cands_of(out@);
    let mut i: usize = 0;
    while i < node.children.len()
        invariant
            i <= node.children@.len(),
            cands_of(out@) + selected_children(src@, *node, *language, sel, i as int) == mid
                + selected_children(src@, *node, *language, sel, 0),
            all_fit(out@),
        decreases node.children@.len() - i,
    {
        collect_into(src, &node.children[i], language, sel, out);
        i = i + 1;
    }
    assert(cands_of(out@) =~= start + selected_nodes(src@, *node, *language, sel));
}

/// `t` is the syntax tree that the document's tree-sitter tree holds: its
/// preorder listing is the tree's.
pub open spec fn lists_tree(d: Document, t: SyntaxNode) -> bool {
    d.tree is Some && preorder(t) == tree_nodes(d.tree->0)
}

/// Extract string literals from source code using tree-sitter
/// Returns a vector of StringLiteral with their positions in the source
/// (the pieces inside string literals); `None` where the document has no
/// syntax tree.
pub fn extract_strings(document: &Document) -> (r: Option<Vec<PathCandidate>>)
    ensures
        document.tree is None <==> r is None,
        r matches Some(v) ==> all_fit(v@) && exists|t: SyntaxNode|
            lists_tree(*document, t) && cands_of(v@) == selected_nodes(
                document.text@,
                t,
                document.language,
                NodeSelection::Fragments,
            ),
{
    let tree = match &document.tree {
        Some(t) => t,
        None => return None,
    };
    match syntax_of(tree) {
        Some(node) => {
            let src = chars_of(document.text.as_str());
            let v = extract_strings_recursive(src.as_slice(), &node, &document.language, NodeSelection::Fragments);
            assert(lists_tree(*document, node));
            Some(v)
        },
        None => {
            proof {
                assert(false);
            }
            None
        },
    }
}

/// The whole string literals of the document's syntax tree; `None` where
/// the document has no syntax tree.
pub fn extract_literals(document: &Document) -> (r: Option<Vec<StringLiteral>>)
    ensures
        document.tree is None <==> r is None,
        r matches Some(v) ==> exists|t: SyntaxNode|
            lists_tree(*document, t) && literals_view(v@) == selected_nodes(
                document.text@,
                t,
                document.language,
                NodeSelection::Literals,
            ),
{
    let tree = match &document.tree {
        Some(t) => t,
        None => return None,
    };
    match syntax_of(tree) {
        Some(node) => {
            let src = chars_of(document.text.as_str());
            let found = extract_strings_recursive(src.as_slice(), &node, &document.language, NodeSelection::Literals);
            assert(lists_tree(*document, node));
            Some(to_literals(&found))
        },
        None => {
            proof {
                assert(false);
            }
            None
        },
    }
}

/// The candidates as string literals.
pub fn to_literals(v: &Vec<PathCandidate>) -> (r: Vec<StringLiteral>)
    ensures
        literals_view(r@) == cands_of(v@),
{
    let mut r: Vec<StringLiteral> = Vec::new();
    let mut i: usize = 0;
    while i < v.len()
        invariant
            i <= v@.len(),
            literals_view(r@) == cands_of(v@.take(i as int)),
        decreases v@.len() - i,
    {
        let c = &v[i];
        let lit = StringLiteral {
            content: string_of(chars_of(c.content.as_str()).as_slice()),
            start_byte: c.start_byte,
            end_byte: c.end_byte,
        };
        assert(literal_view(lit) == cv(v@[i as int]));
        let ghost before = r@;
        r.push(lit);
        proof {
            assert(v@.take(i + 1) =~= v@.take(i as int).push(v@[i as int]));
            assert(literals_view(r@) =~= literals_view(before).push(literal_view(lit)));
            assert(cands_of(v@.take(i + 1)) =~= cands_of(v@.take(i as int)).push(cv(v@[i as int])));
        }
        i = i + 1;
    }
    assert(v@.take(v@.len() as int) =~= v@);
    r
}

/// `"([^"]*)"|'([^']*)'|`([^`]*)``: a run between two equal quotes of one of
/// the three kinds.
pub open spec fn string_pattern() -> Seq<char> {
    "\"([^\"]*)\"|'([^']*)'|`([^`]*)`"@
}

pub open spec fn is_quote(c: char) -> bool {
    c == '"' || c == '\'' || c == '`'
}

/// Character ranges of the matches that a left-to-right search for
/// [`string_pattern`] finds in `h` from index `p` on: a quote, up to and
/// including the next quote of the same kind.
pub open spec fn quote_matches(h: Seq<char>, p: int) -> Seq<(int, int)>
    decreases h.len() - p,
{
    if p < 0 || p >= h.len() {
        Seq::empty()
    } else if is_quote(h[p]) {
        let e = next_quote(h, h[p], p + 1);
        proof {
            lemma_next_quote_bounds(h, h[p], p + 1);
        }
        if e < h.len() {
            seq![(p, e + 1)] + quote_matches(h, e + 1)
        } else {
            quote_matches(h, p + 1)
        }
    } else {
        quote_matches(h, p + 1)
    }
}

pub proof fn lemma_quote_matches_in_range(h: Seq<char>, p: int)
    requires
        0 <= p,
    ensures
        forall|i: int|
            0 <= i < quote_matches(h, p).len() ==> p <= #[trigger] quote_matches(h, p)[i].0
                < quote_matches(h, p)[i].1 <= h.len(),
    decreases h.len() - p,
{
    if p < h.len() {
        let q = quote_matches(h, p);
        if is_quote(h[p]) {
            let e = next_quote(h, h[p], p + 1);
            lemma_next_quote_bounds(h, h[p], p + 1);
            if e < h.len() {
                lemma_quote_matches_in_range(h, e + 1);
                let rest = quote_matches(h, e + 1);
                assert(q == seq![(p, e + 1)] + rest);
                assert forall|i: int| 0 <= i < q.len() implies p <= #[trigger] q[i].0 < q[i].1
                    <= h.len() by {
                    if i > 0 {
                        assert(q[i] == rest[i - 1]);
                    }
                }
            } else {
                lemma_quote_matches_in_range(h, p + 1);
                assert(q == quote_matches(h, p + 1));
            }
        } else {
            lemma_quote_matches_in_range(h, p + 1);
            assert(q == quote_matches(h, p + 1));
        }
    }
}

/// The candidates of the quoted runs of `text`: each run's text, quotes
/// included, with its byte range.
pub open spec fn quoted_runs(text: Seq<char>) -> Seq<(Seq<char>, nat, nat)> {
    quote_matches(text, 0).map_values(
        |g: (int, int)| (text.subrange(g.0, g.1), byte_offset(text, g.0), byte_offset(text, g.1)),
    )
}

/// The byte range of every match of `pattern` in `haystack`, in order
/// (`Regex::new(pattern)`, then `find_iter(haystack)`, with `start` and `end`
/// of each match), for the pattern of the quoted runs, whose matches the
/// contract states.
#[verifier::external_body]
fn regex_match_spans(pattern: &str, haystack: &str) -> (res: Vec<(usize, usize)>)
    requires
        pattern@ == string_pattern(),
    ensures
        res@.len() == quote_matches(haystack@, 0).len(),
        forall|i: int|
            0 <= i < res@.len() ==> #[trigger] res@[i].0 == byte_offset(
                haystack@,
                quote_matches(haystack@, 0)[i].0,
            ) && res@[i].1 == byte_offset(haystack@, quote_matches(haystack@, 0)[i].1),
{
    let re = regex::Regex::new(pattern).unwrap();
    re.find_iter(haystack).map(|m| (m.start(), m.end())).collect()
}

/// Regex based parser for fullback: the quoted runs of the document's text.
pub fn extract_general(document: &Document) -> (r: Option<Vec<PathCandidate>>)
    ensures
        r matches Some(v) && cands_of(v@) == quoted_runs(document.text@) && all_fit(v@),
{
    let text = document.text.as_str();
    let spans = regex_match_spans("\"([^\"]*)\"|'([^']*)'|`([^`]*)`", text);
    let src = chars_of(text);
    let ghost g = quote_matches(text@, 0);
    proof {
        lemma_quote_matches_in_range(text@, 0);
    }
    let mut strings: Vec<PathCandidate> = Vec::new();
    let mut i: usize = 0;
    while i < spans.len()
        invariant
            i <= spans@.len(),
            src@ == text@,
            g == quote_matches(text@, 0),
            spans@.len() == g.len(),
            forall|k: int|
                0 <= k < spans@.len() ==> #[trigger] spans@[k].0 == byte_offset(text@, g[k].0)
                    && spans@[k].1 == byte_offset(text@, g[k].1),
            forall|k: int| 0 <= k < g.len() ==> 0 <= #[trigger] g[k].0 < g[k].1 <= text@.len(),
            cands_of(strings@) == quoted_runs(text@).take(i as int),
            all_fit(strings@),
        decreases spans@.len() - i,
    {
        let (a, b) = spans[i];
        let ghost ga = g[i as int].0;
        let ghost gb = g[i as int].1;
        assert(0 <= ga < gb <= text@.len());
        proof {
            crate::text::lemma_byte_offset_mono(text@, ga, gb);
            crate::text::lemma_byte_offset_injective(
                text@,
                ga,
                crate::parser::syntax::char_at(text@, a as int),
            );
            crate::text::lemma_byte_offset_injective(
                text@,
                gb,
                crate::parser::syntax::char_at(text@, b as int),
            );
        }
        let c = candidate_between(src.as_slice(), a, b);
        proof {
            lemma_candidate_fits(src@, a, b, c);
        }
        let ghost before = strings@;
        strings.push(c);
        proof {
            assert(quoted_runs(text@)[i as int] == cv(c));
            assert(quoted_runs(text@).take(i + 1) =~= quoted_runs(text@).take(i as int).push(
                cv(c),
            ));
            assert(cands_of(strings@) =~= cands_of(before).push(cv(c)));
        }
        i = i + 1;
    }
    assert(quoted_runs(text@).take(i as int) =~= quoted_runs(text@));
    Some(strings)
}

/// The strings of the document: the pieces inside its string literals where
/// it has a syntax tree, else its quoted runs.
pub fn extract_string(document: &Document) -> (r: Vec<PathCandidate>)
    ensures
        document.tree is None ==> cands_of(r@) == quoted_runs(document.text@),
        document.tree is Some ==> exists|t: SyntaxNode|
            lists_tree(*document, t) && cands_of(r@) == selected_nodes(
                document.text@,
                t,
                document.language,
                NodeSelection::Fragments,
            ),
        all_fit(r@),
{
    let res = extract_strings(document);
    if let Some(res) = res {
        res
    } else {
        // fall back to general parser
        match extract_general(document) {
            Some(v) => v,
            None => Vec::new(),
        }
    }
}

/// The whole string literals of the document where it has a syntax tree,
/// else its quoted runs.
pub fn extract_string_literals(document: &Document) -> (r: Vec<StringLiteral>)
    ensures
        document.tree is None ==> literals_view(r@) == quoted_runs(document.text@),
        document.tree is Some ==> exists|t: SyntaxNode|
            lists_tree(*document, t) && literals_view(r@) == selected_nodes(
                document.text@,
                t,
                document.language,
                NodeSelection::Literals,
            ),
{
    let res = extract_literals(document);
    if let Some(res) = res {
        res
    } else {
        match extract_general(document) {
            Some(v) => to_literals(&v),
            None => Vec::new(),
        }
    }
}

pub open spec fn has_slash(s: Seq<char>) -> bool {
    exists|j: int| 0 <= j < s.len() && is_slash(#[trigger] s[j])
}

/// Index of the last space of `s`.
pub open spec fn last_space(s: Seq<char>) -> int {
    choose|i: int| 0 <= i < s.len() && s[i] == ' ' && forall|j: int| i < j < s.len() ==> s[j] != ' '
}

/// The path candidates of a string, from high priority to low: the whole
/// string where it holds a slash or a backslash, then the part after its
/// last space where there is one and that part holds one.
pub open spec fn path_pieces(c: (Seq<char>, nat, nat)) -> Seq<(Seq<char>, nat, nat)> {
    let s = c.0;
    (if has_slash(s) {
        seq![c]
    } else {
        Seq::empty()
    }) + (if s.contains(' ') && has_slash(s.skip(last_space(s) + 1)) {
        seq![
            (
                s.skip(last_space(s) + 1),
                c.1 + byte_offset(s, last_space(s)) + 1,
                c.2,
            ),
        ]
    } else {
        Seq::empty()
    })
}

/// Every path candidate of a string holds a slash or a backslash, and the
/// second, where there is one, is a tail of the string that ends where the
/// string ends.
pub proof fn lemma_path_pieces(c: (Seq<char>, nat, nat))
    ensures
        forall|i: int| 0 <= i < path_pieces(c).len() ==> has_slash(#[trigger] path_pieces(c)[i].0),
        forall|i: int|
            0 <= i < path_pieces(c).len() ==> c.0.is_suffix_of(#[trigger] path_pieces(c)[i].0)
                || path_pieces(c)[i].0.is_suffix_of(c.0),
        forall|i: int| 0 <= i < path_pieces(c).len() ==> #[trigger] path_pieces(c)[i].2 == c.2,
{
    let s = c.0;
    if s.contains(' ') && has_slash(s.skip(last_space(s) + 1)) {
        let k = choose|k: int| 0 <= k < s.len() && s[k] == ' ';
        crate::text::lemma_last_occurrence(s, ' ', k);
        let t = s.skip(last_space(s) + 1);
        assert(0 <= last_space(s) < s.len());
        assert(t =~= s.subrange(s.len() - t.len(), s.len() as int));
    }
    assert forall|i: int|
        0 <= i < path_pieces(c).len() implies c.0.is_suffix_of(#[trigger] path_pieces(c)[i].0)
        || path_pieces(c)[i].0.is_suffix_of(c.0) by {
        if path_pieces(c)[i].0 == c.0 {
            assert(c.0.subrange(0, c.0.len() as int) =~= c.0);
        }
    }
}

/// Try to extract paths from a string token,
/// return candidates, from high priority to low priority
pub fn extract_paths_from_string(path_ref: PathCandidate) -> (results: Vec<PathCandidate>)
    requires
        path_ref.fits(),
    ensures
        cands_of(results@) == path_pieces(cv(path_ref)),
{
    let mut results: Vec<PathCandidate> = Vec::new();
    let content = chars_of(path_ref.content.as_str());

    // 1. whole string is a path or not
    if contains_slash(content.as_slice()) {
        results.push(copy_candidate(&path_ref));
    }
    let ghost first = cands_of(results@);
    assert(first =~= if has_slash(content@) {
        seq![cv(path_ref)]
    } else {
        Seq::<(Seq<char>, nat, nat)>::empty()
    });

    // 2. the part of string (split by space) is a path or not
    if let Some(pos) = crate::parser::line::rfind_char(content.as_slice(), ' ') {
        assert(pos < content.len());
        let sub = crate::text::slice_chars(content.as_slice(), pos + 1, content.len());
        assert(sub@ =~= content@.skip(pos + 1));
        if contains_slash(sub.as_slice()) {
            proof {
                crate::text::lemma_byte_offset_step(content@, pos as int);
                crate::text::lemma_byte_offset_mono(content@, pos + 1, content@.len() as int);
                crate::text::lemma_byte_offset_full(content@);
                assert(content@.contains(' '));
                assert(last_space(content@) == pos) by {
                    let k = last_space(content@);
                    if k < pos {
                    } else if k > pos {
                    }
                }
            }
            let pos_byte = crate::text::byte_len_of(crate::text::slice_chars(content.as_slice(), 0, pos).as_slice());
            assert(content@.subrange(0, pos as int) =~= content@.take(pos as int));
            results.push(
                PathCandidate {
                    content: string_of(sub.as_slice()),
                    start_byte: path_ref.start_byte + pos_byte + 1,
                    end_byte: path_ref.end_byte,
                },
            );
        }
    }
    assert(cands_of(results@) =~= path_pieces(cv(path_ref)));
    results
}

/// A copy of a candidate.
fn copy_candidate(c: &PathCandidate) -> (r: PathCandidate)
    ensures
        cv(r) == cv(*c),
{
    PathCandidate {
        content: string_of(chars_of(c.content.as_str()).as_slice()),
        start_byte: c.start_byte,
        end_byte: c.end_byte,
    }
}


/// Every candidate's byte positions fit in `usize`.
pub open spec fn all_fit(v: Seq<PathCandidate>) -> bool {
    forall|i: int| 0 <= i < v.len() ==> #[trigger] v[i].fits()
}

proof fn lemma_candidate_fits(src: Seq<char>, a: usize, b: usize, c: PathCandidate)
    requires
        cv(c) == (byte_slice_or_empty(src, a as int, b as int), a as nat, b as nat),
    ensures
        c.fits(),
{
    if crate::parser::syntax::byte_slice(src, a as int, b as int) is Some {
        crate::parser::syntax::lemma_byte_slice_len(src, a as int, b as int);
    }
}

/// The path candidates of each of `strings`, one list per string.
pub fn paths_of_strings(strings: Vec<PathCandidate>) -> (r: Vec<Vec<PathCandidate>>)
    requires
        all_fit(strings@),
    ensures
        r@.len() == strings@.len(),
        forall|i: int| 0 <= i < r@.len() ==> cands_of(#[trigger] r@[i]@) == path_pieces(cv(strings@[i])),
{
    let mut r: Vec<Vec<PathCandidate>> = Vec::new();
    let ghost all = strings@;
    let mut i: usize = 0;
    let n = strings.len();
    while i < n
        invariant
            n == all.len(),
            i <= n,
            strings@ == all,
            all_fit(all),
            r@.len() == i,
            forall|k: int| 0 <= k < i ==> cands_of(#[trigger] r@[k]@) == path_pieces(cv(all[k])),
        decreases n - i,
    {
        let c = copy_candidate(&strings[i]);
        assert(all[i as int].fits());
        let found = extract_paths_from_string(c);
        r.push(found);
        i = i + 1;
    }
    r
}

/// The path candidates of every string of the document, one list per
/// string.
pub fn parse_document(document: &Document) -> (r: Vec<Vec<PathCandidate>>)
    ensures
        document.tree is None ==> r@.len() == quoted_runs(document.text@).len() && forall|i: int|
            0 <= i < r@.len() ==> cands_of(#[trigger] r@[i]@) == path_pieces(
                quoted_runs(document.text@)[i],
            ),
        document.tree is Some ==> exists|t: SyntaxNode|
            #![trigger selected_nodes(document.text@, t, document.language, NodeSelection::Fragments)]
            lists_tree(*document, t) && r@.len() == selected_nodes(document.text@, t, document.language, NodeSelection::Fragments).len()
                && forall|i: int|
                0 <= i < r@.len() ==> cands_of(#[trigger] r@[i]@) == path_pieces(
                    selected_nodes(document.text@, t, document.language, NodeSelection::Fragments)[i],
                ),
{
    let strings = extract_string(document);
    let ghost sv = cands_of(strings@);
    let r = paths_of_strings(strings);
    assert(forall|i: int| 0 <= i < r@.len() ==> cands_of(#[trigger] r@[i]@) == path_pieces(sv[i]));
    r
}

} // verus!
