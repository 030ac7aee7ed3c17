//! Syntax trees of documents and the extraction of string contents from them.
//!
//! A tree is held as plain values ([`SyntaxNode`]): each node has its kind,
//! its byte range in the source and its children, in order.

pub mod ts_dockerfile;
pub mod ts_general;
pub mod ts_html;
pub mod ts_markdown;

use vstd::prelude::*;

use crate::parser::languages;
use crate::parser::PathCandidate;
use crate::error::{PathServerError, PathServerResult};
use crate::text::{
    byte_offset, char_index_of_byte, chars_of, concat_chars, is_boundary, slice_chars, string_of,
};

verus! {

/// A node of a syntax tree: its kind, its byte range in the source text, and
/// its children in order.
pub struct SyntaxNode {
    pub kind: String,
    pub start_byte: usize,
    pub end_byte: usize,
    pub children: Vec<SyntaxNode>,
}

/// Character index at which byte offset `b` of `s` falls (meaningful where
/// `b` is a boundary of `s`).
pub open spec fn char_at(s: Seq<char>, b: int) -> int {
    choose|k: int| 0 <= k <= s.len() && byte_offset(s, k) == b
}

/// What `source.get(a..b)` holds: the characters between byte offsets `a` and
/// `b`, where both are character boundaries and `a <= b`; otherwise nothing.
pub open spec fn byte_slice(s: Seq<char>, a: int, b: int) -> Option<Seq<char>> {
    if a <= b && is_boundary(s, a) && is_boundary(s, b) {
        Some(s.subrange(char_at(s, a), char_at(s, b)))
    } else {
        None
    }
}

/// `source.get(a..b).unwrap_or("")`.
pub open spec fn byte_slice_or_empty(s: Seq<char>, a: int, b: int) -> Seq<char> {
    match byte_slice(s, a, b) {
        Some(t) => t,
        None => Seq::empty(),
    }
}

/// Text and byte range of a candidate.
pub open spec fn cv(c: PathCandidate) -> (Seq<char>, nat, nat) {
    (c.content@, c.start_byte as nat, c.end_byte as nat)
}

/// The characters of `s` between byte offsets `a` and `b`, where both are
/// boundaries and `a <= b`.
pub fn get_bytes(s: &[char], a: usize, b: usize) -> (r: Option<Vec<char>>)
    ensures
        match byte_slice(s@, a as int, b as int) {
            Some(t) => r is Some && r->0@ == t,
            None => r is None,
        },
{
    if a > b {
        return None;
    }
    let i = match char_index_of_byte(s, a) {
        Some(i) => i,
        None => return None,
    };
    let j = match char_index_of_byte(s, b) {
        Some(j) => j,
        None => return None,
    };
    proof {
        let ci = char_at(s@, a as int);
        let cj = char_at(s@, b as int);
        crate::text::lemma_byte_offset_injective(s@, i as int, ci);
        crate::text::lemma_byte_offset_injective(s@, j as int, cj);
        if j < i {
            crate::text::lemma_byte_offset_mono(s@, j as int, i as int);
        }
    }
    Some(slice_chars(s, i, j))
}

/// A candidate holding `source.get(a..b).unwrap_or("")` with the range `a..b`.
pub fn candidate_between(s: &[char], a: usize, b: usize) -> (c: PathCandidate)
    ensures
        cv(c) == (byte_slice_or_empty(s@, a as int, b as int), a as nat, b as nat),
{
    let content = match get_bytes(s, a, b) {
        Some(t) => string_of(t.as_slice()),
        None => string_of(slice_chars(s, 0, 0).as_slice()),
    };
    PathCandidate { content, start_byte: a, end_byte: b }
}

/// Every node of the tree under `node` satisfies `p`.
pub open spec fn all_nodes(node: SyntaxNode, p: spec_fn(SyntaxNode) -> bool) -> bool
    decreases node, node.children@.len() + 1,
{
    p(node) && all_children(node, p, 0)
}

/// Every node of the subtrees of the children of `node` from index `i` on
/// satisfies `p`.
pub open spec fn all_children(node: SyntaxNode, p: spec_fn(SyntaxNode) -> bool, i: int) -> bool
    decreases node, node.children@.len() - i,
{
    if 0 <= i < node.children@.len() {
        all_nodes(node.children@[i], p) && all_children(node, p, i + 1)
    } else {
        true
    }
}

pub proof fn lemma_all_children(node: SyntaxNode, p: spec_fn(SyntaxNode) -> bool, i: int, j: int)
    requires
        0 <= i <= j < node.children@.len(),
        all_children(node, p, i),
    ensures
        all_nodes(node.children@[j], p),
    decreases j - i,
{
    if i < j {
        lemma_all_children(node, p, i + 1, j);
    }
}

/// Byte length of the text between two boundaries.
pub proof fn lemma_byte_slice_len(s: Seq<char>, a: int, b: int)
    requires
        byte_slice(s, a, b) is Some,
    ensures
        crate::text::byte_len(byte_slice(s, a, b)->0) == b - a,
        0 <= a <= b,
{
    let i = char_at(s, a);
    let j = char_at(s, b);
    if j < i {
        crate::text::lemma_byte_offset_mono(s, j, i);
    }
    crate::text::lemma_byte_offset_subrange(s, i, j);
}

/// Grammars of the tree-sitter parser that are at hand.
#[derive(Debug, Clone, Copy, PartialEq, Eq, Structural)]
pub enum Grammar {
    JavaScript,
    TypeScript,
    Python,
    Rust,
}

/// The grammar for `l`, where there is one.
pub open spec fn grammar_of(l: languages::Language) -> Option<Grammar> {
    match l {
        languages::Language::JavaScript => Some(Grammar::JavaScript),
        languages::Language::TypeScript => Some(Grammar::TypeScript),
        languages::Language::Python => Some(Grammar::Python),
        languages::Language::Rust => Some(Grammar::Rust),
        _ => None,
    }
}

/// Languages for which a grammar is at hand.
pub open spec fn has_grammar(l: languages::Language) -> bool {
    grammar_of(l) is Some
}

/// Convert from Language, return None if not supported
pub fn from_language(language: &languages::Language) -> (r: Option<Grammar>)
    ensures
        r == grammar_of(*language),
{
    match language {
        languages::Language::JavaScript => Some(Grammar::JavaScript),
        languages::Language::TypeScript => Some(Grammar::TypeScript),
        languages::Language::Python => Some(Grammar::Python),
        languages::Language::Rust => Some(Grammar::Rust),
        _ => None,
    }
}

/// One node of a syntax tree listed in preorder: its kind, its byte range
/// and its number of children.
pub struct FlatNode {
    pub kind: String,
    pub start_byte: usize,
    pub end_byte: usize,
    pub child_count: u32,
}

pub open spec fn flat_view(f: FlatNode) -> (Seq<char>, nat, nat, nat) {
    (f.kind@, f.start_byte as nat, f.end_byte as nat, f.child_count as nat)
}

pub open spec fn flats_view(v: Seq<FlatNode>) -> Seq<(Seq<char>, nat, nat, nat)> {
    v.map_values(|f: FlatNode| flat_view(f))
}

/// The nodes of the tree under `node` in preorder, each with its number of
/// children.
pub open spec fn preorder(node: SyntaxNode) -> Seq<(Seq<char>, nat, nat, nat)>
    decreases node,
{
    seq![
        (
            node.kind@,
            node.start_byte as nat,
            node.end_byte as nat,
            node.children@.len(),
        ),
    ] + preorder_list(node.children@)
}

/// The preorder listings of the trees `ch`, one after the other.
pub open spec fn preorder_list(ch: Seq<SyntaxNode>) -> Seq<(Seq<char>, nat, nat, nat)>
    decreases ch,
{
    if ch.len() == 0 {
        Seq::empty()
    } else {
        preorder_list(ch.drop_last()) + preorder(ch.last())
    }
}

/// A syntax tree built by the tree-sitter parser.
#[verifier::external_type_specification]
#[verifier::external_body]
pub struct ExTree(tree_sitter::Tree);

/// The nodes that a tree-sitter tree holds, in preorder: kind, byte range
/// and number of children of each.
pub uninterp spec fn tree_nodes(tree: tree_sitter::Tree) -> Seq<(Seq<char>, nat, nat, nat)>;

/// The nodes, in preorder, of the tree that tree-sitter's JavaScript grammar
/// builds for `text`.
pub uninterp spec fn javascript_syntax(text: Seq<char>) -> Seq<(Seq<char>, nat, nat, nat)>;

/// The nodes, in preorder, of the tree that tree-sitter's TypeScript grammar
/// builds for `text`.
pub uninterp spec fn typescript_syntax(text: Seq<char>) -> Seq<(Seq<char>, nat, nat, nat)>;

/// The nodes, in preorder, of the tree that tree-sitter's Python grammar
/// builds for `text`.
pub uninterp spec fn python_syntax(text: Seq<char>) -> Seq<(Seq<char>, nat, nat, nat)>;

/// The nodes, in preorder, of the tree that tree-sitter's Rust grammar
/// builds for `text`.
pub uninterp spec fn rust_syntax(text: Seq<char>) -> Seq<(Seq<char>, nat, nat, nat)>;

/// The nodes, in preorder, of the tree that the grammar of `l` builds for
/// `text` (none for a language without a grammar).
pub open spec fn syntax_listing(l: languages::Language, text: Seq<char>) -> Seq<
    (Seq<char>, nat, nat, nat),
> {
    match grammar_of(l) {
        Some(Grammar::JavaScript) => javascript_syntax(text),
        Some(Grammar::TypeScript) => typescript_syntax(text),
        Some(Grammar::Python) => python_syntax(text),
        Some(Grammar::Rust) => rust_syntax(text),
        None => Seq::empty(),
    }
}

/// `tree_sitter::Parser::new`, `set_language` with `tree_sitter_javascript::LANGUAGE`, then
/// `parse` of `text` as a new document. Stated: a tree comes back, and what
/// it holds is named (`javascript_syntax`). `Err` would hold the text of the
/// `LanguageError`; there is none: the grammar's ABI version (14 or 15) lies
/// in the range that `set_language` accepts (13 to 15) and the grammar has a
/// lexer, and `parse` gives `None` only where no language is set.
#[verifier::external_body]
fn parse_javascript(text: &str) -> (r: Result<Option<tree_sitter::Tree>, String>)
    ensures
        r is Ok && r->Ok_0 is Some && tree_nodes(r->Ok_0->0) == javascript_syntax(text@),
{
    let mut parser = tree_sitter::Parser::new();
    match parser.set_language(&tree_sitter_javascript::LANGUAGE.into()) {
        Ok(()) => Ok(parser.parse(text, None)),
        Err(e) => Err(e.to_string()),
    }
}

/// `tree_sitter::Parser::new`, `set_language` with `tree_sitter_typescript::LANGUAGE_TYPESCRIPT`, then
/// `parse` of `text` as a new document. Stated: a tree comes back, and what
/// it holds is named (`typescript_syntax`). `Err` would hold the text of the
/// `LanguageError`; there is none: the grammar's ABI version (14 or 15) lies
/// in the range that `set_language` accepts (13 to 15) and the grammar has a
/// lexer, and `parse` gives `None` only where no language is set.
#[verifier::external_body]
fn parse_typescript(text: &str) -> (r: Result<Option<tree_sitter::Tree>, String>)
    ensures
        r is Ok && r->Ok_0 is Some && tree_nodes(r->Ok_0->0) == typescript_syntax(text@),
{
    let mut parser = tree_sitter::Parser::new();
    match parser.set_language(&tree_sitter_typescript::LANGUAGE_TYPESCRIPT.into()) {
        Ok(()) => Ok(parser.parse(text, None)),
        Err(e) => Err(e.to_string()),
    }
}

/// `tree_sitter::Parser::new`, `set_language` with `tree_sitter_python::LANGUAGE`, then
/// `parse` of `text` as a new document. Stated: a tree comes back, and what
/// it holds is named (`python_syntax`). `Err` would hold the text of the
/// `LanguageError`; there is none: the grammar's ABI version (14 or 15) lies
/// in the range that `set_language` accepts (13 to 15) and the grammar has a
/// lexer, and `parse` gives `None` only where no language is set.
#[verifier::external_body]
fn parse_python(text: &str) -> (r: Result<Option<tree_sitter::Tree>, String>)
    ensures
        r is Ok && r->Ok_0 is Some && tree_nodes(r->Ok_0->0) == python_syntax(text@),
{
    let mut parser = tree_sitter::Parser::new();
    match parser.set_language(&tree_sitter_python::LANGUAGE.into()) {
        Ok(()) => Ok(parser.parse(text, None)),
        Err(e) => Err(e.to_string()),
    }
}

/// `tree_sitter::Parser::new`, `set_language` with `tree_sitter_rust::LANGUAGE`, then
/// `parse` of `text` as a new document. Stated: a tree comes back, and what
/// it holds is named (`rust_syntax`). `Err` would hold the text of the
/// `LanguageError`; there is none: the grammar's ABI version (14 or 15) lies
/// in the range that `set_language` accepts (13 to 15) and the grammar has a
/// lexer, and `parse` gives `None` only where no language is set.
#[verifier::external_body]
fn parse_rust(text: &str) -> (r: Result<Option<tree_sitter::Tree>, String>)
    ensures
        r is Ok && r->Ok_0 is Some && tree_nodes(r->Ok_0->0) == rust_syntax(text@),
{
    let mut parser = tree_sitter::Parser::new();
    match parser.set_language(&tree_sitter_rust::LANGUAGE.into()) {
        Ok(()) => Ok(parser.parse(text, None)),
        Err(e) => Err(e.to_string()),
    }
}

/// A node of a tree-sitter syntax tree.
#[verifier::external_type_specification]
#[verifier::external_body]
pub struct ExNode<'tree>(tree_sitter::Node<'tree>);

/// The nodes under a tree-sitter node, the node itself first, in preorder:
/// kind, byte range and number of children of each.
pub uninterp spec fn subtree_nodes(node: tree_sitter::Node) -> Seq<(Seq<char>, nat, nat, nat)>;

/// `tree_sitter::Tree::root_node`. Stated: the root's subtree is what the
/// tree holds, and it is the preorder listing of one tree (a node's children
/// are the ones that `child_count` counts and `child` indexes).
#[verifier::external_body]
fn root_of(tree: &tree_sitter::Tree) -> (r: tree_sitter::Node<'_>)
    ensures
        subtree_nodes(r) == tree_nodes(*tree),
        exists|t: SyntaxNode| preorder(t) == subtree_nodes(r),
{
    tree.root_node()
}

/// `tree_sitter::Node::kind`, copied into a `String`. Stated: the kind of the
/// node, first in its subtree's listing.
#[verifier::external_body]
fn node_kind(node: tree_sitter::Node<'_>) -> (r: String)
    requires
        subtree_nodes(node).len() > 0,
    ensures
        r@ == subtree_nodes(node)[0].0,
{
    node.kind().to_string()
}

/// `tree_sitter::Node::start_byte`. Stated: the node's first byte, as its
/// subtree's listing gives it.
#[verifier::external_body]
fn node_start_byte(node: tree_sitter::Node<'_>) -> (r: usize)
    requires
        subtree_nodes(node).len() > 0,
    ensures
        r == subtree_nodes(node)[0].1,
{
    node.start_byte()
}

/// `tree_sitter::Node::end_byte`. Stated: the byte after the node, as its
/// subtree's listing gives it.
#[verifier::external_body]
fn node_end_byte(node: tree_sitter::Node<'_>) -> (r: usize)
    requires
        subtree_nodes(node).len() > 0,
    ensures
        r == subtree_nodes(node)[0].2,
{
    node.end_byte()
}

/// `tree_sitter::Node::child_count`. Stated: the number of children, as the
/// subtree's listing gives it.
#[verifier::external_body]
fn node_child_count(node: tree_sitter::Node<'_>) -> (r: u32)
    requires
        subtree_nodes(node).len() > 0,
    ensures
        r == subtree_nodes(node)[0].3,
{
    node.child_count()
}

/// `tree_sitter::Node::child`. Stated, for an index below the number of
/// children: a child comes back, and its subtree is the `i`-th subtree of
/// the node (in any tree whose listing is the node's).
#[verifier::external_body]
fn node_child<'tree>(node: tree_sitter::Node<'tree>, i: u32) -> (r: Option<tree_sitter::Node<'tree>>)
    requires
        subtree_nodes(node).len() > 0,
        i < subtree_nodes(node)[0].3,
    ensures
        r is Some,
        forall|t: SyntaxNode|
            #[trigger] preorder(t) == subtree_nodes(node) ==> preorder(t.children@[i as int])
                == subtree_nodes(r->0),
{
    node.child(i)
}

/// The listing of a child of `t` is shorter than the listing of `t`.
proof fn lemma_child_listing_shorter(t: SyntaxNode, i: int)
    requires
        0 <= i < t.children@.len(),
    ensures
        preorder(t.children@[i]).len() < preorder(t).len(),
{
    let ch = t.children@;
    lemma_preorder_list_prefix(ch, i + 1);
    assert(ch.take(i + 1).drop_last() =~= ch.take(i));
    assert(ch.take(i + 1).last() == ch[i]);
}

/// Appends the listing of the subtree under `node` to `out`.
fn flatten_node(node: tree_sitter::Node<'_>, out: &mut Vec<FlatNode>)
    requires
        exists|t: SyntaxNode| preorder(t) == subtree_nodes(node),
    ensures
        flats_view(final(out)@) == flats_view(old(out)@) + subtree_nodes(node),
    decreases subtree_nodes(node).len(),
{
    let ghost t = choose|t: SyntaxNode| preorder(t) == subtree_nodes(node);
    let ghost before = flats_view(out@);
    let kind = node_kind(node);
    let start_byte = node_start_byte(node);
    let end_byte = node_end_byte(node);
    let count = node_child_count(node);
    let ghost head = (kind@, start_byte as nat, end_byte as nat, count as nat);
    assert(preorder(t)[0] == head);
    out.push(FlatNode { kind, start_byte, end_byte, child_count: count });
    assert(flats_view(out@) =~= before + seq![head]);
    let ghost ch = t.children@;
    assert(ch.take(0) =~= Seq::<SyntaxNode>::empty());
    let mut i: u32 = 0;
    while i < count
        invariant
            preorder(t) == subtree_nodes(node),
            ch == t.children@,
            count == ch.len(),
            subtree_nodes(node).len() > 0,
            count == subtree_nodes(node)[0].3,
            i <= count,
            flats_view(out@) == before + seq![head] + preorder_list(ch.take(i as int)),
        decreases count - i,
    {
        let child = node_child(node, i);
        match child {
            Some(c) => {
                proof {
                    lemma_child_listing_shorter(t, i as int);
                }
                flatten_node(c, out);
                proof {
                    assert(ch.take(i + 1).drop_last() =~= ch.take(i as int));
                    assert(ch.take(i + 1).last() == ch[i as int]);
                    assert(preorder_list(ch.take(i + 1)) == preorder_list(ch.take(i as int))
                        + preorder(ch[i as int]));
                    assert(flats_view(out@) =~= before + seq![head] + preorder_list(
                        ch.take(i + 1),
                    ));
                }
            },
            None => {},
        }
        i = i + 1;
    }
    assert(ch.take(i as int) =~= ch);
    assert(preorder(t) == seq![head] + preorder_list(ch));
    assert(flats_view(out@) =~= before + subtree_nodes(node));
}

/// The nodes of `tree` in preorder, each as a [`FlatNode`] (kind, byte range,
/// number of children): what the tree holds, the preorder listing of one
/// tree.
fn flatten_tree(tree: &tree_sitter::Tree) -> (r: Vec<FlatNode>)
    ensures
        flats_view(r@) == tree_nodes(*tree),
        exists|t: SyntaxNode| preorder(t) == flats_view(r@),
{
    let root = root_of(tree);
    let mut out: Vec<FlatNode> = Vec::new();
    flatten_node(root, &mut out);
    assert(flats_view(out@) =~= subtree_nodes(root));
    out
}

/// The preorder listing of `t` stands in `flat` from `pos` on.
pub open spec fn placed(flat: Seq<(Seq<char>, nat, nat, nat)>, pos: int, t: SyntaxNode) -> bool {
    0 <= pos && pos + preorder(t).len() <= flat.len() && flat.subrange(
        pos,
        pos + preorder(t).len(),
    ) == preorder(t)
}

/// The listings of the first `k` trees start the listing of all of them.
proof fn lemma_preorder_list_prefix(ch: Seq<SyntaxNode>, k: int)
    requires
        0 <= k <= ch.len(),
    ensures
        preorder_list(ch.take(k)).len() <= preorder_list(ch).len(),
        preorder_list(ch).subrange(0, preorder_list(ch.take(k)).len() as int) == preorder_list(
            ch.take(k),
        ),
    decreases ch.len() - k,
{
    if k == ch.len() {
        assert(ch.take(k) =~= ch);
        assert(preorder_list(ch).subrange(0, preorder_list(ch).len() as int) =~= preorder_list(ch));
    } else {
        lemma_preorder_list_prefix(ch.drop_last(), k);
        assert(ch.drop_last().take(k) =~= ch.take(k));
        let a = preorder_list(ch.drop_last());
        let b = preorder(ch.last());
        assert(preorder_list(ch) == a + b);
        assert((a + b).subrange(0, preorder_list(ch.take(k)).len() as int) =~= a.subrange(
            0,
            preorder_list(ch.take(k)).len() as int,
        ));
    }
}

/// Rebuilds the tree whose preorder listing starts at `pos` in `flat`, and
/// returns it with the position after its listing; where the listing of a
/// tree `t` stands there (`expected`), it is rebuilt to its end.
fn build_from(flat: &Vec<FlatNode>, pos: usize, Ghost(expected): Ghost<Option<SyntaxNode>>) -> (r:
    Option<(SyntaxNode, usize)>)
    ensures
        r matches Some((t, n)) ==> pos < n <= flat@.len() && preorder(t) == flats_view(
            flat@,
        ).subrange(pos as int, n as int),
        expected is Some && placed(flats_view(flat@), pos as int, expected->0) ==> (r matches Some(
            (_, n),
        ) && n == pos + preorder(expected->0).len()),
    decreases flat@.len() - pos,
{
    let ghost fv = flats_view(flat@);
    let ghost hit = expected is Some && placed(fv, pos as int, expected->0);
    let ghost et = expected->0;
    if pos >= flat.len() {
        proof {
            if hit {
                assert(preorder(et).len() >= 1);
            }
        }
        return None;
    }
    let f = &flat[pos];
    proof {
        if hit {
            assert(fv[pos as int] == preorder(et)[0]);
            assert(preorder(et) == seq![
                (et.kind@, et.start_byte as nat, et.end_byte as nat, et.children@.len()),
            ] + preorder_list(et.children@));
            let l = preorder(et).len() as int;
            assert(fv.subrange(pos + 1, pos + l) =~= fv.subrange(pos as int, pos + l).subrange(1, l));
            assert(preorder(et).subrange(1, l) =~= preorder_list(et.children@));
        }
    }
    let mut children: Vec<SyntaxNode> = Vec::new();
    let mut next = pos + 1;
    let mut k: u32 = 0;
    assert(et.children@.take(0) =~= Seq::<SyntaxNode>::empty());
    while k < f.child_count
        invariant
            fv == flats_view(flat@),
            hit == (expected is Some && placed(fv, pos as int, expected->0)),
            et == expected->0,
            pos < next <= flat@.len(),
            k <= f.child_count,
            children@.len() == k,
            preorder_list(children@) == fv.subrange(pos + 1, next as int),
            hit ==> f.child_count == et.children@.len() && next == pos + 1 + preorder_list(
                et.children@.take(k as int),
            ).len() && fv.subrange(pos + 1, pos + preorder(et).len()) == preorder_list(
                et.children@,
            ) && placed(fv, pos as int, et),
        decreases f.child_count - k,
    {
        let ghost child = et.children@[k as int];
        assert(hit ==> placed(fv, next as int, child)) by {
            if hit {
                let ch = et.children@;
                lemma_preorder_list_prefix(ch, k + 1);
                assert(ch.take(k + 1).drop_last() =~= ch.take(k as int));
                assert(ch.take(k + 1).last() == child);
                let pk = preorder_list(ch.take(k as int));
                let pc = preorder(child);
                assert(preorder_list(ch.take(k + 1)) == pk + pc);
                let whole = preorder_list(ch);
                assert(whole.subrange(0, (pk + pc).len() as int) == pk + pc);
                assert(fv.subrange(next as int, next + pc.len()) =~= whole.subrange(
                    pk.len() as int,
                    (pk + pc).len() as int,
                ));
                assert(whole.subrange(pk.len() as int, (pk + pc).len() as int) =~= pc) by {
                    assert((pk + pc).subrange(pk.len() as int, (pk + pc).len() as int) =~= pc);
                    assert(whole.subrange(pk.len() as int, (pk + pc).len() as int) =~= whole.subrange(
                        0,
                        (pk + pc).len() as int,
                    ).subrange(pk.len() as int, (pk + pc).len() as int));
                }
                assert(whole.len() == preorder(et).len() - 1);
                assert(next + pc.len() <= fv.len());
                assert(fv.subrange(next as int, next + pc.len()) == pc);
                assert(placed(fv, next as int, child));
            }
        }
        let sub = build_from(
            flat,
            next,
            Ghost(
                if hit {
                    Some(child)
                } else {
                    None
                },
            ),
        );
        match sub {
            Some((c, n)) => {
                let ghost old_children = children@;
                children.push(c);
                proof {
                    assert(children@.drop_last() =~= old_children);
                    assert(fv.subrange(pos + 1, n as int) =~= fv.subrange(pos + 1, next as int)
                        + fv.subrange(next as int, n as int));
                    if hit {
                        let ch = et.children@;
                        assert(ch.take(k + 1).drop_last() =~= ch.take(k as int));
                    }
                }
                next = n;
            },
            None => return None,
        }
        k = k + 1;
    }
    proof {
        if hit {
            assert(et.children@.take(k as int) =~= et.children@);
        }
    }
    let node = SyntaxNode {
        kind: string_of(crate::text::chars_of(f.kind.as_str()).as_slice()),
        start_byte: f.start_byte,
        end_byte: f.end_byte,
        children,
    };
    proof {
        assert(fv.subrange(pos as int, next as int) =~= seq![flat_view(flat@[pos as int])]
            + fv.subrange(pos + 1, next as int));
    }
    Some((node, next))
}

/// Rebuilds the tree that `flat` lists in preorder, where `flat` lists
/// exactly one tree; it does so for every listing of a tree.
pub fn build_tree(flat: &Vec<FlatNode>) -> (r: Option<SyntaxNode>)
    ensures
        r matches Some(t) ==> preorder(t) == flats_view(flat@),
        (exists|t: SyntaxNode| preorder(t) == flats_view(flat@)) ==> r is Some,
{
    let ghost expected = if exists|t: SyntaxNode| preorder(t) == flats_view(flat@) {
        Some(choose|t: SyntaxNode| preorder(t) == flats_view(flat@))
    } else {
        None
    };
    proof {
        if let Some(t) = expected {
            assert(flats_view(flat@).subrange(0, preorder(t).len() as int) =~= flats_view(flat@));
        }
    }
    match build_from(flat, 0, Ghost(expected)) {
        Some((t, n)) => {
            if n == flat.len() {
                assert(flats_view(flat@).subrange(0, n as int) =~= flats_view(flat@));
                Some(t)
            } else {
                None
            }
        },
        None => None,
    }
}

/// Text of the error for a grammar that the parser refuses.
pub open spec fn grammar_error_text(detail: Seq<char>) -> Seq<char> {
    "Set language to tree-sitter failed: "@ + detail
}

/// Parses `text` for `language` with the grammar at hand, as a new
/// document; `Ok(None)` for a language without a grammar.
pub fn update_tree(
    language: &languages::Language,
    text: &str,
) -> (r: PathServerResult<Option<tree_sitter::Tree>>)
    ensures
        !has_grammar(*language) ==> r matches Ok(None),
        has_grammar(*language) ==> r is Ok && r->Ok_0 is Some && tree_nodes(r->Ok_0->0) == syntax_listing(
            *language,
            text@,
        ),
        r is Err ==> has_grammar(*language) && (r matches Err(
            PathServerError::ParseError(m),
        ) && exists|d: Seq<char>| m@ == grammar_error_text(d)),
{
    let grammar = match from_language(language) {
        Some(g) => g,
        None => return Ok(None),
    };
    let parsed = match grammar {
        Grammar::JavaScript => parse_javascript(text),
        Grammar::TypeScript => parse_typescript(text),
        Grammar::Python => parse_python(text),
        Grammar::Rust => parse_rust(text),
    };
    match parsed {
        Ok(t) => Ok(t),
        Err(detail) => {
            let m = concat_chars(
                chars_of("Set language to tree-sitter failed: ").as_slice(),
                chars_of(detail.as_str()).as_slice(),
            );
            assert(m@ == grammar_error_text(detail@));
            Err(PathServerError::ParseError(string_of(m.as_slice())))
        },
    }
}

/// The syntax tree that `tree` holds, as plain values: the tree whose
/// preorder listing is what `tree` holds.
pub fn syntax_of(tree: &tree_sitter::Tree) -> (r: Option<SyntaxNode>)
    ensures
        r is Some && preorder(r->0) == tree_nodes(*tree),
{
    build_tree(&flatten_tree(tree))
}

/// The syntax tree of `text` for `language`: where a grammar is at hand, the
/// tree that it builds for the text; otherwise none.
pub fn parse_tree(language: &languages::Language, text: &str) -> (r: Option<SyntaxNode>)
    ensures
        !has_grammar(*language) ==> r is None,
        has_grammar(*language) ==> r is Some && preorder(r->0) == syntax_listing(*language, text@),
{
    match update_tree(language, text) {
        Ok(Some(t)) => syntax_of(&t),
        _ => None,
    }
}

} // verus!
