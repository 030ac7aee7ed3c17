//! Extract from multi languages: typescript, javascript, rust, python

use vstd::prelude::*;

use crate::parser::languages::Language;
use crate::parser::syntax::{
    all_children, all_nodes, byte_slice_or_empty, candidate_between, cv, SyntaxNode,
};
use crate::parser::PathCandidate;
use crate::text::{chars_of, str_eq, string_of};

verus! {

/// Languages whose string literals this module reads.
pub open spec fn is_general_language(l: Language) -> bool {
    ||| l == Language::TypeScript
    ||| l == Language::JavaScript
    ||| l == Language::Python
    ||| l == Language::Rust
    ||| l == Language::C
    ||| l == Language::CPlusPlus
}

/// Kinds of nodes that are string literals.
pub open spec fn is_string_kind(kind: Seq<char>, l: Language) -> bool {
    if l == Language::JavaScript || l == Language::TypeScript {
        kind == "string"@ || kind == "template_string"@
    } else if l == Language::Python {
        kind == "string"@
    } else if l == Language::Rust {
        kind == "string_literal"@ || kind == "raw_string_literal"@
    } else {
        kind == "string_literal"@
    }
}

/// Kinds of nodes that are a literal piece of a string.
pub open spec fn is_fragment_kind(kind: Seq<char>, l: Language) -> bool {
    if l == Language::JavaScript || l == Language::TypeScript {
        kind == "string_fragment"@
    } else {
        kind == "string_content"@
    }
}

/// Kinds of nodes that are an escaped character inside a string.
pub open spec fn is_escape_kind(kind: Seq<char>) -> bool {
    kind == "escape_sequence"@
}

/// Scan state over the children of a string node: candidates so far, start
/// and end of the current piece, whether a fragment was seen.
pub type ContentState = (Seq<(Seq<char>, nat, nat)>, nat, nat, bool);

/// Effect of child `c` on the scan state: fragments and escapes make up the
/// current piece (the first of them starts it where no separator came
/// before), and any other child closes it.
pub open spec fn content_step(src: Seq<char>, c: SyntaxNode, l: Language, st: ContentState) -> ContentState {
    let (cands, b, e, have) = st;
    if is_fragment_kind(c.kind@, l) || is_escape_kind(c.kind@) {
        (cands, if have { b } else { c.start_byte as nat }, c.end_byte as nat, true)
    } else {
        (
            if c.start_byte > b {
                cands.push(
                    (byte_slice_or_empty(src, b as int, c.start_byte as int), b, c.start_byte as nat),
                )
            } else {
                cands
            },
            c.end_byte as nat,
            e,
            have,
        )
    }
}

/// Scan state after the children `ch[0..i]`.
pub open spec fn content_scan(
    src: Seq<char>,
    ch: Seq<SyntaxNode>,
    l: Language,
    i: int,
    init: ContentState,
) -> ContentState
    decreases i,
{
    if i <= 0 {
        init
    } else {
        content_step(src, ch[i - 1], l, content_scan(src, ch, l, i - 1, init))
    }
}

/// Candidates read from one string node: the pieces between its non-string
/// children, then the piece after the last of them.
pub open spec fn string_contents(src: Seq<char>, node: SyntaxNode, l: Language) -> Seq<
    (Seq<char>, nat, nat),
> {
    let st = content_scan(
        src,
        node.children@,
        l,
        node.children@.len() as int,
        (Seq::empty(), node.start_byte as nat, node.end_byte as nat, false),
    );
    if st.1 < st.2 {
        st.0.push((byte_slice_or_empty(src, st.1 as int, st.2 as int), st.1, st.2))
    } else {
        st.0
    }
}

/// Candidates of the tree under `node`, in preorder.
pub open spec fn general_strings(src: Seq<char>, node: SyntaxNode, l: Language) -> Seq<
    (Seq<char>, nat, nat),
>
    decreases node, node.children@.len() + 1,
{
    (if is_string_kind(node.kind@, l) {
        string_contents(src, node, l)
    } else {
        Seq::empty()
    }) + children_strings(src, node, l, 0)
}

/// Candidates of the subtrees of the children of `node` from index `i` on.
pub open spec fn children_strings(src: Seq<char>, node: SyntaxNode, l: Language, i: int) -> Seq<
    (Seq<char>, nat, nat),
>
    decreases node, node.children@.len() - i,
{
    if 0 <= i < node.children@.len() {
        general_strings(src, node.children@[i], l) + children_strings(src, node, l, i + 1)
    } else {
        Seq::empty()
    }
}

/// The children of `n` lie within its range, which is well formed.
pub open spec fn children_within(n: SyntaxNode) -> bool {
    &&& n.start_byte <= n.end_byte
    &&& forall|i: int|
        0 <= i < n.children@.len() ==> n.start_byte <= (#[trigger] n.children@[i]).start_byte
            && n.children@[i].start_byte <= n.children@[i].end_byte && n.children@[i].end_byte
            <= n.end_byte
}

/// `c` is the text of the source between its offsets, a non-empty range
/// within `lo..hi`.
pub open spec fn piece_within(src: Seq<char>, c: (Seq<char>, nat, nat), lo: nat, hi: nat) -> bool {
    c.0 == byte_slice_or_empty(src, c.1 as int, c.2 as int) && lo <= c.1 < c.2 <= hi
}

proof fn lemma_content_scan_within(src: Seq<char>, node: SyntaxNode, l: Language, i: int)
    requires
        children_within(node),
        0 <= i <= node.children@.len(),
    ensures
        ({
            let st = content_scan(
                src,
                node.children@,
                l,
                i,
                (Seq::empty(), node.start_byte as nat, node.end_byte as nat, false),
            );
            &&& node.start_byte <= st.1
            &&& st.2 <= node.end_byte
            &&& forall|k: int|
                0 <= k < st.0.len() ==> piece_within(
                    src,
                    #[trigger] st.0[k],
                    node.start_byte as nat,
                    node.end_byte as nat,
                )
        }),
    decreases i,
{
    if i > 0 {
        lemma_content_scan_within(src, node, l, i - 1);
        let init = (Seq::<(Seq<char>, nat, nat)>::empty(), node.start_byte as nat, node.end_byte as nat, false);
        let c = node.children@[i - 1];
        assert(node.start_byte <= c.start_byte && c.start_byte <= c.end_byte && c.end_byte
            <= node.end_byte);
        let prev = content_scan(src, node.children@, l, i - 1, init);
        let st = content_scan(src, node.children@, l, i, init);
        assert(st == content_step(src, c, l, prev));
        if !(is_fragment_kind(c.kind@, l) || is_escape_kind(c.kind@)) && c.start_byte > prev.1 {
            let piece = (byte_slice_or_empty(src, prev.1 as int, c.start_byte as int), prev.1, c.start_byte as nat);
            assert(st.0 == prev.0.push(piece));
            assert forall|k: int| 0 <= k < st.0.len() implies piece_within(
                src,
                #[trigger] st.0[k],
                node.start_byte as nat,
                node.end_byte as nat,
            ) by {
                if k < prev.0.len() {
                    assert(st.0[k] == prev.0[k]);
                } else {
                    assert(st.0[k] == piece);
                }
            }
        }
    }
}

proof fn lemma_string_contents_within(src: Seq<char>, node: SyntaxNode, l: Language)
    requires
        children_within(node),
    ensures
        forall|k: int|
            0 <= k < string_contents(src, node, l).len() ==> piece_within(
                src,
                #[trigger] string_contents(src, node, l)[k],
                node.start_byte as nat,
                node.end_byte as nat,
            ),
{
    lemma_content_scan_within(src, node, l, node.children@.len() as int);
}

/// Every candidate of the general extractor is the text of the source
/// between its offsets, and lies inside the node it was read from, where
/// each node's children lie within it.
pub proof fn lemma_general_strings_within(src: Seq<char>, node: SyntaxNode, l: Language)
    requires
        all_nodes(node, |n: SyntaxNode| children_within(n)),
    ensures
        forall|k: int|
            0 <= k < general_strings(src, node, l).len() ==> piece_within(
                src,
                #[trigger] general_strings(src, node, l)[k],
                node.start_byte as nat,
                node.end_byte as nat,
            ),
    decreases node, node.children@.len() + 1,
{
    let own = if is_string_kind(node.kind@, l) {
        string_contents(src, node, l)
    } else {
        Seq::empty()
    };
    if is_string_kind(node.kind@, l) {
        lemma_string_contents_within(src, node, l);
    }
    lemma_children_strings_within(src, node, l, 0);
    let rest = children_strings(src, node, l, 0);
    assert(general_strings(src, node, l) == own + rest);
    assert forall|k: int| 0 <= k < general_strings(src, node, l).len() implies piece_within(
        src,
        #[trigger] general_strings(src, node, l)[k],
        node.start_byte as nat,
        node.end_byte as nat,
    ) by {
        if k < own.len() {
            assert(general_strings(src, node, l)[k] == own[k]);
        } else {
            assert(general_strings(src, node, l)[k] == rest[k - own.len()]);
        }
    }
}

proof fn lemma_children_strings_within(src: Seq<char>, node: SyntaxNode, l: Language, i: int)
    requires
        children_within(node),
        all_children(node, |n: SyntaxNode| children_within(n), i),
    ensures
        forall|k: int|
            0 <= k < children_strings(src, node, l, i).len() ==> piece_within(
                src,
                #[trigger] children_strings(src, node, l, i)[k],
                node.start_byte as nat,
                node.end_byte as nat,
            ),
    decreases node, node.children@.len() - i,
{
    if 0 <= i < node.children@.len() {
        let c = node.children@[i];
        lemma_general_strings_within(src, c, l);
        lemma_children_strings_within(src, node, l, i + 1);
        let first = general_strings(src, c, l);
        let rest = children_strings(src, node, l, i + 1);
        assert(node.start_byte <= c.start_byte && c.end_byte <= node.end_byte);
        assert forall|k: int| 0 <= k < children_strings(src, node, l, i).len() implies piece_within(
            src,
            #[trigger] children_strings(src, node, l, i)[k],
            node.start_byte as nat,
            node.end_byte as nat,
        ) by {
            if k < first.len() {
                assert(children_strings(src, node, l, i)[k] == first[k]);
                assert(piece_within(src, first[k], c.start_byte as nat, c.end_byte as nat));
            } else {
                assert(children_strings(src, node, l, i)[k] == rest[k - first.len()]);
            }
        }
    }
}

pub open spec fn cands_of(v: Seq<PathCandidate>) -> Seq<(Seq<char>, nat, nat)> {
    v.map_values(|c: PathCandidate| cv(c))
}

pub fn extract_strings(source: &str, node: &SyntaxNode, language: &Language) -> (strings: Vec<
    PathCandidate,
>)
    requires
        is_general_language(*language),
    ensures
        cands_of(strings@) == general_strings(source@, *node, *language),
{
    let src = chars_of(source);
    let mut strings = Vec::new();
    extract_into(src.as_slice(), node, language, &mut strings);
    assert(cands_of(strings@) =~= general_strings(source@, *node, *language));
    strings
}

/// Appends the candidates of the tree under `node` to `out`.
fn extract_into(src: &[char], node: &SyntaxNode, language: &Language, out: &mut Vec<PathCandidate>)
    requires
        is_general_language(*language),
    ensures
        cands_of(final(out)@) == cands_of(old(out)@) + general_strings(src@, *node, *language),
    decreases node, node.children@.len() + 1,
{
    let ghost start = cands_of(out@);
    // check if this node is a string
    if is_string_node(node, language) {
        let found = extract_string_content(src, node, language);
        let mut k: usize = 0;
        while k < found.len()
            invariant
                k <= found@.len(),
                cands_of(out@) == start + cands_of(found@.take(k as int)),
            decreases found@.len() - k,
        {
            let ghost before = cands_of(out@);
            out.push(candidate_between_copy(&found[k]));
            k = k + 1;
            proof {
                assert(found@.take(k as int) =~= found@.take(k - 1).push(found@[k - 1]));
                assert(cands_of(out@) =~= before.push(cv(found@[k - 1])));
                assert(cands_of(found@.take(k as int)) =~= cands_of(found@.take(k - 1)).push(
                    cv(found@[k - 1]),
                ));
            }
        }
        assert(found@.take(found@.len() as int) =~= found@);
    }
    let ghost mid = cands_of(out@);
    // recursively process children
    let mut i: usize = 0;
    while i < node.children.len()
        invariant
            i <= node.children@.len(),
            is_general_language(*language),
            cands_of(out@) + children_strings(src@, *node, *language, i as int) == mid
                + children_strings(src@, *node, *language, 0),
        decreases node.children@.len() - i,
    {
        let ghost before = cands_of(out@);
        extract_into(src, &node.children[i], language, out);
        i = i + 1;
    }
    assert(cands_of(out@) =~= start + general_strings(src@, *node, *language));
}

/// A copy of a candidate.
fn candidate_between_copy(c: &PathCandidate) -> (r: PathCandidate)
    ensures
        cv(r) == cv(*c),
{
    let content = string_of(chars_of(c.content.as_str()).as_slice());
    PathCandidate { content, start_byte: c.start_byte, end_byte: c.end_byte }
}

fn extract_string_content(src: &[char], node: &SyntaxNode, language: &Language) -> (candidates:
    Vec<PathCandidate>)
    requires
        is_general_language(*language),
    ensures
        cands_of(candidates@) == string_contents(src@, *node, *language),
{
    let mut candidates: Vec<PathCandidate> = Vec::new();
    let mut begin_byte = node.start_byte;
    let mut end_byte = node.end_byte;
    let mut have_string_fragment = false;
    let ghost init: ContentState = (Seq::empty(), node.start_byte as nat, node.end_byte as nat, false);
    let mut i: usize = 0;
    assert(cands_of(candidates@) =~= Seq::<(Seq<char>, nat, nat)>::empty());
    while i < node.children.len()
        invariant
            i <= node.children@.len(),
            is_general_language(*language),
            content_scan(src@, node.children@, *language, i as int, init) == (
                cands_of(candidates@),
                begin_byte as nat,
                end_byte as nat,
                have_string_fragment,
            ),
        decreases node.children@.len() - i,
    {
        let child = &node.children[i];
        if is_string_fragment_node(child, language) || is_escaped_character_node(child, language) {
            // a piece of the string: an escaped character belongs to the candidate
            if !have_string_fragment {
                begin_byte = child.start_byte;
                have_string_fragment = true;
            }
            end_byte = child.end_byte;
            i = i + 1;
            continue ;
        }
        // is not a string fragment or escaped character, treat it as a separator
        // the content before it is a candidate
        if child.start_byte > begin_byte {
            let ghost before = cands_of(candidates@);
            let candidate = candidate_between(src, begin_byte, child.start_byte);
            candidates.push(candidate);
            assert(cands_of(candidates@) =~= before.push(cv(candidate)));
        }
        begin_byte = child.end_byte;
        i = i + 1;
    }
    // add the last candidate after the last fragment
    if begin_byte < end_byte {
        let ghost before = cands_of(candidates@);
        let candidate = candidate_between(src, begin_byte, end_byte);
        candidates.push(candidate);
        assert(cands_of(candidates@) =~= before.push(cv(candidate)));
    }
    candidates
}

/// Determine if a node represents a string literal
fn is_string_node(node: &SyntaxNode, language: &Language) -> (r: bool)
    requires
        is_general_language(*language),
    ensures
        r == is_string_kind(node.kind@, *language),
{
    let kind = node.kind.as_str();
    match language {
        Language::JavaScript | Language::TypeScript => str_eq(kind, "string") || str_eq(
            kind,
            "template_string",
        ),
        Language::Python => str_eq(kind, "string"),
        Language::Rust => str_eq(kind, "string_literal") || str_eq(kind, "raw_string_literal"),
        _ => str_eq(kind, "string_literal"),
    }
}

/// Determine if a node represents a part of string literal
fn is_string_fragment_node(node: &SyntaxNode, language: &Language) -> (r: bool)
    requires
        is_general_language(*language),
    ensures
        r == is_fragment_kind(node.kind@, *language),
{
    let kind = node.kind.as_str();
    match language {
        Language::JavaScript | Language::TypeScript => str_eq(kind, "string_fragment"),
        _ => str_eq(kind, "string_content"),
    }
}

/// Determine if a node represents an escaped character in a string
/// This will be included in the path candidate
fn is_escaped_character_node(node: &SyntaxNode, language: &Language) -> (r: bool)
    requires
        is_general_language(*language),
    ensures
        r == is_escape_kind(node.kind@),
{
    str_eq(node.kind.as_str(), "escape_sequence")
}

} // verus!
