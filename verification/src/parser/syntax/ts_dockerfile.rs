//! Extract path and string tokens from dockerfile

use vstd::prelude::*;

use crate::parser::languages::Language;
use crate::parser::syntax::ts_html::append_all;
use crate::parser::syntax::{
    all_children, all_nodes, byte_slice, cv, get_bytes, lemma_all_children, lemma_byte_slice_len,
    SyntaxNode,
};
use crate::parser::ts_general_cands_of as cands_of;
use crate::parser::unescape::{json_string_unescape, unescape};
use crate::parser::PathCandidate;
use crate::text::{
    byte_len, byte_len_of, byte_offset, char_width, chars_of, is_white_space,
    is_whitespace, lemma_byte_offset_mono, lemma_byte_offset_step, lemma_byte_offset_subrange,
    slice_chars, str_eq, string_of,
};

verus! {

/// Kinds of nodes that hold a path or a string.
pub open spec fn is_docker_string_kind(kind: Seq<char>) -> bool {
    ||| kind == "path"@
    ||| kind == "json_string"@
    ||| kind == "unquoted_string"@
    ||| kind == "string"@
    ||| kind == "shell_fragment"@
}

/// Text of `n` in the source (meaningful where its range is well formed).
pub open spec fn node_text(src: Seq<char>, n: SyntaxNode) -> Seq<char> {
    byte_slice(src, n.start_byte as int, n.end_byte as int)->0
}

/// The text between the quotes of a JSON string literal `t` (`t` itself
/// where it is not enclosed in double quotes).
pub open spec fn json_inner(t: Seq<char>) -> Seq<char> {
    if t.len() >= 2 && t[0] == '"' && t[t.len() - 1] == '"' {
        t.subrange(1, t.len() - 1)
    } else {
        t
    }
}

/// The string that the JSON string literal `t` stands for: the text between
/// its quotes, decoded as JSON (kept as written where it does not decode).
pub open spec fn json_content(t: Seq<char>) -> Seq<char> {
    match json_string_unescape(json_inner(t)) {
        Some(u) => u,
        None => json_inner(t),
    }
}

/// Character ranges of the maximal runs of non-whitespace characters of `s`
/// from index `i` on (`str::split_whitespace`).
pub open spec fn words_from(s: Seq<char>, i: int) -> Seq<(int, int)>
    decreases s.len() - i,
{
    if i < 0 || i >= s.len() {
        Seq::empty()
    } else if is_white_space(s[i]) {
        words_from(s, i + 1)
    } else {
        let e = word_end(s, i);
        proof {
            lemma_word_end(s, i);
        }
        seq![(i, e)] + words_from(s, e)
    }
}

/// End of the run of non-whitespace characters that starts at `i`.
pub open spec fn word_end(s: Seq<char>, i: int) -> int
    decreases s.len() - i,
{
    if i < 0 || i >= s.len() || is_white_space(s[i]) {
        i
    } else {
        word_end(s, i + 1)
    }
}

pub proof fn lemma_word_end(s: Seq<char>, i: int)
    requires
        0 <= i <= s.len(),
    ensures
        i <= word_end(s, i) <= s.len(),
        forall|k: int| i <= k < word_end(s, i) ==> !is_white_space(#[trigger] s[k]),
        word_end(s, i) < s.len() ==> is_white_space(s[word_end(s, i)]),
    decreases s.len() - i,
{
    if i < s.len() && !is_white_space(s[i]) {
        lemma_word_end(s, i + 1);
    }
}

/// Candidates for the words of a shell fragment with text `t` starting at byte
/// `start`: each word, placed where the split found it.
pub open spec fn shell_words(t: Seq<char>, start: nat) -> Seq<(Seq<char>, nat, nat)> {
    words_from(t, 0).map_values(
        |w: (int, int)|
            {
                let part = t.subrange(w.0, w.1);
                let at = byte_offset(t, w.0);
                (part, start + at, start + at + byte_len(part))
            },
    )
}

/// Candidates read from one string node.
pub open spec fn docker_contents(src: Seq<char>, n: SyntaxNode) -> Seq<(Seq<char>, nat, nat)> {
    let range = (n.start_byte as nat, n.end_byte as nat);
    if n.kind@ == "json_string"@ {
        seq![(json_content(node_text(src, n)), range.0, range.1)]
    } else if n.kind@ == "shell_fragment"@ {
        shell_words(node_text(src, n), n.start_byte as nat)
    } else {
        seq![(node_text(src, n), range.0, range.1)]
    }
}

/// A string node of the tree can be read: its range is a well-formed piece
/// of the source.
pub open spec fn docker_node_ok(src: Seq<char>, n: SyntaxNode) -> bool {
    is_docker_string_kind(n.kind@) ==> byte_slice(src, n.start_byte as int, n.end_byte as int)
        is Some
}

/// Candidates of the tree under `node`, in preorder.
pub open spec fn docker_strings(src: Seq<char>, node: SyntaxNode) -> Seq<(Seq<char>, nat, nat)>
    decreases node, node.children@.len() + 1,
{
    (if is_docker_string_kind(node.kind@) {
        docker_contents(src, node)
    } else {
        Seq::empty()
    }) + docker_children(src, node, 0)
}

pub open spec fn docker_children(src: Seq<char>, node: SyntaxNode, i: int) -> Seq<
    (Seq<char>, nat, nat),
>
    decreases node, node.children@.len() - i,
{
    if 0 <= i < node.children@.len() {
        docker_strings(src, node.children@[i]) + docker_children(src, node, i + 1)
    } else {
        Seq::empty()
    }
}

pub fn extract_strings(source: &str, node: &SyntaxNode, language: &Language) -> (paths: Vec<
    PathCandidate,
>)
    requires
        *language == Language::Docker,
        all_nodes(*node, |n: SyntaxNode| docker_node_ok(source@, n)),
    ensures
        cands_of(paths@) == docker_strings(source@, *node),
{
    let src = chars_of(source);
    let mut paths = Vec::new();
    extract_into(src.as_slice(), node, &mut paths);
    assert(cands_of(paths@) =~= docker_strings(source@, *node));
    paths
}

fn extract_into(src: &[char], node: &SyntaxNode, out: &mut Vec<PathCandidate>)
    requires
        all_nodes(*node, |n: SyntaxNode| docker_node_ok(src@, n)),
    ensures
        cands_of(final(out)@) == cands_of(old(out)@) + docker_strings(src@, *node),
    decreases node, node.children@.len() + 1,
{
    let ghost start = cands_of(out@);
    let ghost p = |n: SyntaxNode| docker_node_ok(src@, n);
    // check if this node is a string
    if is_string_node(node) {
        let found = extract_string_content(src, node);
        append_all(out, found);
    }
    let ghost mid = cands_of(out@);
    // recursively process children
    let mut i: usize = 0;
    while i < node.children.len()
        invariant
            i <= node.children@.len(),
            all_children(*node, p, 0),
            p == (|n: SyntaxNode| docker_node_ok(src@, n)),
            cands_of(out@) + docker_children(src@, *node, i as int) == mid + docker_children(
                src@,
                *node,
                0,
            ),
        decreases node.children@.len() - i,
    {
        proof {
            lemma_all_children(*node, p, 0, i as int);
        }
        extract_into(src, &node.children[i], out);
        i = i + 1;
    }
    assert(cands_of(out@) =~= start + docker_strings(src@, *node));
}

fn is_string_node(node: &SyntaxNode) -> (r: bool)
    ensures
        r == is_docker_string_kind(node.kind@),
{
    let kind = node.kind.as_str();
    str_eq(kind, "path") || str_eq(kind, "json_string") || str_eq(kind, "unquoted_string")
        || str_eq(kind, "string") || str_eq(kind, "shell_fragment")
}

/// The text of `n`, whose range is a well-formed piece of the source.
fn text_of(src: &[char], n: &SyntaxNode) -> (t: Vec<char>)
    requires
        byte_slice(src@, n.start_byte as int, n.end_byte as int) is Some,
    ensures
        t@ == node_text(src@, *n),
{
    match get_bytes(src, n.start_byte, n.end_byte) {
        Some(t) => t,
        None => {
            proof {
                assert(false);
            }
            Vec::new()
        },
    }
}

fn extract_string_content(src: &[char], node: &SyntaxNode) -> (r: Vec<PathCandidate>)
    requires
        is_docker_string_kind(node.kind@),
        docker_node_ok(src@, *node),
    ensures
        cands_of(r@) == docker_contents(src@, *node),
{
    let kind = node.kind.as_str();
    if str_eq(kind, "json_string") {
        let candidate = json_string_candidate(src, node);
        let v = vec![candidate];
        assert(cands_of(v@) =~= docker_contents(src@, *node));
        v
    } else if str_eq(kind, "shell_fragment") {
        // need to split by spaces
        shell_fragment_candidates(src, node)
    } else {
        // "path", "unquoted_string" and "string": the whole text
        let t = text_of(src, node);
        let candidate = PathCandidate {
            content: string_of(t.as_slice()),
            start_byte: node.start_byte,
            end_byte: node.end_byte,
        };
        let v = vec![candidate];
        assert(cands_of(v@) =~= docker_contents(src@, *node));
        v
    }
}

/// The candidate of a JSON string node: the string it stands for, over its
/// range.
fn json_string_candidate(src: &[char], node: &SyntaxNode) -> (c: PathCandidate)
    requires
        node.kind@ == "json_string"@,
        docker_node_ok(src@, *node),
    ensures
        cv(c) == (json_content(node_text(src@, *node)), node.start_byte as nat, node.end_byte as nat),
{
    let t = text_of(src, node);
    let n = t.len();
    let inner = if n >= 2 && t[0] == '"' && t[n - 1] == '"' {
        slice_chars(t.as_slice(), 1, n - 1)
    } else {
        slice_chars(t.as_slice(), 0, n)
    };
    assert(inner@ == json_inner(t@)) by {
        if !(n >= 2 && t@[0] == '"' && t@[n - 1] == '"') {
            assert(t@.subrange(0, n as int) =~= t@);
        }
    }
    let body = string_of(inner.as_slice());
    let content = match unescape(body.as_str()) {
        Some(u) => u,
        None => string_of(inner.as_slice()),
    };
    PathCandidate { content, start_byte: node.start_byte, end_byte: node.end_byte }
}

/// Candidates for the whitespace-separated words of a shell fragment.
fn shell_fragment_candidates(src: &[char], node: &SyntaxNode) -> (r: Vec<PathCandidate>)
    requires
        node.kind@ == "shell_fragment"@,
        docker_node_ok(src@, *node),
    ensures
        cands_of(r@) == shell_words(node_text(src@, *node), node.start_byte as nat),
{
    let t = text_of(src, node);
    proof {
        lemma_byte_slice_len(src@, node.start_byte as int, node.end_byte as int);
        crate::text::lemma_byte_offset_full(t@);
    }
    let ghost words = words_from(t@, 0);
    let ghost want = shell_words(t@, node.start_byte as nat);
    let mut r: Vec<PathCandidate> = Vec::new();
    let mut i: usize = 0;
    let mut done: usize = 0;
    while i < t.len()
        invariant
            i <= t@.len(),
            t@ == node_text(src@, *node),
            node.start_byte + byte_len(t@) <= usize::MAX,
            byte_len(t@) == byte_offset(t@, t@.len() as int),
            words == words_from(t@, 0),
            want == shell_words(t@, node.start_byte as nat),
            done <= words.len(),
            r@.len() == done,
            want.len() == words.len(),
            words.skip(done as int) == words_from(t@, i as int),
            cands_of(r@) == want.take(done as int),
        decreases t@.len() - i,
    {
        if is_whitespace(t[i]) {
            i = i + 1;
            continue ;
        }
        // a word starts here
        let mut e = i;
        while e < t.len() && !is_whitespace(t[e])
            invariant
                i <= e <= t@.len(),
                word_end(t@, i as int) == word_end(t@, e as int),
            decreases t@.len() - e,
        {
            e = e + 1;
        }
        proof {
            lemma_word_end(t@, i as int);
            assert(words_from(t@, i as int) =~= seq![(i as int, e as int)] + words_from(t@, e as int));
            assert(words.skip(done as int).len() >= 1);
            assert(words.skip(done as int)[0] == (i as int, e as int));
            assert(words[done as int] == (i as int, e as int));
            assert(words.skip(done as int + 1) =~= words.skip(done as int).drop_first());
        }
        let part = slice_chars(t.as_slice(), i, e);
        proof {
            lemma_byte_offset_mono(t@, i as int, t@.len() as int);
            lemma_byte_offset_subrange(t@, i as int, e as int);
            lemma_byte_offset_mono(t@, e as int, t@.len() as int);
        }
        let at = prefix_bytes(t.as_slice(), i);
        let plen = byte_len_of(part.as_slice());
        let start = node.start_byte + at;
        let ghost before = cands_of(r@);
        r.push(PathCandidate { content: string_of(part.as_slice()), start_byte: start, end_byte: start + plen });
        proof {
            assert(r@[done as int].content@ == t@.subrange(i as int, e as int));
            assert(want[done as int] == cands_of(r@)[done as int]);
            assert(cands_of(r@) =~= before.push(want[done as int]));
            assert(want.take(done as int + 1) =~= want.take(done as int).push(want[done as int]));
        }
        assert(r.len() == done + 1);
        done = done + 1;
        i = e;
    }
    proof {
        assert(words_from(t@, i as int) =~= Seq::<(int, int)>::empty());
        assert(want.take(done as int) =~= want);
    }
    r
}

/// Byte offset of character `k` of `t`.
fn prefix_bytes(t: &[char], k: usize) -> (b: usize)
    requires
        k <= t@.len(),
        byte_offset(t@, k as int) <= usize::MAX,
    ensures
        b == byte_offset(t@, k as int),
{
    let mut acc: usize = 0;
    let mut i: usize = 0;
    while i < k
        invariant
            i <= k <= t@.len(),
            acc == byte_offset(t@, i as int),
            byte_offset(t@, k as int) <= usize::MAX,
        decreases k - i,
    {
        proof {
            lemma_byte_offset_step(t@, i as int);
            lemma_byte_offset_mono(t@, i as int + 1, k as int);
        }
        acc = acc + char_width(t[i]);
        i = i + 1;
    }
    acc
}

} // verus!
