//! Path tokens of a document that resolve to existing files: their
//! (line, UTF-16 column) ranges, the keeping of tokens that do not overlap,
//! and the lookup of the token under a cursor.

use vstd::prelude::*;

use crate::completion::{join_path, joined, path_is_absolute, plainly_relative, starts_with_backslash};
use crate::document::{col16_at, line_at, Document};
use crate::error::PathServerResult;
use crate::text::{byte_offset, char_index_of_byte, chars_of, is_boundary, string_of};

verus! {

#[derive(Debug)]
pub struct ResolvedPath {
    pub start: (usize, usize),  // (line, character) in utf16
    pub end: (usize, usize),  // (line, character) in utf16
    pub target: String,
    pub is_dir: bool,
}

/// What a resolved path is: its start, its end, its target and whether it
/// is a directory.
pub type TokenView = ((usize, usize), (usize, usize), Seq<char>, bool);

pub open spec fn token_view(t: ResolvedPath) -> TokenView {
    (t.start, t.end, t.target@, t.is_dir)
}

pub open spec fn tokens_view(v: Seq<ResolvedPath>) -> Seq<TokenView> {
    v.map_values(|t: ResolvedPath| token_view(t))
}

/// Position `a` comes before position `b` (line first, then column).
pub open spec fn pos_lt(a: (usize, usize), b: (usize, usize)) -> bool {
    if a.0 == b.0 {
        a.1 < b.1
    } else {
        a.0 < b.0
    }
}

/// The ranges of `a` and `b` share a position.
pub open spec fn overlaps(a: TokenView, b: TokenView) -> bool {
    pos_lt(a.0, b.1) && pos_lt(b.0, a.1)
}

/// The cursor at `c` lies in the range of `t`: at or after its start and
/// before its end.
pub open spec fn covers(t: TokenView, c: (usize, usize)) -> bool {
    !pos_lt(c, t.0) && pos_lt(c, t.1)
}

impl ResolvedPath {
    fn pos_compare(a: (usize, usize), b: (usize, usize)) -> (r: bool)
        ensures
            r == pos_lt(a, b),
    {
        if a.0 == b.0 {
            a.1 < b.1
        } else {
            a.0 < b.0
        }
    }

    pub fn intersects(&self, other: &ResolvedPath) -> (r: bool)
        ensures
            r == overlaps(token_view(*self), token_view(*other)),
    {
        Self::pos_compare(self.start, other.end) && Self::pos_compare(other.start, self.end)
    }
}

/// Overlapping is symmetric.
pub proof fn lemma_overlaps_symmetric(a: TokenView, b: TokenView)
    ensures
        overlaps(a, b) == overlaps(b, a),
{
}

/// Two tokens that do not overlap never both lie under one cursor.
pub proof fn lemma_disjoint_tokens_cover_apart(a: TokenView, b: TokenView, c: (usize, usize))
    requires
        !overlaps(a, b),
    ensures
        !(covers(a, c) && covers(b, c)),
{
}

/// The tokens computed for a document, with the signature of the
/// configuration they were computed under.
#[derive(Debug)]
pub struct ResolvedPathCache {
    pub tokens: Option<Vec<ResolvedPath>>,
    pub config_signature: String,
}

impl ResolvedPathCache {
    pub fn new() -> (r: Self)
        ensures
            r.tokens is None,
            r.config_signature@ == Seq::<char>::empty(),
    {
        Self { tokens: None, config_signature: String::new() }
    }

    /// The cached tokens, where they were computed under the configuration
    /// of signature `signature` (a hit); `None` on a miss.
    pub fn cached(&self, signature: &str) -> (r: Option<Vec<ResolvedPath>>)
        ensures
            match self.tokens {
                Some(t) => if self.config_signature@ == signature@ {
                    r matches Some(v) && tokens_view(v@) == tokens_view(t@)
                } else {
                    r is None
                },
                None => r is None,
            },
    {
        match &self.tokens {
            Some(t) => {
                if crate::text::str_eq(self.config_signature.as_str(), signature) {
                    Some(copy_tokens(t))
                } else {
                    None
                }
            },
            None => None,
        }
    }

    /// Keeps `tokens` as computed under the configuration of signature
    /// `signature`.
    pub fn store(&mut self, tokens: Vec<ResolvedPath>, signature: String)
        ensures
            final(self).tokens == Some(tokens),
            final(self).config_signature == signature,
    {
        self.tokens = Some(tokens);
        self.config_signature = signature;
    }
}

/// A copy of each token.
fn copy_tokens(v: &Vec<ResolvedPath>) -> (r: Vec<ResolvedPath>)
    ensures
        tokens_view(r@) == tokens_view(v@),
{
    let mut r: Vec<ResolvedPath> = Vec::new();
    let mut i: usize = 0;
    while i < v.len()
        invariant
            i <= v@.len(),
            tokens_view(r@) == tokens_view(v@).take(i as int),
        decreases v@.len() - i,
    {
        let t = copy_token(&v[i]);
        let ghost before = r@;
        r.push(t);
        assert(tokens_view(r@) =~= tokens_view(before).push(token_view(t)));
        assert(tokens_view(v@).take(i + 1) =~= tokens_view(v@).take(i as int).push(
            token_view(v@[i as int]),
        ));
        i = i + 1;
    }
    assert(tokens_view(v@).take(i as int) =~= tokens_view(v@));
    r
}

/// The tokens that `filter_overlapping` keeps of `ts`: each in turn, where
/// it overlaps none of those kept before it.
pub open spec fn kept_tokens(ts: Seq<TokenView>) -> Seq<TokenView>
    decreases ts.len(),
{
    if ts.len() == 0 {
        Seq::empty()
    } else {
        let prev = kept_tokens(ts.drop_last());
        if exists|k: int| 0 <= k < prev.len() && overlaps(#[trigger] prev[k], ts.last()) {
            prev
        } else {
            prev.push(ts.last())
        }
    }
}

/// No two tokens of `ts` overlap.
pub open spec fn pairwise_apart(ts: Seq<TokenView>) -> bool {
    forall|i: int, j: int| 0 <= i < ts.len() && 0 <= j < ts.len() && i != j ==> !overlaps(#[trigger] ts[i], #[trigger] ts[j])
}

/// The kept tokens overlap each other nowhere, each is one of the given
/// tokens, and every token left out overlaps one that was kept.
pub proof fn lemma_kept_tokens(ts: Seq<TokenView>)
    ensures
        pairwise_apart(kept_tokens(ts)),
        forall|k: int| 0 <= k < kept_tokens(ts).len() ==> ts.contains(#[trigger] kept_tokens(ts)[k]),
        forall|i: int|
            0 <= i < ts.len() ==> kept_tokens(ts).contains(#[trigger] ts[i]) || exists|k: int|
                0 <= k < kept_tokens(ts).len() && overlaps(#[trigger] kept_tokens(ts)[k], ts[i]),
    decreases ts.len(),
{
    if ts.len() > 0 {
        let prev = kept_tokens(ts.drop_last());
        lemma_kept_tokens(ts.drop_last());
        let kt = kept_tokens(ts);
        assert forall|k: int| 0 <= k < kt.len() implies ts.contains(#[trigger] kt[k]) by {
            if k < prev.len() {
                assert(kt[k] == prev[k]);
                let j = choose|j: int| 0 <= j < ts.drop_last().len() && ts.drop_last()[j] == prev[k];
                assert(ts[j] == prev[k]);
            } else {
                assert(kt[k] == ts[ts.len() - 1]);
            }
        }
        assert forall|i: int| 0 <= i < ts.len() implies kt.contains(#[trigger] ts[i]) || exists|k: int|
            0 <= k < kt.len() && overlaps(#[trigger] kt[k], ts[i]) by {
            if i < ts.len() - 1 {
                assert(ts[i] == ts.drop_last()[i]);
                if prev.contains(ts[i]) {
                    let k = choose|k: int| 0 <= k < prev.len() && prev[k] == ts[i];
                    assert(kt[k] == prev[k]);
                } else {
                    let k = choose|k: int| 0 <= k < prev.len() && overlaps(#[trigger] prev[k], ts.drop_last()[i]);
                    assert(kt[k] == prev[k]);
                }
            } else {
                if exists|k: int| 0 <= k < prev.len() && overlaps(#[trigger] prev[k], ts.last()) {
                    let k = choose|k: int| 0 <= k < prev.len() && overlaps(#[trigger] prev[k], ts.last());
                    assert(kt[k] == prev[k]);
                } else {
                    assert(kt[prev.len() as int] == ts[i]);
                }
            }
        }
        assert forall|i: int, j: int| 0 <= i < kt.len() && 0 <= j < kt.len() && i != j implies !overlaps(#[trigger] kt[i], #[trigger] kt[j]) by {
            if i < prev.len() && j < prev.len() {
                assert(kt[i] == prev[i] && kt[j] == prev[j]);
            } else if i < prev.len() {
                assert(kt[i] == prev[i]);
                assert(!overlaps(prev[i], ts.last()));
            } else {
                assert(kt[j] == prev[j]);
                assert(!overlaps(prev[j], ts.last()));
            }
        }
    }
}

/// The indices in `ts` of the tokens that `kept_tokens` keeps, in order.
pub open spec fn kept_indices(ts: Seq<TokenView>) -> Seq<int>
    decreases ts.len(),
{
    if ts.len() == 0 {
        Seq::empty()
    } else {
        let prev = kept_indices(ts.drop_last());
        if exists|k: int| 0 <= k < kept_tokens(ts.drop_last()).len() && overlaps(
            #[trigger] kept_tokens(ts.drop_last())[k],
            ts.last(),
        ) {
            prev
        } else {
            prev.push(ts.len() - 1)
        }
    }
}

/// The kept tokens are a subsequence of the given ones, and the first wins:
/// the `k`-th kept token is the token at the `k`-th kept index, the kept
/// indices increase, and a token left out overlaps a token kept before it.
pub proof fn lemma_kept_subsequence(ts: Seq<TokenView>)
    ensures
        kept_indices(ts).len() == kept_tokens(ts).len(),
        forall|k: int|
            0 <= k < kept_indices(ts).len() ==> 0 <= #[trigger] kept_indices(ts)[k] < ts.len()
                && kept_tokens(ts)[k] == ts[kept_indices(ts)[k]],
        forall|a: int, b: int|
            0 <= a < b < kept_indices(ts).len() ==> #[trigger] kept_indices(ts)[a]
                < #[trigger] kept_indices(ts)[b],
        forall|i: int|
            0 <= i < ts.len() && !kept_indices(ts).contains(i) ==> exists|k: int|
                0 <= k < kept_indices(ts).len() && kept_indices(ts)[k] < i && overlaps(
                    #[trigger] ts[kept_indices(ts)[k]],
                    ts[i],
                ),
    decreases ts.len(),
{
    if ts.len() > 0 {
        let pre = ts.drop_last();
        lemma_kept_subsequence(pre);
        let pi = kept_indices(pre);
        let ki = kept_indices(ts);
        let kt = kept_tokens(ts);
        let pt = kept_tokens(pre);
        let n = ts.len() - 1;
        let clash = exists|k: int| 0 <= k < pt.len() && overlaps(#[trigger] pt[k], ts.last());
        assert forall|k: int| 0 <= k < pi.len() implies pi[k] < n && ts[pi[k]] == pre[pi[k]] by {}
        assert forall|i: int|
            0 <= i < ts.len() && !ki.contains(i) implies exists|k: int|
                0 <= k < ki.len() && ki[k] < i && overlaps(#[trigger] ts[ki[k]], ts[i]) by {
            if i < n {
                assert(pre[i] == ts[i]);
                if pi.contains(i) {
                    let k = choose|k: int| 0 <= k < pi.len() && pi[k] == i;
                    assert(ki[k] == i);
                }
                let k = choose|k: int|
                    0 <= k < pi.len() && pi[k] < i && overlaps(#[trigger] pre[pi[k]], pre[i]);
                assert(ki[k] == pi[k]);
                assert(ts[ki[k]] == pre[pi[k]]);
            } else {
                assert(clash) by {
                    if !clash {
                        assert(ki[pi.len() as int] == n);
                    }
                }
                let k = choose|k: int| 0 <= k < pt.len() && overlaps(#[trigger] pt[k], ts.last());
                assert(ki[k] == pi[k]);
                assert(pt[k] == pre[pi[k]]);
            }
        }
    }
}

/// Keeps each token in turn where it overlaps none of those kept before it:
/// the tokens kept are a subsequence of the given ones, in order.
pub fn filter_overlapping(tokens: Vec<ResolvedPath>) -> (results: Vec<ResolvedPath>)
    ensures
        tokens_view(results@) == kept_tokens(tokens_view(tokens@)),
        pairwise_apart(tokens_view(results@)),
        kept_indices(tokens_view(tokens@)).len() == results@.len(),
        forall|k: int|
            0 <= k < results@.len() ==> 0 <= #[trigger] kept_indices(tokens_view(tokens@))[k]
                < tokens@.len() && tokens_view(results@)[k] == tokens_view(tokens@)[kept_indices(
                tokens_view(tokens@),
            )[k]],
        forall|a: int, b: int|
            0 <= a < b < results@.len() ==> #[trigger] kept_indices(tokens_view(tokens@))[a]
                < #[trigger] kept_indices(tokens_view(tokens@))[b],
{
    proof {
        lemma_kept_subsequence(tokens_view(tokens@));
    }
    let mut results: Vec<ResolvedPath> = vec![];
    let mut i: usize = 0;
    while i < tokens.len()
        invariant
            i <= tokens@.len(),
            tokens_view(results@) == kept_tokens(tokens_view(tokens@).take(i as int)),
        decreases tokens@.len() - i,
    {
        let token = copy_token(&tokens[i]);
        let mut clash = false;
        let mut k: usize = 0;
        while k < results.len()
            invariant
                i < tokens@.len(),
                k <= results@.len(),
                clash == exists|m: int|
                    0 <= m < k && overlaps(#[trigger] tokens_view(results@)[m], token_view(tokens@[i as int])),
            decreases results@.len() - k,
        {
            let hit = results[k].intersects(&tokens[i]);
            assert(tokens_view(results@)[k as int] == token_view(results@[k as int]));
            if hit {
                clash = true;
            }
            k = k + 1;
        }
        let ghost tv = tokens_view(tokens@);
        assert(tv.take(i + 1).drop_last() =~= tv.take(i as int));
        assert(tv.take(i + 1).last() == token_view(tokens@[i as int]));
        let ghost before = results@;
        if !clash {
            results.push(token);
            assert(tokens_view(results@) =~= tokens_view(before).push(token_view(token)));
        }
        i = i + 1;
    }
    assert(tokens_view(tokens@).take(i as int) =~= tokens_view(tokens@));
    proof {
        lemma_kept_tokens(tokens_view(tokens@));
    }
    results
}

/// The tokens of `ts` that are shown: all of them where directories are
/// highlighted, else those that are no directory; in order.
pub open spec fn shown(ts: Seq<TokenView>, dirs: bool) -> Seq<TokenView>
    decreases ts.len(),
{
    if ts.len() == 0 {
        Seq::empty()
    } else {
        let prev = shown(ts.drop_last(), dirs);
        if dirs || !ts.last().3 {
            prev.push(ts.last())
        } else {
            prev
        }
    }
}

/// Leaving tokens out keeps the rest apart: the shown tokens of tokens that
/// overlap each other nowhere overlap each other nowhere, and each is one
/// of them.
pub proof fn lemma_shown_apart(ts: Seq<TokenView>, dirs: bool)
    requires
        pairwise_apart(ts),
    ensures
        pairwise_apart(shown(ts, dirs)),
        forall|k: int| 0 <= k < shown(ts, dirs).len() ==> ts.contains(#[trigger] shown(ts, dirs)[k]),
    decreases ts.len(),
{
    if ts.len() > 0 {
        let pre = ts.drop_last();
        assert(pairwise_apart(pre)) by {
            assert forall|i: int, j: int|
                0 <= i < pre.len() && 0 <= j < pre.len() && i != j implies !overlaps(
                #[trigger] pre[i],
                #[trigger] pre[j],
            ) by {
                assert(pre[i] == ts[i] && pre[j] == ts[j]);
            }
        }
        lemma_shown_apart(pre, dirs);
        let prev = shown(pre, dirs);
        let sh = shown(ts, dirs);
        assert forall|k: int| 0 <= k < sh.len() implies ts.contains(#[trigger] sh[k]) by {
            if k < prev.len() {
                assert(sh[k] == prev[k]);
                let j = choose|j: int| 0 <= j < pre.len() && pre[j] == prev[k];
                assert(ts[j] == prev[k]);
            } else {
                assert(sh[k] == ts[ts.len() - 1]);
            }
        }
        if dirs || !ts.last().3 {
            assert forall|k: int| 0 <= k < prev.len() implies !overlaps(
                #[trigger] prev[k],
                ts.last(),
            ) && !overlaps(ts.last(), prev[k]) by {
                let j = choose|j: int| 0 <= j < pre.len() && pre[j] == prev[k];
                assert(ts[j] == prev[k]);
                assert(!overlaps(ts[j], ts[ts.len() - 1]));
                assert(!overlaps(ts[ts.len() - 1], ts[j]));
            }
            assert forall|i: int, j: int|
                0 <= i < sh.len() && 0 <= j < sh.len() && i != j implies !overlaps(
                #[trigger] sh[i],
                #[trigger] sh[j],
            ) by {
                if i < prev.len() && j < prev.len() {
                    assert(sh[i] == prev[i] && sh[j] == prev[j]);
                } else if i < prev.len() {
                    assert(sh[i] == prev[i] && sh[j] == ts.last());
                } else {
                    assert(sh[j] == prev[j] && sh[i] == ts.last());
                }
            }
        }
    }
}

/// The tokens to offer for hover and jump: all of them where directories are
/// highlighted, else those that are no directory; in order.
pub fn shown_tokens(tokens: &Vec<ResolvedPath>, highlight_directory: bool) -> (r: Vec<
    ResolvedPath,
>)
    ensures
        tokens_view(r@) == shown(tokens_view(tokens@), highlight_directory),
{
    let ghost tv = tokens_view(tokens@);
    let mut r: Vec<ResolvedPath> = Vec::new();
    let mut i: usize = 0;
    while i < tokens.len()
        invariant
            i <= tokens@.len(),
            tv == tokens_view(tokens@),
            tokens_view(r@) == shown(tv.take(i as int), highlight_directory),
        decreases tokens@.len() - i,
    {
        assert(tv.take(i + 1).drop_last() =~= tv.take(i as int));
        assert(tv.take(i + 1).last() == token_view(tokens@[i as int]));
        if highlight_directory || !tokens[i].is_dir {
            let t = copy_token(&tokens[i]);
            let ghost before = r@;
            r.push(t);
            assert(tokens_view(r@) =~= tokens_view(before).push(token_view(t)));
        }
        i = i + 1;
    }
    assert(tv.take(i as int) =~= tv);
    r
}

/// Whether the cursor at `cursor_line`:`cursor_character` lies in the
/// token's range.
pub fn cursor_inside(cursor_line: usize, cursor_character: usize, token: &ResolvedPath) -> (r:
    bool)
    ensures
        r == covers(token_view(*token), (cursor_line, cursor_character)),
{
    let (start_line, start_character) = token.start;
    let (end_line, end_character) = token.end;
    if cursor_line < start_line || cursor_line > end_line {
        // quick path: cursor do not in the token lines
        return false;
    }
    if start_line == end_line {
        // single line token, most frequent case
        return start_line == cursor_line && cursor_character >= start_character
            && cursor_character < end_character;
    }
    // multi-line token
    if cursor_line == start_line {
        return cursor_character >= start_character;
    }
    if cursor_line == end_line {
        return cursor_character < end_character;
    }
    true
}

/// At most one of `ts` lies under the cursor at `c`.
pub open spec fn at_most_one_covers(ts: Seq<TokenView>, c: (usize, usize)) -> bool {
    forall|i: int, j: int|
        0 <= i < ts.len() && 0 <= j < ts.len() && covers(#[trigger] ts[i], c) && covers(
            #[trigger] ts[j],
            c,
        ) ==> i == j
}

/// Among tokens that overlap each other nowhere, at most one lies under any
/// cursor.
pub proof fn lemma_apart_tokens_cover_once(ts: Seq<TokenView>, c: (usize, usize))
    requires
        pairwise_apart(ts),
    ensures
        at_most_one_covers(ts, c),
{
    assert forall|i: int, j: int|
        0 <= i < ts.len() && 0 <= j < ts.len() && covers(#[trigger] ts[i], c) && covers(
            #[trigger] ts[j],
            c,
        ) implies i == j by {
        if i != j {
            lemma_disjoint_tokens_cover_apart(ts[i], ts[j], c);
        }
    }
}

/// The token under the cursor at `cursor`, where one lies under it.
pub fn token_at(tokens: &Vec<ResolvedPath>, cursor: (usize, usize)) -> (r: Option<ResolvedPath>)
    requires
        at_most_one_covers(tokens_view(tokens@), cursor),
    ensures
        r is None <==> forall|i: int|
            0 <= i < tokens@.len() ==> !covers(#[trigger] tokens_view(tokens@)[i], cursor),
        r matches Some(t) ==> exists|i: int|
            0 <= i < tokens@.len() && covers(#[trigger] tokens_view(tokens@)[i], cursor)
                && tokens_view(tokens@)[i] == token_view(t),
{
    let mut i: usize = 0;
    while i < tokens.len()
        invariant
            i <= tokens@.len(),
            forall|k: int| 0 <= k < i ==> !covers(#[trigger] tokens_view(tokens@)[k], cursor),
        decreases tokens@.len() - i,
    {
        let inside = cursor_inside(cursor.0, cursor.1, &tokens[i]);
        assert(tokens_view(tokens@)[i as int] == token_view(tokens@[i as int]));
        if inside {
            return Some(copy_token(&tokens[i]));
        }
        i = i + 1;
    }
    None
}

/// The paths at which a candidate may name an existing entry: itself where
/// it is absolute, else its join onto each base path, in order.
pub fn probe_paths(content: &str, base_paths: &Vec<String>) -> (r: Vec<String>)
    ensures
        (r@.len() == 1 && r@[0]@ == content@) || r@.len() == base_paths@.len(),
        plainly_relative(content@) ==> r@.len() == base_paths@.len() && forall|i: int|
            0 <= i < base_paths@.len() && !starts_with_backslash(#[trigger] base_paths@[i]@)
                ==> joined(base_paths@[i]@, content@, r@[i]@),
{
    let mut r: Vec<String> = Vec::new();
    if path_is_absolute(content) {
        r.push(string_of(chars_of(content).as_slice()));
        return r;
    }
    let mut i: usize = 0;
    while i < base_paths.len()
        invariant
            i <= base_paths@.len(),
            r@.len() == i,
            plainly_relative(content@) ==> forall|j: int|
                0 <= j < i && !starts_with_backslash(#[trigger] base_paths@[j]@) ==> joined(
                    base_paths@[j]@,
                    content@,
                    r@[j]@,
                ),
        decreases base_paths@.len() - i,
    {
        r.push(join_path(base_paths[i].as_str(), content));
        i = i + 1;
    }
    r
}

/// The (line, UTF-16 column) range of the bytes `start_byte..end_byte` of
/// the document; `None` where an end falls inside a character, on which the
/// lookup cannot be made.
pub fn token_range(document: &Document, start_byte: usize, end_byte: usize) -> (r: Option<
    PathServerResult<((usize, usize), (usize, usize))>,
>)
    requires
        document.wf(),
    ensures
        r is Some <==> is_boundary(document.index_text@, (start_byte as u32) as int) && is_boundary(
            document.index_text@,
            (end_byte as u32) as int,
        ),
        forall|i: int, j: int|
            0 <= i <= document.index_text@.len() && 0 <= j <= document.index_text@.len()
                && #[trigger] byte_offset(document.index_text@, i) == start_byte as u32
                && #[trigger] byte_offset(document.index_text@, j) == end_byte as u32 ==> (r matches Some(
                Ok(p),
            ) && p.0.0 == line_at(document.index_text@, i) && p.0.1 == col16_at(document.index_text@, i)
                && p.1.0 == line_at(document.index_text@, j) && p.1.1 == col16_at(
                document.index_text@,
                j,
            )),
{
    let v = chars_of(document.index_text.as_str());
    let a = char_index_of_byte(v.as_slice(), start_byte as u32 as usize);
    let b = char_index_of_byte(v.as_slice(), end_byte as u32 as usize);
    if a.is_none() || b.is_none() {
        return None;
    }
    let start = match document.offset_to_utf16_pos(start_byte) {
        Ok(p) => p,
        Err(e) => return Some(Err(e)),
    };
    let end = match document.offset_to_utf16_pos(end_byte) {
        Ok(p) => p,
        Err(e) => return Some(Err(e)),
    };
    Some(Ok((start, end)))
}

/// A copy of a token.
fn copy_token(t: &ResolvedPath) -> (r: ResolvedPath)
    ensures
        token_view(r) == token_view(*t),
{
    ResolvedPath {
        start: t.start,
        end: t.end,
        target: string_of(chars_of(t.target.as_str()).as_slice()),
        is_dir: t.is_dir,
    }
}

} // verus!
