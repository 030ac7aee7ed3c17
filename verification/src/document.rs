//! Documents opened by the client: their text, their language, their syntax
//! tree, and the conversion between byte offsets and the (line, UTF-16
//! column) positions in which the client speaks.

use vstd::prelude::*;

use crate::error::{PathServerError, PathServerResult};
use crate::parser::languages::{language_name, Language};
use crate::parser::syntax::{
    byte_slice, char_at, get_bytes, has_grammar, syntax_listing, tree_nodes, update_tree,
};
use crate::text::{
    byte_len, byte_offset, char_index_of_byte, chars_of, concat_chars, decimal, decimal_string,
    is_boundary, lemma_byte_offset_subrange, slice_chars, str_byte_len, string_of,
};

verus! {

/// Number of UTF-16 code units that `c` takes.
pub open spec fn utf16_width(c: char) -> nat {
    if (c as u32) < 0x10000 {
        1
    } else {
        2
    }
}

/// Number of UTF-16 code units of the character sequence `s`.
pub open spec fn utf16_len(s: Seq<char>) -> nat
    decreases s.len(),
{
    if s.len() == 0 {
        0
    } else {
        utf16_len(s.drop_last()) + utf16_width(s.last())
    }
}

/// Number of line feeds in `s`.
pub open spec fn newline_count(s: Seq<char>) -> nat
    decreases s.len(),
{
    if s.len() == 0 {
        0
    } else {
        newline_count(s.drop_last()) + if s.last() == '\n' {
            1nat
        } else {
            0nat
        }
    }
}

/// Index of the first line feed of `t` at or after `from` (the length of
/// `t` where there is none).
pub open spec fn next_newline(t: Seq<char>, from: int) -> int
    decreases t.len() - from,
{
    if from < 0 || from >= t.len() {
        t.len() as int
    } else if t[from] == '\n' {
        from
    } else {
        next_newline(t, from + 1)
    }
}

/// Character index at which line `l` of `t` starts: 0 for the first line,
/// otherwise the index just after the `l`-th line feed.
pub open spec fn line_start_index(t: Seq<char>, l: int) -> int
    decreases l,
{
    if l <= 0 {
        0
    } else {
        next_newline(t, line_start_index(t, l - 1)) + 1
    }
}

/// Start of the line on which character index `i` of `t` lies.
pub open spec fn last_line_start(t: Seq<char>, i: int) -> int
    decreases i,
{
    if i <= 0 || i > t.len() {
        0
    } else if t[i - 1] == '\n' {
        i
    } else {
        last_line_start(t, i - 1)
    }
}

/// Line (zero-based) on which character index `i` of `t` lies.
pub open spec fn line_at(t: Seq<char>, i: int) -> nat {
    newline_count(t.take(i))
}

/// UTF-8 column of character index `i` of `t`: the bytes between the start
/// of its line and it.
pub open spec fn col8_at(t: Seq<char>, i: int) -> nat {
    byte_len(t.subrange(line_start_index(t, line_at(t, i) as int), i))
}

/// UTF-16 column of character index `i` of `t`: the UTF-16 code units
/// between the start of its line and it.
pub open spec fn col16_at(t: Seq<char>, i: int) -> nat {
    utf16_len(t.subrange(line_start_index(t, line_at(t, i) as int), i))
}

/// The UTF-8 column that `line_index` gives for UTF-16 column `col` of line
/// `line` of `text`.
pub uninterp spec fn utf16_to_utf8_col(text: Seq<char>, line: u32, col: u32) -> Option<u32>;

/// The UTF-16 column that `line_index` gives for UTF-8 column `col` of line
/// `line` of `text`.
pub uninterp spec fn utf8_to_utf16_col(text: Seq<char>, line: u32, col: u32) -> Option<u32>;

/// `LineIndex::to_utf8` with the UTF-16 encoding, on an index of `text`: the
/// UTF-8 column for UTF-16 column `col` of line `line`. Stated: where `col`
/// is the UTF-16 column of a character index on that line, the result is its
/// UTF-8 column; a line without an entry (past the last line) keeps `col`;
/// the result never falls below `col`, nor past the end of the text by more
/// than `col`. What it gives for a column inside a surrogate pair or past
/// the line's end is left to the name.
#[verifier::external_body]
fn index_to_utf8(text: &str, line: u32, col: u32) -> (r: Option<u32>)
    requires
        byte_len(text@) < u32::MAX,
    ensures
        r == utf16_to_utf8_col(text@, line, col),
        line > newline_count(text@) ==> r == Some(col),
        forall|i: int|
            0 <= i <= text@.len() && #[trigger] line_at(text@, i) == line && #[trigger] col16_at(
                text@,
                i,
            ) == col ==> r is Some && r->0 == col8_at(text@, i),
        r is Some ==> col <= r->0 && (line <= newline_count(text@) ==> byte_offset(
            text@,
            line_start_index(text@, line as int),
        ) + r->0 <= byte_len(text@) + col),
{
    line_index::LineIndex::new(text).to_utf8(
        line_index::WideEncoding::Utf16,
        line_index::WideLineCol { line, col },
    ).map(|lc| lc.col)
}

/// `LineIndex::to_wide` with the UTF-16 encoding, on an index of `text`: the
/// UTF-16 column for UTF-8 column `col` of line `line`. Stated: where `col`
/// is the UTF-8 column of a character index on that line, the result is its
/// UTF-16 column; a line without an entry keeps `col`. Other columns are left
/// to the name.
#[verifier::external_body]
fn index_to_wide(text: &str, line: u32, col: u32) -> (r: Option<u32>)
    requires
        byte_len(text@) < u32::MAX,
    ensures
        r == utf8_to_utf16_col(text@, line, col),
        line > newline_count(text@) ==> r == Some(col),
        forall|i: int|
            0 <= i <= text@.len() && #[trigger] line_at(text@, i) == line && #[trigger] col8_at(
                text@,
                i,
            ) == col ==> r is Some && r->0 == col16_at(text@, i),
{
    line_index::LineIndex::new(text).to_wide(
        line_index::WideEncoding::Utf16,
        line_index::LineCol { line, col },
    ).map(|wc| wc.col)
}

/// `LineIndex::offset` on an index of `text`: the byte offset of the start of
/// line `line` plus `col`, where the line exists.
#[verifier::external_body]
fn index_offset(text: &str, line: u32, col: u32) -> (r: Option<u32>)
    requires
        byte_len(text@) < u32::MAX,
        line <= newline_count(text@) ==> byte_offset(text@, line_start_index(text@, line as int))
            + col <= u32::MAX,
    ensures
        line <= newline_count(text@) ==> r is Some && r->0 == byte_offset(
            text@,
            line_start_index(text@, line as int),
        ) + col,
        line > newline_count(text@) ==> r is None,
{
    line_index::LineIndex::new(text).offset(line_index::LineCol { line, col }).map(u32::from)
}

/// `LineIndex::line_col` on an index of `text`: the line and UTF-8 column of
/// the byte offset `offset`, which must fall between two characters.
#[verifier::external_body]
fn index_line_col(text: &str, offset: u32) -> (r: (u32, u32))
    requires
        byte_len(text@) < u32::MAX,
        is_boundary(text@, offset as int),
    ensures
        forall|i: int|
            0 <= i <= text@.len() && #[trigger] byte_offset(text@, i) == offset ==> r.0 == line_at(
                text@,
                i,
            ) && r.1 == col8_at(text@, i),
{
    let lc = line_index::LineIndex::new(text).line_col(line_index::TextSize::new(offset));
    (lc.line, lc.col)
}

/// One more character counts one more line feed where it is one.
pub proof fn lemma_newline_count_step(t: Seq<char>, i: int)
    requires
        0 <= i < t.len(),
    ensures
        newline_count(t.take(i + 1)) == newline_count(t.take(i)) + if t[i] == '\n' {
            1nat
        } else {
            0nat
        },
{
    assert(t.take(i + 1).drop_last() =~= t.take(i));
}

/// The first line feed at or after `from` is the one at `j` when none lies
/// between.
proof fn lemma_next_newline_at(t: Seq<char>, from: int, j: int)
    requires
        0 <= from <= j < t.len(),
        t[j] == '\n',
        forall|m: int| from <= m < j ==> t[m] != '\n',
    ensures
        next_newline(t, from) == j,
    decreases j - from,
{
    if from < j {
        lemma_next_newline_at(t, from + 1, j);
    }
}

/// The line of index `i` starts at the index after the last line feed
/// before `i` (or at 0), and no line feed lies between that start and `i`.
pub proof fn lemma_line_start_of_index(t: Seq<char>, i: int)
    requires
        0 <= i <= t.len(),
    ensures
        line_start_index(t, line_at(t, i) as int) == last_line_start(t, i),
        0 <= last_line_start(t, i) <= i,
        forall|m: int| last_line_start(t, i) <= m < i ==> t[m] != '\n',
    decreases i,
{
    if i > 0 {
        lemma_line_start_of_index(t, i - 1);
        lemma_newline_count_step(t, i - 1);
        if t[i - 1] == '\n' {
            lemma_next_newline_at(t, last_line_start(t, i - 1), i - 1);
        }
    }
}

/// The byte offset of index `i` is that of the start of its line plus its
/// UTF-8 column.
pub proof fn lemma_offset_by_column(t: Seq<char>, i: int)
    requires
        0 <= i <= t.len(),
    ensures
        byte_offset(t, i) == byte_offset(t, line_start_index(t, line_at(t, i) as int)) + col8_at(
            t,
            i,
        ),
        line_at(t, i) <= newline_count(t),
{
    lemma_line_start_of_index(t, i);
    lemma_byte_offset_subrange(t, line_start_index(t, line_at(t, i) as int), i);
    lemma_newline_count_prefix(t, i);
}

/// A prefix holds no more line feeds than the whole.
pub proof fn lemma_newline_count_prefix(t: Seq<char>, i: int)
    requires
        0 <= i <= t.len(),
    ensures
        newline_count(t.take(i)) <= newline_count(t),
    decreases t.len() - i,
{
    if i < t.len() {
        lemma_newline_count_step(t, i);
        lemma_newline_count_prefix(t, i + 1);
    } else {
        assert(t.take(i) =~= t);
    }
}

/// UTF-16 length grows strictly with each character.
proof fn lemma_utf16_len_strict(t: Seq<char>, s: int, i: int, j: int)
    requires
        0 <= s <= i < j <= t.len(),
    ensures
        utf16_len(t.subrange(s, i)) < utf16_len(t.subrange(s, j)),
    decreases j - i,
{
    assert(t.subrange(s, j).drop_last() =~= t.subrange(s, j - 1));
    if i < j - 1 {
        lemma_utf16_len_strict(t, s, i, j - 1);
    }
}

/// Distinct character indices of a text have distinct (line, UTF-16 column)
/// positions: a position names at most one offset.
pub proof fn lemma_position_identifies_index(t: Seq<char>, i: int, j: int)
    requires
        0 <= i <= t.len(),
        0 <= j <= t.len(),
        line_at(t, i) == line_at(t, j),
        col16_at(t, i) == col16_at(t, j),
    ensures
        i == j,
{
    lemma_line_start_of_index(t, i);
    lemma_line_start_of_index(t, j);
    let s = line_start_index(t, line_at(t, i) as int);
    if i < j {
        lemma_utf16_len_strict(t, s, i, j);
    } else if j < i {
        lemma_utf16_len_strict(t, s, j, i);
    }
}

/// A position as the client sends it: a line and a UTF-16 column, both
/// zero-based.
#[derive(Debug, Clone, Copy, PartialEq, Eq, Structural)]
pub struct TextPosition {
    pub line: u32,
    pub character: u32,
}

/// A range of positions, from `start` up to `end`.
#[derive(Debug, Clone, Copy, PartialEq, Eq, Structural)]
pub struct TextRange {
    pub start: TextPosition,
    pub end: TextPosition,
}

/// A change of a document's text: the range it replaces, or the whole text
/// where there is none, and the new text.
pub struct TextChange {
    pub range: Option<TextRange>,
    pub text: String,
}

/// A document opened by the client.
pub struct Document {
    /// Raw text
    pub text: String,
    /// The text on which line/column lookups are made.
    pub index_text: String,
    /// Language if from lsp client
    pub language: Language,
    /// Tree-sitter AST tree for incremental parsing
    pub tree: Option<tree_sitter::Tree>,
}

/// The characters of `t` with those between byte offsets `a` and `b`
/// replaced by `ins`.
pub open spec fn splice(t: Seq<char>, a: int, b: int, ins: Seq<char>) -> Seq<char> {
    t.take(char_at(t, a)) + ins + t.skip(char_at(t, b))
}

/// Offset at which line `line` ends for `get_line`: that of UTF-16 column
/// `end_char` where one is given, else the start of the next line, or the
/// end of the text where there is no next line.
pub open spec fn line_end_offset(
    index: Seq<char>,
    text_len: nat,
    line: usize,
    end_char: Option<usize>,
) -> Option<nat> {
    match end_char {
        Some(e) => utf16_offset(index, line as u32, e as u32),
        None => match utf16_offset(index, (line + 1) as u32, 0) {
            Some(o) => Some(o),
            None => Some(text_len),
        },
    }
}

/// Byte offsets `a` and `b` of `t` delimit a piece of it.
pub open spec fn sliceable(t: Seq<char>, a: nat, b: nat) -> bool {
    a <= b && is_boundary(t, a as int) && is_boundary(t, b as int)
}

/// `get_line` can slice the text between the offsets it looks up.
pub open spec fn line_fits(d: Document, line: usize, end_char: Option<usize>) -> bool {
    let s = utf16_offset(d.index_text@, line as u32, 0);
    let e = line_end_offset(d.index_text@, byte_len(d.text@), line, end_char);
    s is Some && e is Some ==> sliceable(d.text@, s->0, e->0)
}

/// `apply_change` can splice the text between the offsets it looks up, and
/// the new text stays within the lookups' limit.
pub open spec fn change_fits(d: Document, change: TextChange) -> bool {
    match change.range {
        None => byte_len(change.text@) < u32::MAX,
        Some(r) => {
            let s = utf16_offset(d.index_text@, r.start.line, r.start.character);
            let e = utf16_offset(d.index_text@, r.end.line, r.end.character);
            s is Some && e is Some ==> sliceable(d.text@, s->0, e->0) && byte_len(
                splice(d.text@, s->0 as int, e->0 as int, change.text@),
            ) < u32::MAX
        },
    }
}

impl Document {
    /// The lookups can be made.
    pub open spec fn wf(self) -> bool {
        byte_len(self.index_text@) < u32::MAX
    }

    pub fn new(text: String, language_id: &str) -> (r: PathServerResult<Self>)
        requires
            byte_len(text@) < u32::MAX,
        ensures
            r is Ok,
            match r {
                Ok(d) => d.wf() && d.text@ == text@ && d.index_text@ == text@ && (has_grammar(
                    d.language,
                ) ==> d.tree is Some && tree_nodes(d.tree->0) == syntax_listing(d.language, text@))
                    && ((exists|
                    k: Language,
                | language_name(k) == language_id@) ==> language_name(d.language)
                    == language_id@) && (!(exists|k: Language| language_name(k) == language_id@)
                    ==> d.language == Language::Unknown) && (!has_grammar(d.language)
                    ==> d.tree is None),
                Err(e) => e is ParseError && exists|k: Language|
                    language_name(k) == language_id@ && has_grammar(k),
            },
    {
        let language = Language::from_id(language_id);
        let tree = update_tree(&language, text.as_str())?;
        let index_text = copy_string(text.as_str());
        Ok(Document { text, index_text, language, tree })
    }

    /// The text of line `line_number`, from its start up to UTF-16 column
    /// `end_char` where one is given, else up to the start of the next line
    /// (the end of the text on the last line).
    pub fn get_line(&self, line_number: usize, end_char: Option<usize>) -> (r: PathServerResult<
        String,
    >)
        requires
            self.wf(),
            end_char matches Some(e) ==> byte_len(self.index_text@) + (e as u32) <= u32::MAX,
            end_char is None ==> line_number < usize::MAX,
            line_fits(*self, line_number, end_char),
        ensures
            match line_text(*self, line_number, end_char) {
                Some(t) => r matches Ok(s) && s@ == t,
                None => r matches Err(PathServerError::EncodingError(_)),
            },
    {
        let line_start = position_to_offset(self.index_text.as_str(), line_number, 0)?;
        let line_end = match end_char {
            Some(e) => position_to_offset(self.index_text.as_str(), line_number, e)?,
            None => match position_to_offset(self.index_text.as_str(), line_number + 1, 0) {
                Ok(o) => o,
                Err(_) => str_byte_len(self.text.as_str()),
            },
        };
        Ok(byte_piece(self.text.as_str(), line_start, line_end))
    }

    /// `get_line` where its lookups give offsets that delimit a piece of the
    /// text; `None` where they do not, or where a column is too large for
    /// the lookups.
    pub fn try_get_line(&self, line_number: usize, end_char: Option<usize>) -> (r: Option<
        PathServerResult<String>,
    >)
        requires
            self.wf(),
        ensures
            r is Some <==> (end_char matches Some(e) ==> byte_len(self.index_text@) + (e as u32)
                <= u32::MAX) && (end_char is None ==> line_number < usize::MAX) && line_fits(
                *self,
                line_number,
                end_char,
            ),
            r matches Some(x) ==> match line_text(*self, line_number, end_char) {
                Some(t) => x matches Ok(s) && s@ == t,
                None => x matches Err(PathServerError::EncodingError(_)),
            },
    {
        let index_len = str_byte_len(self.index_text.as_str());
        match end_char {
            Some(e) => {
                if index_len as u64 + (e as u32) as u64 > u32::MAX as u64 {
                    return None;
                }
            },
            None => {
                if line_number == usize::MAX {
                    return None;
                }
            },
        }
        let s = position_to_offset(self.index_text.as_str(), line_number, 0);
        let e = match end_char {
            Some(e) => position_to_offset(self.index_text.as_str(), line_number, e),
            None => match position_to_offset(self.index_text.as_str(), line_number + 1, 0) {
                Ok(o) => Ok(o),
                Err(_) => Ok(str_byte_len(self.text.as_str())),
            },
        };
        if let (Ok(a), Ok(b)) = (s, e) {
            if !delimits(self.text.as_str(), a, b) {
                return None;
            }
        }
        Some(self.get_line(line_number, end_char))
    }

    /// Applies `change`: the whole text is replaced where it has no range,
    /// else the text between the offsets of the range's ends; the line
    /// lookups are then made on the new text, and the syntax tree is parsed
    /// again.
    pub fn apply_change(&mut self, change: &TextChange) -> (r: PathServerResult<()>)
        requires
            old(self).wf(),
            change.range matches Some(rg) ==> byte_len(old(self).index_text@) + rg.start.character
                <= u32::MAX && byte_len(old(self).index_text@) + rg.end.character <= u32::MAX,
            change_fits(*old(self), *change),
        ensures
            final(self).wf(),
            final(self).language == old(self).language,
            match changed_text(*old(self), *change) {
                None => r matches Err(PathServerError::EncodingError(_)) && final(self).text
                    == old(self).text && final(self).index_text == old(self).index_text
                    && final(self).tree == old(self).tree,
                Some(t) => final(self).text@ == t && final(self).index_text@ == t && r is Ok && (
                !has_grammar(final(self).language) ==> final(self).tree is None) && (has_grammar(
                    final(self).language,
                ) ==> final(self).tree is Some && tree_nodes(final(self).tree->0) == syntax_listing(
                    final(self).language,
                    t,
                )),
            },
    {
        match &change.range {
            None => {
                self.text = copy_string(change.text.as_str());
                self.index_text = copy_string(change.text.as_str());
                let tree = update_tree(&self.language, self.text.as_str())?;
                self.tree = tree;
                Ok(())
            },
            Some(range) => {
                let start = position_to_offset(
                    self.index_text.as_str(),
                    range.start.line as usize,
                    range.start.character as usize,
                )?;
                let end = position_to_offset(
                    self.index_text.as_str(),
                    range.end.line as usize,
                    range.end.character as usize,
                )?;
                self.text = splice_text(self.text.as_str(), start, end, change.text.as_str());
                self.index_text = copy_string(self.text.as_str());
                let tree = update_tree(&self.language, self.text.as_str())?;
                self.tree = tree;
                Ok(())
            },
        }
    }

    /// `apply_change` where the offsets of the change's range delimit a
    /// piece of the text and the new text stays within the lookups' limit;
    /// `None`, with the document unchanged, where they do not.
    pub fn try_apply_change(&mut self, change: &TextChange) -> (r: Option<PathServerResult<()>>)
        requires
            old(self).wf(),
        ensures
            r is Some <==> (change.range matches Some(rg) ==> byte_len(old(self).index_text@)
                + rg.start.character <= u32::MAX && byte_len(old(self).index_text@)
                + rg.end.character <= u32::MAX) && change_fits(*old(self), *change),
            final(self).wf(),
            r is None ==> final(self).text == old(self).text && final(self).index_text == old(
                self,
            ).index_text && final(self).tree == old(self).tree && final(self).language == old(
                self,
            ).language,
            r matches Some(x) ==> final(self).language == old(self).language && match changed_text(
                *old(self),
                *change,
            ) {
                None => x matches Err(PathServerError::EncodingError(_)) && final(self).text == old(
                    self,
                ).text && final(self).index_text == old(self).index_text && final(self).tree
                    == old(self).tree,
                Some(t) => final(self).text@ == t && final(self).index_text@ == t && x is Ok && (
                !has_grammar(final(self).language) ==> final(self).tree is None) && (has_grammar(
                    final(self).language,
                ) ==> final(self).tree is Some && tree_nodes(final(self).tree->0) == syntax_listing(
                    final(self).language,
                    t,
                )),
            },
    {
        if change.range.is_none() {
            let n = str_byte_len(change.text.as_str());
            if n >= u32::MAX as usize {
                return None;
            }
        }
        if let Some(range) = &change.range {
            let index_len = str_byte_len(self.index_text.as_str()) as u64;
            if index_len + range.start.character as u64 > u32::MAX as u64 || index_len
                + range.end.character as u64 > u32::MAX as u64 {
                return None;
            }
            let s = position_to_offset(
                self.index_text.as_str(),
                range.start.line as usize,
                range.start.character as usize,
            );
            let e = position_to_offset(
                self.index_text.as_str(),
                range.end.line as usize,
                range.end.character as usize,
            );
            if let (Ok(a), Ok(b)) = (s, e) {
                if !delimits(self.text.as_str(), a, b) {
                    return None;
                }
                if !splice_fits(self.text.as_str(), a, b, change.text.as_str()) {
                    return None;
                }
            }
        }
        Some(self.apply_change(change))
    }

    /// The (line, UTF-16 column) position of byte offset `offset`.
    pub fn offset_to_utf16_pos(&self, offset: usize) -> (r: PathServerResult<(usize, usize)>)
        requires
            self.wf(),
            is_boundary(self.index_text@, (offset as u32) as int),
        ensures
            forall|i: int|
                0 <= i <= self.index_text@.len() && #[trigger] byte_offset(self.index_text@, i)
                    == offset as u32 ==> (r matches Ok(p) && p.0 == line_at(self.index_text@, i)
                    && p.1 == col16_at(self.index_text@, i)),
    {
        offset_to_position(self.index_text.as_str(), offset)
    }

    /// The byte offset of position `line`:`character` (UTF-16 column).
    pub fn utf16_pos_to_offset(&self, line: usize, character: usize) -> (r: PathServerResult<
        usize,
    >)
        requires
            self.wf(),
            byte_len(self.index_text@) + (character as u32) <= u32::MAX,
        ensures
            match r {
                Ok(o) => utf16_offset(self.index_text@, line as u32, character as u32) == Some(
                    o as nat,
                ),
                Err(e) => utf16_offset(self.index_text@, line as u32, character as u32) is None
                    && e is EncodingError,
            },
            forall|i: int|
                0 <= i <= self.index_text@.len() && #[trigger] line_at(self.index_text@, i)
                    == line as u32 && #[trigger] col16_at(self.index_text@, i) == character as u32
                    ==> (r matches Ok(o) && o == byte_offset(self.index_text@, i)),
    {
        position_to_offset(self.index_text.as_str(), line, character)
    }
}

/// The text that `get_line` gives, where its lookups succeed.
pub open spec fn line_text(d: Document, line: usize, end_char: Option<usize>) -> Option<Seq<char>> {
    let s = utf16_offset(d.index_text@, line as u32, 0);
    let e = line_end_offset(d.index_text@, byte_len(d.text@), line, end_char);
    if s is Some && e is Some {
        Some(byte_slice(d.text@, s->0 as int, e->0 as int)->0)
    } else {
        None
    }
}

/// The text after `change`, where the lookups of its range succeed.
pub open spec fn changed_text(d: Document, change: TextChange) -> Option<Seq<char>> {
    match change.range {
        None => Some(change.text@),
        Some(r) => {
            let s = utf16_offset(d.index_text@, r.start.line, r.start.character);
            let e = utf16_offset(d.index_text@, r.end.line, r.end.character);
            if s is Some && e is Some {
                Some(splice(d.text@, s->0 as int, e->0 as int, change.text@))
            } else {
                None
            }
        },
    }
}

/// A copy of `s`.
fn copy_string(s: &str) -> (r: String)
    ensures
        r@ == s@,
{
    string_of(chars_of(s).as_slice())
}

/// Byte offsets `a` and `b` delimit a piece of `s`.
fn delimits(s: &str, a: usize, b: usize) -> (r: bool)
    ensures
        r == sliceable(s@, a as nat, b as nat),
{
    let v = chars_of(s);
    if a > b {
        return false;
    }
    let x = char_index_of_byte(v.as_slice(), a);
    let y = char_index_of_byte(v.as_slice(), b);
    x.is_some() && y.is_some()
}

/// The text between byte offsets `a` and `b` of `s`.
fn byte_piece(s: &str, a: usize, b: usize) -> (r: String)
    requires
        sliceable(s@, a as nat, b as nat),
    ensures
        r@ == byte_slice(s@, a as int, b as int)->0,
{
    let v = chars_of(s);
    match get_bytes(v.as_slice(), a, b) {
        Some(t) => string_of(t.as_slice()),
        None => string_of(slice_chars(v.as_slice(), 0, 0).as_slice()),
    }
}

/// `s` with the text between byte offsets `a` and `b` replaced by `ins`.
fn splice_text(s: &str, a: usize, b: usize, ins: &str) -> (r: String)
    requires
        sliceable(s@, a as nat, b as nat),
    ensures
        r@ == splice(s@, a as int, b as int, ins@),
{
    let v = chars_of(s);
    let i = char_index_of_byte(v.as_slice(), a).unwrap();
    let j = char_index_of_byte(v.as_slice(), b).unwrap();
    proof {
        crate::text::lemma_byte_offset_injective(s@, i as int, char_at(s@, a as int));
        crate::text::lemma_byte_offset_injective(s@, j as int, char_at(s@, b as int));
    }
    let head = slice_chars(v.as_slice(), 0, i);
    let tail = slice_chars(v.as_slice(), j, v.len());
    let mid = concat_chars(head.as_slice(), chars_of(ins).as_slice());
    let all = concat_chars(mid.as_slice(), tail.as_slice());
    assert(head@ =~= s@.take(i as int));
    assert(tail@ =~= s@.skip(j as int));
    string_of(all.as_slice())
}

/// The splice of `ins` into `s` between byte offsets `a` and `b` stays
/// under the lookups' limit.
fn splice_fits(s: &str, a: usize, b: usize, ins: &str) -> (r: bool)
    requires
        sliceable(s@, a as nat, b as nat),
    ensures
        r == (byte_len(splice(s@, a as int, b as int, ins@)) < u32::MAX),
{
    let t = splice_text(s, a, b, ins);
    let n = str_byte_len(t.as_str());
    n < u32::MAX as usize
}

/// The byte offset that the lookup of (UTF-16) position `line`:`col` of
/// `text` gives, where it gives one.
pub open spec fn utf16_offset(text: Seq<char>, line: u32, col: u32) -> Option<nat> {
    match utf16_to_utf8_col(text, line, col) {
        Some(c) => if line <= newline_count(text) {
            Some(byte_offset(text, line_start_index(text, line as int)) + c as nat)
        } else {
            None
        },
        None => None,
    }
}

/// Text of the error for a position whose column has no UTF-8 counterpart.
pub open spec fn wide_error_text(line: nat, col: nat) -> Seq<char> {
    "Failed to convert wide line/column to UTF-8 for line "@ + decimal(line) + ", column "@
        + decimal(col)
}

/// Text of the error for a position on a line that does not exist.
pub open spec fn offset_error_text(line: nat, col: nat) -> Seq<char> {
    "Failed to calculate character offset for line "@ + decimal(line) + ", column "@ + decimal(
        col,
    )
}

fn message_with_position(prefix: &str, line: usize, col: usize) -> (s: String)
    ensures
        s@ == prefix@ + decimal(line as nat) + ", column "@ + decimal(col as nat),
{
    let a = concat_chars(chars_of(prefix).as_slice(), decimal_string(line as u64).as_slice());
    let b = concat_chars(a.as_slice(), chars_of(", column ").as_slice());
    let c = concat_chars(b.as_slice(), decimal_string(col as u64).as_slice());
    string_of(c.as_slice())
}

/// Convert UTF-16 line/column to byte offset
/// - "column" in (line, column) is the the "utf-16 code unit" offset, in which a emoji/Chinese character may span 2 units.
/// - (line, column) in UTF-8 is the all "byte offset" based
pub fn position_to_offset(text: &str, line: usize, character: usize) -> (r: PathServerResult<
    usize,
>)
    requires
        byte_len(text@) < u32::MAX,
        byte_len(text@) + (character as u32) <= u32::MAX,
    ensures
        match r {
            Ok(o) => utf16_offset(text@, line as u32, character as u32) == Some(o as nat),
            Err(e) => utf16_offset(text@, line as u32, character as u32) is None && match e {
                PathServerError::EncodingError(m) => m@ == if utf16_to_utf8_col(
                    text@,
                    line as u32,
                    character as u32,
                ) is None {
                    wide_error_text(line as nat, character as nat)
                } else {
                    offset_error_text(line as nat, character as nat)
                },
                _ => false,
            },
        },
        forall|i: int|
            0 <= i <= text@.len() && #[trigger] line_at(text@, i) == line as u32 && #[trigger] col16_at(
                text@,
                i,
            ) == character as u32 ==> (r matches Ok(o) && o == byte_offset(text@, i)),
{
    let l = line as u32;
    let c = character as u32;
    let c8 = match index_to_utf8(text, l, c) {
        Some(c8) => c8,
        None => {
            return Err(
                PathServerError::EncodingError(
                    message_with_position(
                        "Failed to convert wide line/column to UTF-8 for line ",
                        line,
                        character,
                    ),
                ),
            );
        },
    };
    let off = index_offset(text, l, c8);
    proof {
        assert forall|i: int|
            0 <= i <= text@.len() && #[trigger] line_at(text@, i) == l && #[trigger] col16_at(
                text@,
                i,
            ) == c implies off is Some && off->0 == byte_offset(text@, i) by {
            lemma_offset_by_column(text@, i);
        }
    }
    match off {
        Some(o) => Ok(o as usize),
        None => Err(
            PathServerError::EncodingError(
                message_with_position(
                    "Failed to calculate character offset for line ",
                    line,
                    character,
                ),
            ),
        ),
    }
}

/// The (UTF-16) position of byte offset `offset` of `text`: its line and its
/// UTF-16 column.
pub fn offset_to_position(text: &str, offset: usize) -> (r: PathServerResult<(usize, usize)>)
    requires
        byte_len(text@) < u32::MAX,
        is_boundary(text@, (offset as u32) as int),
    ensures
        forall|i: int|
            0 <= i <= text@.len() && #[trigger] byte_offset(text@, i) == offset as u32 ==> (r matches Ok(
                p,
            ) && p.0 == line_at(text@, i) && p.1 == col16_at(text@, i)),
{
    let o = offset as u32;
    let ghost k = choose|k: int| 0 <= k <= text@.len() && byte_offset(text@, k) == o as int;
    let (line, col) = index_line_col(text, o);
    assert(line == line_at(text@, k) && col == col8_at(text@, k));
    let w = index_to_wide(text, line, col);
    proof {
        assert(w is Some && w->0 == col16_at(text@, k));
        assert forall|i: int|
            0 <= i <= text@.len() && #[trigger] byte_offset(text@, i) == o implies i == k by {
            crate::text::lemma_byte_offset_injective(text@, i, k);
        }
    }
    match w {
        Some(w) => Ok((line as usize, w as usize)),
        None => {
            let a = concat_chars(
                chars_of("Failed to convert offset to wide position for offset ").as_slice(),
                decimal_string(offset as u64).as_slice(),
            );
            Err(PathServerError::EncodingError(string_of(a.as_slice())))
        },
    }
}

} // verus!
