//! Character-level helpers shared by the parsers: UTF-8 widths, byte
//! offsets of character prefixes, and the conversions between `str` and
//! character vectors.

use vstd::prelude::*;

verus! {

/// Number of bytes that the UTF-8 encoding of `c` takes.
pub open spec fn utf8_width(c: char) -> nat {
    if (c as u32) < 0x80 {
        1
    } else if (c as u32) < 0x800 {
        2
    } else if (c as u32) < 0x10000 {
        3
    } else {
        4
    }
}

/// Number of bytes of the UTF-8 encoding of the character sequence `s`.
pub open spec fn byte_len(s: Seq<char>) -> nat
    decreases s.len(),
{
    if s.len() == 0 {
        0
    } else {
        byte_len(s.drop_last()) + utf8_width(s.last())
    }
}

/// Byte offset at which the character with index `k` of `s` starts.
pub open spec fn byte_offset(s: Seq<char>, k: int) -> nat {
    byte_len(s.take(k))
}

/// `b` is a byte offset of `s` that falls between two characters (or at an end).
pub open spec fn is_boundary(s: Seq<char>, b: int) -> bool {
    exists|k: int| 0 <= k <= s.len() && byte_offset(s, k) == b
}

pub proof fn lemma_byte_len_concat(a: Seq<char>, b: Seq<char>)
    ensures
        byte_len(a + b) == byte_len(a) + byte_len(b),
    decreases b.len(),
{
    if b.len() == 0 {
        assert(a + b =~= a);
    } else {
        lemma_byte_len_concat(a, b.drop_last());
        assert((a + b).drop_last() =~= a + b.drop_last());
    }
}

pub proof fn lemma_byte_offset_step(s: Seq<char>, k: int)
    requires
        0 <= k < s.len(),
    ensures
        byte_offset(s, k + 1) == byte_offset(s, k) + utf8_width(s[k]),
{
    assert(s.take(k + 1).drop_last() =~= s.take(k));
}

pub proof fn lemma_byte_offset_full(s: Seq<char>)
    ensures
        byte_offset(s, s.len() as int) == byte_len(s),
{
    assert(s.take(s.len() as int) =~= s);
}

/// Byte offsets grow strictly with the character index.
pub proof fn lemma_byte_offset_strict(s: Seq<char>, i: int, j: int)
    requires
        0 <= i < j <= s.len(),
    ensures
        byte_offset(s, i) + (j - i) <= byte_offset(s, j),
    decreases j - i,
{
    lemma_byte_offset_step(s, j - 1);
    if i < j - 1 {
        lemma_byte_offset_strict(s, i, j - 1);
    }
}

pub proof fn lemma_byte_offset_mono(s: Seq<char>, i: int, j: int)
    requires
        0 <= i <= j <= s.len(),
    ensures
        byte_offset(s, i) <= byte_offset(s, j),
        i < j ==> byte_offset(s, i) < byte_offset(s, j),
{
    if i < j {
        lemma_byte_offset_strict(s, i, j);
    }
}

/// A byte boundary determines the character index uniquely.
pub proof fn lemma_byte_offset_injective(s: Seq<char>, i: int, j: int)
    requires
        0 <= i <= s.len(),
        0 <= j <= s.len(),
        byte_offset(s, i) == byte_offset(s, j),
    ensures
        i == j,
{
    if i < j {
        lemma_byte_offset_mono(s, i, j);
    } else if j < i {
        lemma_byte_offset_mono(s, j, i);
    }
}

/// The byte offset of a position inside a subrange, measured from the
/// subrange start.
pub proof fn lemma_byte_offset_subrange(s: Seq<char>, lo: int, k: int)
    requires
        0 <= lo <= k <= s.len(),
    ensures
        byte_offset(s, k) == byte_offset(s, lo) + byte_len(s.subrange(lo, k)),
{
    assert(s.take(k) =~= s.take(lo) + s.subrange(lo, k));
    lemma_byte_len_concat(s.take(lo), s.subrange(lo, k));
}

/// Number of bytes of the UTF-8 encoding of `c`, as `char::len_utf8` counts them.
pub fn char_width(c: char) -> (w: usize)
    ensures
        w == utf8_width(c),
        1 <= w <= 4,
{
    let u = c as u32;
    if u < 0x80 {
        1
    } else if u < 0x800 {
        2
    } else if u < 0x10000 {
        3
    } else {
        4
    }
}

/// Unicode `White_Space` property, the set that `char::is_whitespace` tests.
pub open spec fn is_white_space(c: char) -> bool {
    let u = c as u32;
    ||| 0x09 <= u <= 0x0D
    ||| u == 0x20
    ||| u == 0x85
    ||| u == 0xA0
    ||| u == 0x1680
    ||| 0x2000 <= u <= 0x200A
    ||| u == 0x2028
    ||| u == 0x2029
    ||| u == 0x202F
    ||| u == 0x205F
    ||| u == 0x3000
}

pub fn is_whitespace(c: char) -> (r: bool)
    ensures
        r == is_white_space(c),
{
    let u = c as u32;
    (0x09 <= u && u <= 0x0D) || u == 0x20 || u == 0x85 || u == 0xA0 || u == 0x1680 || (0x2000
        <= u && u <= 0x200A) || u == 0x2028 || u == 0x2029 || u == 0x202F || u == 0x205F || u
        == 0x3000
}

pub open spec fn is_ascii_alpha(c: char) -> bool {
    ('a' <= c && c <= 'z') || ('A' <= c && c <= 'Z')
}

pub fn is_ascii_alphabetic(c: char) -> (r: bool)
    ensures
        r == is_ascii_alpha(c),
{
    ('a' <= c && c <= 'z') || ('A' <= c && c <= 'Z')
}

pub open spec fn is_slash(c: char) -> bool {
    c == '/' || c == '\\'
}

/// The characters of `s`, in order (`str::chars`).
pub fn chars_of(s: &str) -> (v: Vec<char>)
    ensures
        v@ == s@,
{
    broadcast use vstd::string::axiom_spec_iter;
    let mut v: Vec<char> = Vec::new();
    for c in it: s.chars()
        invariant
            v@ == it.seq().take(it.index() as int),
    {
        v.push(c);
    }
    v
}

/// The string made of the characters `v`, in order (`String: FromIterator<&char>`).
#[verifier::external_body]
pub fn string_of(v: &[char]) -> (s: String)
    ensures
        s@ == v@,
{
    v.iter().collect()
}

/// The number of bytes of `s` (`str::len`, which counts the bytes of the
/// UTF-8 encoding).
#[verifier::external_body]
pub fn str_byte_len(s: &str) -> (n: usize)
    ensures
        n == byte_len(s@),
{
    s.len()
}

/// Byte length of a character sequence, summed character by character.
pub fn byte_len_of(v: &[char]) -> (n: usize)
    requires
        byte_len(v@) <= usize::MAX,
    ensures
        n == byte_len(v@),
{
    let mut n: usize = 0;
    let mut i: usize = 0;
    while i < v.len()
        invariant
            i <= v@.len(),
            n == byte_offset(v@, i as int),
            byte_len(v@) <= usize::MAX,
        decreases v@.len() - i,
    {
        proof {
            lemma_byte_offset_step(v@, i as int);
            lemma_byte_offset_mono(v@, i as int + 1, v@.len() as int);
            lemma_byte_offset_full(v@);
        }
        n = n + char_width(v[i]);
        i = i + 1;
    }
    proof {
        lemma_byte_offset_full(v@);
    }
    n
}

/// Copy of the characters `v[lo..hi]`.
pub fn slice_chars(v: &[char], lo: usize, hi: usize) -> (r: Vec<char>)
    requires
        lo <= hi <= v@.len(),
    ensures
        r@ == v@.subrange(lo as int, hi as int),
{
    let mut r: Vec<char> = Vec::new();
    let mut i = lo;
    while i < hi
        invariant
            lo <= i <= hi,
            hi <= v@.len(),
            r@ == v@.subrange(lo as int, i as int),
        decreases hi - i,
    {
        r.push(v[i]);
        i = i + 1;
        assert(r@ =~= v@.subrange(lo as int, i as int));
    }
    r
}

/// `p` is a prefix of `s`.
pub fn starts_with(s: &[char], p: &[char]) -> (r: bool)
    ensures
        r == p@.is_prefix_of(s@),
{
    if p.len() > s.len() {
        return false;
    }
    let mut k: usize = 0;
    while k < p.len()
        invariant
            k <= p@.len(),
            p@.len() <= s@.len(),
            forall|m: int| 0 <= m < k ==> s@[m] == p@[m],
        decreases p@.len() - k,
    {
        if s[k] != p[k] {
            return false;
        }
        k = k + 1;
    }
    assert(s@.subrange(0, p@.len() as int) =~= p@);
    true
}

/// Where `c` occurs at `i`, it has a last occurrence.
pub proof fn lemma_last_occurrence(s: Seq<char>, c: char, i: int)
    requires
        0 <= i < s.len(),
        s[i] == c,
    ensures
        exists|k: int| 0 <= k < s.len() && s[k] == c && forall|j: int| k < j < s.len() ==> s[j] != c,
    decreases s.len() - i,
{
    if exists|j: int| i < j < s.len() && s[j] == c {
        let j = choose|j: int| i < j < s.len() && s[j] == c;
        lemma_last_occurrence(s, c, j);
    } else {
        assert(forall|j: int| i < j < s.len() ==> s[j] != c);
    }
}

/// `s` contains the character `c`.
pub fn contains_char(s: &[char], c: char) -> (r: bool)
    ensures
        r == s@.contains(c),
{
    let mut i: usize = 0;
    while i < s.len()
        invariant
            i <= s@.len(),
            forall|j: int| 0 <= j < i ==> s@[j] != c,
        decreases s@.len() - i,
    {
        if s[i] == c {
            assert(s@[i as int] == c);
            return true;
        }
        i = i + 1;
    }
    false
}

/// `s` contains a slash or a backslash.
pub fn contains_slash(s: &[char]) -> (r: bool)
    ensures
        r == exists|j: int| 0 <= j < s@.len() && is_slash(#[trigger] s@[j]),
{
    let mut i: usize = 0;
    while i < s.len()
        invariant
            i <= s@.len(),
            forall|j: int| 0 <= j < i ==> !is_slash(#[trigger] s@[j]),
        decreases s@.len() - i,
    {
        if s[i] == '/' || s[i] == '\\' {
            assert(is_slash(s@[i as int]));
            return true;
        }
        i = i + 1;
    }
    false
}

/// Lexicographic order of character sequences by code point, which is the
/// order of `String`'s `Ord` (UTF-8 byte order agrees with code point order).
pub open spec fn lex_lt(a: Seq<char>, b: Seq<char>) -> bool
    decreases a.len(),
{
    if a.len() == 0 {
        b.len() > 0
    } else if b.len() == 0 {
        false
    } else if (a[0] as u32) < (b[0] as u32) {
        true
    } else if a[0] == b[0] {
        lex_lt(a.drop_first(), b.drop_first())
    } else {
        false
    }
}

pub proof fn lemma_lex_irreflexive(a: Seq<char>)
    ensures
        !lex_lt(a, a),
    decreases a.len(),
{
    if a.len() > 0 {
        lemma_lex_irreflexive(a.drop_first());
    }
}

pub proof fn lemma_lex_asymmetric(a: Seq<char>, b: Seq<char>)
    ensures
        !(lex_lt(a, b) && lex_lt(b, a)),
    decreases a.len(),
{
    if a.len() > 0 && b.len() > 0 && a[0] == b[0] {
        lemma_lex_asymmetric(a.drop_first(), b.drop_first());
    }
}

pub proof fn lemma_lex_total(a: Seq<char>, b: Seq<char>)
    ensures
        a != b ==> lex_lt(a, b) || lex_lt(b, a),
    decreases a.len(),
{
    if a.len() > 0 && b.len() > 0 && a[0] == b[0] {
        lemma_lex_total(a.drop_first(), b.drop_first());
        if a.drop_first() == b.drop_first() {
            assert(a =~= seq![a[0]] + a.drop_first());
            assert(b =~= seq![b[0]] + b.drop_first());
        }
    } else if a.len() > 0 && b.len() > 0 {
        assert((a[0] as u32) != (b[0] as u32)) by {
            if (a[0] as u32) == (b[0] as u32) {
                vstd::utf8::char_u32_cast(a[0], a[0] as u32);
                vstd::utf8::char_u32_cast(b[0], b[0] as u32);
            }
        }
    } else if a.len() == 0 && b.len() == 0 {
        assert(a =~= b);
    }
}

pub proof fn lemma_lex_transitive(a: Seq<char>, b: Seq<char>, c: Seq<char>)
    requires
        lex_lt(a, b),
        lex_lt(b, c),
    ensures
        lex_lt(a, c),
    decreases a.len(),
{
    if a.len() > 0 && b.len() > 0 && c.len() > 0 && a[0] == b[0] && b[0] == c[0] {
        lemma_lex_transitive(a.drop_first(), b.drop_first(), c.drop_first());
    }
}

/// `a` comes strictly before `b` in lexicographic code point order.
pub fn lex_less(a: &[char], b: &[char]) -> (r: bool)
    ensures
        r == lex_lt(a@, b@),
{
    let mut i: usize = 0;
    assert(a@.skip(0) =~= a@);
    assert(b@.skip(0) =~= b@);
    while i < a.len() && i < b.len()
        invariant
            i <= a@.len(),
            i <= b@.len(),
            a@.take(i as int) == b@.take(i as int),
            lex_lt(a@, b@) == lex_lt(a@.skip(i as int), b@.skip(i as int)),
        decreases a@.len() - i,
    {
        let ca = a[i];
        let cb = b[i];
        assert(a@.skip(i as int)[0] == ca);
        assert(b@.skip(i as int)[0] == cb);
        if (ca as u32) < (cb as u32) {
            return true;
        }
        if ca != cb {
            return false;
        }
        proof {
            assert(a@.skip(i as int).drop_first() =~= a@.skip(i as int + 1));
            assert(b@.skip(i as int).drop_first() =~= b@.skip(i as int + 1));
            assert(a@.take(i as int + 1) =~= a@.take(i as int).push(ca));
            assert(b@.take(i as int + 1) =~= b@.take(i as int).push(cb));
        }
        i = i + 1;
    }
    proof {
        if i == a.len() {
            assert(a@.skip(i as int).len() == 0);
        } else {
            assert(b@.skip(i as int).len() == 0);
        }
    }
    i == a.len() && i < b.len()
}

/// Character-wise equality of two sequences.
pub fn chars_eq(a: &[char], b: &[char]) -> (r: bool)
    ensures
        r == (a@ == b@),
{
    if a.len() != b.len() {
        return false;
    }
    let mut i: usize = 0;
    while i < a.len()
        invariant
            i <= a@.len(),
            a@.len() == b@.len(),
            forall|j: int| 0 <= j < i ==> a@[j] == b@[j],
        decreases a@.len() - i,
    {
        if a[i] != b[i] {
            return false;
        }
        i = i + 1;
    }
    assert(a@ =~= b@);
    true
}

/// Character index at which byte offset `b` of `v` falls, where `b` is a
/// character boundary of `v`.
pub fn char_index_of_byte(v: &[char], b: usize) -> (r: Option<usize>)
    ensures
        match r {
            Some(k) => k <= v@.len() && byte_offset(v@, k as int) == b,
            None => !is_boundary(v@, b as int),
        },
{
    let mut acc: usize = 0;
    let mut i: usize = 0;
    while i < v.len()
        invariant
            i <= v@.len(),
            acc == byte_offset(v@, i as int),
            acc <= b,
            forall|k: int| 0 <= k < i ==> byte_offset(v@, k) != b,
        decreases v@.len() - i,
    {
        if acc == b {
            return Some(i);
        }
        proof {
            lemma_byte_offset_step(v@, i as int);
        }
        let w = char_width(v[i]);
        if w > b - acc {
            proof {
                assert forall|k: int| 0 <= k <= v@.len() implies byte_offset(v@, k) != b by {
                    if k > i {
                        lemma_byte_offset_mono(v@, i as int + 1, k);
                    }
                }
            }
            return None;
        }
        acc = acc + w;
        i = i + 1;
    }
    if acc == b {
        Some(i)
    } else {
        None
    }
}

/// Character-wise equality of two strings.
pub fn str_eq(a: &str, b: &str) -> (r: bool)
    ensures
        r == (a@ == b@),
{
    let va = chars_of(a);
    let vb = chars_of(b);
    chars_eq(va.as_slice(), vb.as_slice())
}

/// The characters of `a` followed by those of `b`.
pub fn concat_chars(a: &[char], b: &[char]) -> (r: Vec<char>)
    ensures
        r@ == a@ + b@,
{
    let mut r = slice_chars(a, 0, a.len());
    assert(a@.subrange(0, a@.len() as int) =~= a@);
    let mut i: usize = 0;
    while i < b.len()
        invariant
            i <= b@.len(),
            r@ == a@ + b@.take(i as int),
        decreases b@.len() - i,
    {
        r.push(b[i]);
        i = i + 1;
        assert(r@ =~= a@ + b@.take(i as int));
    }
    assert(b@.take(b@.len() as int) =~= b@);
    r
}

/// Decimal digits of `n`, most significant first, without leading zeros
/// ("0" for zero).
pub open spec fn decimal(n: nat) -> Seq<char>
    decreases n,
{
    if n < 10 {
        seq![digit_char(n)]
    } else {
        decimal(n / 10).push(digit_char(n % 10))
    }
}

pub open spec fn digit_char(d: nat) -> char {
    if d == 0 { '0' } else if d == 1 { '1' } else if d == 2 { '2' } else if d == 3 { '3' }
    else if d == 4 { '4' } else if d == 5 { '5' } else if d == 6 { '6' } else if d == 7 { '7' }
    else if d == 8 { '8' } else { '9' }
}

fn digit(d: u64) -> (c: char)
    requires
        d < 10,
    ensures
        c == digit_char(d as nat),
{
    if d == 0 { '0' } else if d == 1 { '1' } else if d == 2 { '2' } else if d == 3 { '3' }
    else if d == 4 { '4' } else if d == 5 { '5' } else if d == 6 { '6' } else if d == 7 { '7' }
    else if d == 8 { '8' } else { '9' }
}

/// The decimal text of `n`, as `to_string` writes it.
pub fn decimal_string(n: u64) -> (s: Vec<char>)
    ensures
        s@ == decimal(n as nat),
    decreases n,
{
    if n < 10 {
        let v = vec![digit(n)];
        assert(v@ =~= seq![digit_char(n as nat)]);
        v
    } else {
        let mut v = decimal_string(n / 10);
        v.push(digit(n % 10));
        v
    }
}

} // verus!
