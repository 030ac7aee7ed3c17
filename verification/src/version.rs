//! Release versions of the server's executable (`v1.2.3`), their order, and
//! the choice of the executable to run among those installed.

use vstd::prelude::*;

use crate::config::occurs;
use crate::text::{
    chars_eq, chars_of, concat_chars, decimal, decimal_string, starts_with, string_of,
};

verus! {

/// `s` without one leading `v`.
pub open spec fn strip_v(s: Seq<char>) -> Seq<char> {
    if s.len() > 0 && s[0] == 'v' {
        s.skip(1)
    } else {
        s
    }
}

/// The pieces of `s` between the occurrences of `c`, as `str::split` gives
/// them (one empty piece for an empty text).
pub open spec fn split_on(s: Seq<char>, c: char) -> Seq<Seq<char>>
    decreases s.len(),
{
    if s.len() == 0 {
        seq![Seq::empty()]
    } else {
        let rest = split_on(s.drop_last(), c);
        if s.last() == c {
            rest.push(Seq::empty())
        } else {
            rest.update(rest.len() - 1, rest.last().push(s.last()))
        }
    }
}

pub proof fn lemma_split_on_nonempty(s: Seq<char>, c: char)
    ensures
        split_on(s, c).len() >= 1,
    decreases s.len(),
{
    if s.len() > 0 {
        lemma_split_on_nonempty(s.drop_last(), c);
    }
}

pub open spec fn is_digit(c: char) -> bool {
    '0' <= c && c <= '9'
}

/// The number that the decimal digits `d` write.
pub open spec fn digits_value(d: Seq<char>) -> nat
    decreases d.len(),
{
    if d.len() == 0 {
        0
    } else {
        digits_value(d.drop_last()) * 10 + ((d.last() as u32) - ('0' as u32)) as nat
    }
}

/// What `s.parse::<u32>().unwrap_or(0)` gives: the number that an optional
/// `+` and then only decimal digits write, where it fits in `u32`; else 0.
pub open spec fn parse_u32_or_zero(s: Seq<char>) -> nat {
    let d = unsigned_digits(s);
    if d.len() > 0 && all_digits(d) && digits_value(d) <= u32::MAX {
        digits_value(d)
    } else {
        0
    }
}

/// `s` without one leading `+`.
pub open spec fn unsigned_digits(s: Seq<char>) -> Seq<char> {
    if s.len() > 0 && s[0] == '+' {
        s.skip(1)
    } else {
        s
    }
}

pub open spec fn all_digits(d: Seq<char>) -> bool {
    forall|i: int| 0 <= i < d.len() ==> is_digit(#[trigger] d[i])
}

/// The numbers of a version: its dot-separated parts, each parsed.
pub open spec fn version_parts(v: Seq<char>) -> Seq<nat> {
    split_on(strip_v(v), '.').map_values(|p: Seq<char>| parse_u32_or_zero(p))
}

/// `a` is greater than `b` at the first place where they differ among the
/// places both have.
pub open spec fn parts_gt(a: Seq<nat>, b: Seq<nat>) -> bool
    decreases a.len(),
{
    if a.len() == 0 || b.len() == 0 {
        false
    } else if a[0] > b[0] {
        true
    } else if a[0] < b[0] {
        false
    } else {
        parts_gt(a.skip(1), b.skip(1))
    }
}

/// Version `a` is newer than version `b`.
pub open spec fn version_newer(a: Seq<char>, b: Seq<char>) -> bool {
    parts_gt(version_parts(a), version_parts(b))
}

/// No version is newer than itself.
pub proof fn lemma_parts_gt_irreflexive(a: Seq<nat>)
    ensures
        !parts_gt(a, a),
    decreases a.len(),
{
    if a.len() > 0 {
        lemma_parts_gt_irreflexive(a.skip(1));
    }
}

/// Of two versions, at most one is newer than the other.
pub proof fn lemma_parts_gt_asymmetric(a: Seq<nat>, b: Seq<nat>)
    ensures
        !(parts_gt(a, b) && parts_gt(b, a)),
    decreases a.len(),
{
    if a.len() > 0 && b.len() > 0 && a[0] == b[0] {
        lemma_parts_gt_asymmetric(a.skip(1), b.skip(1));
    }
}

/// Newer than is transitive.
pub proof fn lemma_parts_gt_transitive(a: Seq<nat>, b: Seq<nat>, c: Seq<nat>)
    requires
        parts_gt(a, b),
        parts_gt(b, c),
    ensures
        parts_gt(a, c),
    decreases a.len(),
{
    if a[0] == b[0] && b[0] == c[0] {
        lemma_parts_gt_transitive(a.skip(1), b.skip(1), c.skip(1));
    }
}

/// No version is newer than itself, of two versions at most one is newer
/// than the other, and newer than is transitive.
pub proof fn lemma_version_order(a: Seq<char>, b: Seq<char>, c: Seq<char>)
    ensures
        !version_newer(a, a),
        !(version_newer(a, b) && version_newer(b, a)),
        version_newer(a, b) && version_newer(b, c) ==> version_newer(a, c),
{
    lemma_parts_gt_irreflexive(version_parts(a));
    lemma_parts_gt_asymmetric(version_parts(a), version_parts(b));
    if version_newer(a, b) && version_newer(b, c) {
        lemma_parts_gt_transitive(version_parts(a), version_parts(b), version_parts(c));
    }
}

/// The pieces of `s` between the occurrences of `c`.
fn split_chars(s: &[char], c: char) -> (r: Vec<Vec<char>>)
    ensures
        r@.map_values(|p: Vec<char>| p@) == split_on(s@, c),
{
    let mut pieces: Vec<Vec<char>> = Vec::new();
    pieces.push(Vec::new());
    let mut i: usize = 0;
    assert(s@.take(0) =~= Seq::<char>::empty());
    assert(pieces@.map_values(|p: Vec<char>| p@) =~= split_on(s@.take(0), c));
    while i < s.len()
        invariant
            i <= s@.len(),
            pieces@.len() >= 1,
            pieces@.map_values(|p: Vec<char>| p@) == split_on(s@.take(i as int), c),
        decreases s@.len() - i,
    {
        let ghost before = pieces@.map_values(|p: Vec<char>| p@);
        assert(s@.take(i + 1).drop_last() =~= s@.take(i as int));
        assert(s@.take(i + 1).last() == s@[i as int]);
        if s[i] == c {
            pieces.push(Vec::new());
            assert(pieces@.map_values(|p: Vec<char>| p@) =~= before.push(Seq::empty()));
        } else {
            let last = pieces.len() - 1;
            let mut piece = pieces[last].clone();
            assert(piece@ == before[last as int]);
            piece.push(s[i]);
            pieces.set(last, piece);
            assert(pieces@.map_values(|p: Vec<char>| p@) =~= before.update(
                last as int,
                before[last as int].push(s@[i as int]),
            ));
        }
        i = i + 1;
    }
    assert(s@.take(i as int) =~= s@);
    pieces
}

/// `s.parse::<u32>().unwrap_or(0)`.
fn parse_or_zero(s: &[char]) -> (r: u32)
    ensures
        r == parse_u32_or_zero(s@),
{
    let start: usize = if s.len() > 0 && s[0] == '+' {
        1
    } else {
        0
    };
    let ghost d = unsigned_digits(s@);
    assert(d =~= s@.skip(start as int));
    if start >= s.len() {
        assert(d.len() == 0);
        return 0;
    }
    let mut value: u64 = 0;
    let mut over = false;
    let mut i = start;
    while i < s.len()
        invariant
            start <= i <= s@.len(),
            d == s@.skip(start as int),
            d == unsigned_digits(s@),
            forall|k: int| start <= k < i ==> is_digit(#[trigger] s@[k]),
            !over ==> value == digits_value(s@.subrange(start as int, i as int)) && value
                <= u32::MAX,
            over ==> digits_value(s@.subrange(start as int, i as int)) > u32::MAX,
        decreases s@.len() - i,
    {
        let ch = s[i];
        if !('0' <= ch && ch <= '9') {
            assert(d[i - start] == s@[i as int]);
            assert(!is_digit(d[i - start]));
            assert(!all_digits(d));
            return 0;
        }
        let digit = (ch as u32 - '0' as u32) as u64;
        assert(s@.subrange(start as int, i + 1).drop_last() =~= s@.subrange(start as int, i as int));
        if !over {
            value = value * 10 + digit;
            if value > u32::MAX as u64 {
                over = true;
            }
        }
        i = i + 1;
    }
    assert(s@.subrange(start as int, i as int) =~= d);
    assert forall|k: int| 0 <= k < d.len() implies is_digit(#[trigger] d[k]) by {
        assert(d[k] == s@[start + k]);
    }
    assert(all_digits(d));
    if over {
        0
    } else {
        value as u32
    }
}

pub open spec fn nat_seq(v: Seq<u32>) -> Seq<nat> {
    v.map_values(|x: u32| x as nat)
}

/// The numbers of a version.
fn parts_of(v: &str) -> (r: Vec<u32>)
    ensures
        nat_seq(r@) == version_parts(v@),
{
    let s = chars_of(v);
    let body = if s.len() > 0 && s[0] == 'v' {
        crate::text::slice_chars(s.as_slice(), 1, s.len())
    } else {
        crate::text::slice_chars(s.as_slice(), 0, s.len())
    };
    assert(body@ =~= strip_v(v@));
    let pieces = split_chars(body.as_slice(), '.');
    let ghost pv = pieces@.map_values(|p: Vec<char>| p@);
    let mut r: Vec<u32> = Vec::new();
    let mut i: usize = 0;
    while i < pieces.len()
        invariant
            i <= pieces@.len(),
            pv == pieces@.map_values(|p: Vec<char>| p@),
            pv == split_on(strip_v(v@), '.'),
            nat_seq(r@) == pv.take(i as int).map_values(
                |p: Seq<char>| parse_u32_or_zero(p),
            ),
        decreases pieces@.len() - i,
    {
        let x = parse_or_zero(pieces[i].as_slice());
        let ghost before = r@;
        r.push(x);
        assert(pv[i as int] == pieces@[i as int]@);
        assert(pv.take(i + 1) =~= pv.take(i as int).push(pv[i as int]));
        assert(nat_seq(r@) =~= nat_seq(before).push(x as nat));
        i = i + 1;
    }
    assert(pv.take(i as int) =~= pv);
    r
}

/// Whether version `a` is newer than version `b`: an optional leading `v`
/// dropped, the dot-separated parts are compared as numbers (a part that is
/// no number counts as 0) place by place, over the places both have.
pub fn version_gt(a: &str, b: &str) -> (r: bool)
    ensures
        r == version_newer(a@, b@),
{
    let a_parts = parts_of(a);
    let b_parts = parts_of(b);
    let ghost av = nat_seq(a_parts@);
    let ghost bv = nat_seq(b_parts@);
    let mut i: usize = 0;
    assert(av.skip(0) =~= av && bv.skip(0) =~= bv);
    while i < a_parts.len() && i < b_parts.len()
        invariant
            i <= a_parts@.len(),
            i <= b_parts@.len(),
            av == nat_seq(a_parts@),
            bv == nat_seq(b_parts@),
            av == version_parts(a@),
            bv == version_parts(b@),
            parts_gt(av, bv) == parts_gt(av.skip(i as int), bv.skip(i as int)),
        decreases a_parts@.len() - i,
    {
        let x = a_parts[i];
        let y = b_parts[i];
        assert(av.skip(i as int)[0] == x && bv.skip(i as int)[0] == y);
        assert(av.skip(i as int).len() > 0 && bv.skip(i as int).len() > 0);
        if x > y {
            return true;
        }
        if x < y {
            return false;
        }
        assert(av.skip(i as int).skip(1) =~= av.skip(i + 1));
        assert(bv.skip(i as int).skip(1) =~= bv.skip(i + 1));
        i = i + 1;
    }
    assert(av.skip(i as int).len() == 0 || bv.skip(i as int).len() == 0);
    false
}

pub open spec fn binary_prefix() -> Seq<char> {
    "path-server_"@
}

/// The newest version so far after seeing the file name `n`: an executable
/// `path-server_<version>_<target>` brings its version in where there is no
/// version yet or it is newer.
pub open spec fn newest_step(m: Option<Seq<char>>, n: Seq<char>) -> Option<Seq<char>> {
    if binary_prefix().is_prefix_of(n) && split_on(n, '_').len() >= 2 {
        let v = split_on(n, '_')[1];
        match m {
            None => Some(v),
            Some(x) => if version_newer(v, x) {
                Some(v)
            } else {
                m
            },
        }
    } else {
        m
    }
}

/// The newest installed version among the file names `names` (`None` in
/// the outer option where a name is not valid Unicode, for which the search
/// gives up).
pub open spec fn newest_installed(names: Seq<Option<Seq<char>>>) -> Option<Option<Seq<char>>>
    decreases names.len(),
{
    if names.len() == 0 {
        Some(None)
    } else {
        match newest_installed(names.drop_last()) {
            None => None,
            Some(m) => match names.last() {
                None => None,
                Some(n) => Some(newest_step(m, n)),
            },
        }
    }
}

pub open spec fn names_view(v: Seq<Option<String>>) -> Seq<Option<Seq<char>>> {
    v.map_values(
        |o: Option<String>|
            match o {
                Some(s) => Some(s@),
                None => None,
            },
    )
}

/// Find the highest version among the file names of the executable
/// directory (`None` for a name that is no valid Unicode).
pub fn get_installed_version(names: &Vec<Option<String>>) -> (r: Option<String>)
    ensures
        match newest_installed(names_view(names@)) {
            None => r is None,
            Some(m) => match m {
                None => r is None,
                Some(v) => r matches Some(s) && s@ == v,
            },
        },
{
    let ghost nv = names_view(names@);
    let prefix = chars_of("path-server_");
    let mut max_version: Option<Vec<char>> = None;
    let mut i: usize = 0;
    while i < names.len()
        invariant
            i <= names@.len(),
            nv == names_view(names@),
            prefix@ == binary_prefix(),
            newest_installed(nv.take(i as int)) == Some(
                match max_version {
                    Some(v) => Some(v@),
                    None => None,
                },
            ),
        decreases names@.len() - i,
    {
        assert(nv.take(i + 1).drop_last() =~= nv.take(i as int));
        let name = match &names[i] {
            Some(n) => chars_of(n.as_str()),
            None => {
                assert(nv[i as int] is None);
                assert(newest_installed(nv) is None) by {
                    lemma_newest_installed_gives_up(nv, i as int + 1);
                }
                return None;
            },
        };
        assert(nv[i as int] == Some(name@));
        if starts_with(name.as_slice(), prefix.as_slice()) {
            let parts = split_chars(name.as_slice(), '_');
            if parts.len() >= 2 {
                let version = parts[1].clone();
                assert(version@ == split_on(name@, '_')[1]) by {
                    assert(parts@.map_values(|p: Vec<char>| p@)[1] == parts@[1]@);
                }
                let newer = match &max_version {
                    None => true,
                    Some(m) => version_gt(
                        string_of(version.as_slice()).as_str(),
                        string_of(m.as_slice()).as_str(),
                    ),
                };
                if newer {
                    max_version = Some(version);
                }
            } else {
                assert(split_on(name@, '_').len() < 2) by {
                    assert(parts@.map_values(|p: Vec<char>| p@).len() == parts@.len());
                }
            }
        }
        i = i + 1;
    }
    assert(nv.take(i as int) =~= nv);
    match max_version {
        Some(v) => Some(string_of(v.as_slice())),
        None => None,
    }
}

/// Once a name is no valid Unicode, the search gives up for good.
proof fn lemma_newest_installed_gives_up(names: Seq<Option<Seq<char>>>, k: int)
    requires
        0 < k <= names.len(),
        names[k - 1] is None,
    ensures
        newest_installed(names) is None,
    decreases names.len(),
{
    if names.len() > k {
        lemma_newest_installed_gives_up(names.drop_last(), k);
    } else {
        assert(names.last() is None);
    }
}

/// The tag prefix of major version `m`: `v<m>.`.
pub open spec fn major_tag(m: u32) -> Seq<char> {
    "v"@ + decimal(m as nat) + "."@
}

/// `version` belongs to one of the major versions `majors`.
pub open spec fn compatible(version: Seq<char>, majors: Seq<u32>) -> bool {
    exists|k: int| 0 <= k < majors.len() && major_tag(#[trigger] majors[k]).is_prefix_of(version)
}

/// Whether the release `version` belongs to one of the major versions
/// `majors`.
pub fn is_compatible(version: &str, majors: &[u32]) -> (r: bool)
    ensures
        r == compatible(version@, majors@),
{
    let v = chars_of(version);
    let mut k: usize = 0;
    while k < majors.len()
        invariant
            k <= majors@.len(),
            v@ == version@,
            forall|j: int| 0 <= j < k ==> !major_tag(#[trigger] majors@[j]).is_prefix_of(version@),
        decreases majors@.len() - k,
    {
        let a = concat_chars(chars_of("v").as_slice(), decimal_string(majors[k] as u64).as_slice());
        let tag = concat_chars(a.as_slice(), chars_of(".").as_slice());
        assert(tag@ == major_tag(majors@[k as int]));
        if starts_with(v.as_slice(), tag.as_slice()) {
            return true;
        }
        k = k + 1;
    }
    false
}

/// What the outcome of a release check is: an update, no update, or an
/// incompatible release (with the error's text).
pub open spec fn release_decision_spec(
    release: Seq<char>,
    current: Option<Seq<char>>,
    majors: Seq<u32>,
) -> Result<bool, Seq<char>> {
    if !compatible(release, majors) {
        Err("Incompatible version: "@ + release)
    } else if current matches Some(c) && !version_newer(release, c) {
        Ok(false)
    } else {
        Ok(true)
    }
}

/// Whether the latest release is to be installed: an error where it belongs
/// to no compatible major version, `false` where it is not newer than the
/// installed version, else `true`.
pub fn release_decision(release: &str, current: &Option<String>, majors: &[u32]) -> (r: Result<
    bool,
    String,
>)
    ensures
        match release_decision_spec(
            release@,
            match current {
                Some(c) => Some(c@),
                None => None,
            },
            majors@,
        ) {
            Ok(b) => r == Ok::<bool, String>(b),
            Err(m) => r matches Err(e) && e@ == m,
        },
{
    if !is_compatible(release, majors) {
        let m = concat_chars(chars_of("Incompatible version: ").as_slice(), chars_of(release).as_slice());
        return Err(string_of(m.as_slice()));
    }
    if let Some(c) = current {
        if !version_gt(release, c.as_str()) {
            return Ok(false);
        }
    }
    Ok(true)
}

/// Operating systems an executable is released for.
#[derive(Debug, Clone, Copy, PartialEq, Eq, Structural)]
pub enum Os {
    Mac,
    Linux,
    Windows,
}

/// Processor architectures.
#[derive(Debug, Clone, Copy, PartialEq, Eq, Structural)]
pub enum Architecture {
    Aarch64,
    X86,
    X8664,
}

pub open spec fn target_of(os: Os, arch: Architecture) -> Option<Seq<char>> {
    match (os, arch) {
        (Os::Mac, Architecture::X8664) => Some("x86_64-apple-darwin"@),
        (Os::Mac, Architecture::Aarch64) => Some("aarch64-apple-darwin"@),
        (Os::Linux, Architecture::X8664) => Some("x86_64-unknown-linux-gnu"@),
        (Os::Linux, Architecture::Aarch64) => Some("aarch64-unknown-linux-gnu"@),
        (Os::Windows, Architecture::X8664) => Some("x86_64-pc-windows-msvc.exe"@),
        (Os::Windows, Architecture::Aarch64) => Some("aarch64-pc-windows-msvc.exe"@),
        _ => None,
    }
}

/// The target triple (with the extension of the executable) that is
/// released for a platform, where one is.
pub fn release_target(os: Os, arch: Architecture) -> (r: Option<&'static str>)
    ensures
        match target_of(os, arch) {
            Some(t) => r matches Some(s) && s@ == t,
            None => r is None,
        },
{
    match (os, arch) {
        (Os::Mac, Architecture::X8664) => Some("x86_64-apple-darwin"),
        (Os::Mac, Architecture::Aarch64) => Some("aarch64-apple-darwin"),
        (Os::Linux, Architecture::X8664) => Some("x86_64-unknown-linux-gnu"),
        (Os::Linux, Architecture::Aarch64) => Some("aarch64-unknown-linux-gnu"),
        (Os::Windows, Architecture::X8664) => Some("x86_64-pc-windows-msvc.exe"),
        (Os::Windows, Architecture::Aarch64) => Some("aarch64-pc-windows-msvc.exe"),
        _ => None,
    }
}

/// The name of the released executable of `version` for `target`:
/// `path-server_<version>_<target>`.
pub fn asset_name(version: &str, target: &str) -> (r: String)
    ensures
        r@ == binary_prefix() + version@ + "_"@ + target@,
{
    let a = concat_chars(chars_of("path-server_").as_slice(), chars_of(version).as_slice());
    let b = concat_chars(a.as_slice(), chars_of("_").as_slice());
    let c = concat_chars(b.as_slice(), chars_of(target).as_slice());
    string_of(c.as_slice())
}

/// Whether the file `name` is an older executable to remove once `asset` is
/// installed: another `path-server_` file.
pub fn is_stale_binary(name: &str, asset: &str) -> (r: bool)
    ensures
        r == (binary_prefix().is_prefix_of(name@) && name@ != asset@),
{
    let n = chars_of(name);
    starts_with(n.as_slice(), chars_of("path-server_").as_slice()) && !chars_eq(
        n.as_slice(),
        chars_of(asset).as_slice(),
    )
}

/// Text of the error where nothing can be run and no update came.
pub open spec fn no_update_text() -> Seq<char> {
    "No cached executable found and no update available"@
}

/// Text of the error where nothing can be run and the update failed.
pub open spec fn update_failed_text(detail: Seq<char>) -> Seq<char> {
    "No cached executable found and update failed: "@ + detail
}

/// The version to run: a freshly installed one, else the installed one;
/// an error where there is none.
pub fn version_to_run(current: Option<String>, fetched: Result<Option<String>, String>) -> (r:
    Result<String, String>)
    ensures
        match fetched {
            Ok(Some(v)) => r matches Ok(s) && s@ == v@,
            Ok(None) => match current {
                Some(c) => r matches Ok(s) && s@ == c@,
                None => r matches Err(e) && e@ == no_update_text(),
            },
            Err(d) => match current {
                Some(c) => r matches Ok(s) && s@ == c@,
                None => r matches Err(e) && e@ == update_failed_text(d@),
            },
        },
{
    match fetched {
        Ok(Some(v)) => Ok(v),
        Ok(None) => match current {
            Some(c) => Ok(c),
            None => Err(string_of(chars_of("No cached executable found and no update available").as_slice())),
        },
        Err(d) => match current {
            Some(c) => Ok(c),
            None => {
                let m = concat_chars(
                    chars_of("No cached executable found and update failed: ").as_slice(),
                    chars_of(d.as_str()).as_slice(),
                );
                Err(string_of(m.as_slice()))
            },
        },
    }
}

/// Index of the first file name that holds `version`.
pub fn find_binary(names: &Vec<String>, version: &str) -> (r: Option<usize>)
    ensures
        match r {
            Some(i) => i < names@.len() && occurs(names@[i as int]@, version@) && forall|j: int|
                0 <= j < i ==> !occurs(#[trigger] names@[j]@, version@),
            None => forall|j: int| 0 <= j < names@.len() ==> !occurs(#[trigger] names@[j]@, version@),
        },
{
    let v = chars_of(version);
    let mut i: usize = 0;
    while i < names.len()
        invariant
            i <= names@.len(),
            v@ == version@,
            forall|j: int| 0 <= j < i ==> !occurs(#[trigger] names@[j]@, version@),
        decreases names@.len() - i,
    {
        if crate::config::occurs_in(chars_of(names[i].as_str()).as_slice(), v.as_slice()) {
            return Some(i);
        }
        i = i + 1;
    }
    None
}

} // verus!
