//! Completion of a typed path against the workspace roots: which directory
//! to list under each root, and which of its names to offer.

use vstd::prelude::*;

use crate::completion::{join_path, joined, plainly_relative};
use crate::fs::{plain_file_uri, plain_uri_path, uri_file_path, uri_path_char};
use crate::text::{chars_of, is_white_space, is_whitespace, slice_chars, starts_with, string_of};
use crate::workspace::{texts_of, WorkspaceRoots};

verus! {

/// Number of whitespace characters at the end of `s`.
pub open spec fn trailing_ws(s: Seq<char>) -> nat
    decreases s.len(),
{
    if s.len() > 0 && is_white_space(s.last()) {
        1 + trailing_ws(s.drop_last())
    } else {
        0
    }
}

/// Number of non-whitespace characters at the end of `s`.
pub open spec fn trailing_word(s: Seq<char>) -> nat
    decreases s.len(),
{
    if s.len() > 0 && !is_white_space(s.last()) {
        1 + trailing_word(s.drop_last())
    } else {
        0
    }
}

/// The last whitespace-separated word of `s`; `s` itself where it has none.
pub open spec fn last_word_of(s: Seq<char>) -> Seq<char> {
    let t = s.take(s.len() - trailing_ws(s));
    if t.len() == 0 {
        s
    } else {
        t.skip(t.len() - trailing_word(t))
    }
}

proof fn lemma_trailing_ws_len(s: Seq<char>)
    ensures
        trailing_ws(s) <= s.len(),
        trailing_word(s) <= s.len(),
    decreases s.len(),
{
    if s.len() > 0 {
        lemma_trailing_ws_len(s.drop_last());
    }
}

/// Counts the characters at the end of `v[..n]` that are (or are not)
/// whitespace.
fn count_trailing(v: &[char], n: usize, ws: bool) -> (k: usize)
    requires
        n <= v@.len(),
    ensures
        ws ==> k == trailing_ws(v@.take(n as int)),
        !ws ==> k == trailing_word(v@.take(n as int)),
        k <= n,
{
    let mut k: usize = 0;
    while k < n && is_whitespace(v[n - 1 - k]) == ws
        invariant
            k <= n,
            n <= v@.len(),
            ws ==> trailing_ws(v@.take(n as int)) == k + trailing_ws(v@.take(n - k)),
            !ws ==> trailing_word(v@.take(n as int)) == k + trailing_word(v@.take(n - k)),
        decreases n - k,
    {
        assert(v@.take(n - k).drop_last() =~= v@.take(n - k - 1));
        assert(v@.take(n - k).last() == v@[n - 1 - k]);
        k = k + 1;
    }
    if k < n {
        assert(v@.take(n - k).last() == v@[n - 1 - k]);
    } else {
        assert(v@.take(n - k).len() == 0);
    }
    k
}

/// The last whitespace-separated word of `input` (`split_whitespace().last()`),
/// or `input` itself where it has none.
pub fn last_word(input: &str) -> (r: String)
    ensures
        r@ == last_word_of(input@),
{
    let v = chars_of(input);
    let ws = count_trailing(v.as_slice(), v.len(), true);
    assert(v@.take(v@.len() as int) =~= v@);
    let end = v.len() - ws;
    if end == 0 {
        return string_of(v.as_slice());
    }
    let word = count_trailing(v.as_slice(), end, false);
    let r = slice_chars(v.as_slice(), end - word, end);
    proof {
        let t = input@.take(end as int);
        assert(r@ =~= t.skip(t.len() - trailing_word(t)));
    }
    string_of(r.as_slice())
}

/// The names among `names` that start with `filter`, in order.
pub open spec fn names_with_prefix_spec(names: Seq<Seq<char>>, filter: Seq<char>) -> Seq<Seq<char>>
    decreases names.len(),
{
    if names.len() == 0 {
        Seq::empty()
    } else {
        let prev = names_with_prefix_spec(names.drop_last(), filter);
        if filter.is_prefix_of(names.last()) {
            prev.push(names.last())
        } else {
            prev
        }
    }
}

/// The names among `names` that start with `filter`, in order.
pub fn names_with_prefix(names: &Vec<String>, filter: &str) -> (r: Vec<String>)
    ensures
        r@.map_values(|s: String| s@) == names_with_prefix_spec(
            names@.map_values(|s: String| s@),
            filter@,
        ),
{
    let f = chars_of(filter);
    let ghost nv = names@.map_values(|s: String| s@);
    let mut r: Vec<String> = Vec::new();
    let mut i: usize = 0;
    while i < names.len()
        invariant
            i <= names@.len(),
            f@ == filter@,
            nv == names@.map_values(|s: String| s@),
            r@.map_values(|s: String| s@) == names_with_prefix_spec(nv.take(i as int), filter@),
        decreases names@.len() - i,
    {
        let n = chars_of(names[i].as_str());
        let ghost before = r@;
        assert(nv.take(i + 1).drop_last() =~= nv.take(i as int));
        assert(nv.take(i + 1).last() == n@);
        if starts_with(n.as_slice(), f.as_slice()) {
            let s = string_of(n.as_slice());
            r.push(s);
            assert(r@.map_values(|s: String| s@) =~= before.map_values(|s: String| s@).push(s@));
        }
        i = i + 1;
    }
    assert(nv.take(i as int) =~= nv);
    r
}

/// `s` ends with a slash or a backslash.
pub open spec fn ends_with_separator(s: Seq<char>) -> bool {
    s.len() > 0 && (s.last() == '/' || s.last() == '\\')
}

/// Where to look under one root: the directory to list and the start of the
/// names to offer.
#[derive(Debug)]
pub struct RootQuery {
    pub search_dir: String,
    pub filter: String,
}

/// Every root is a plain `file` URI.
pub open spec fn all_plain_file_uris(roots: Set<Seq<char>>) -> bool {
    forall|u: Seq<char>| #[trigger] roots.contains(u) ==> plain_file_uri(u)
}

/// `dir` is the word `w` joined onto a file path of the root `u`.
pub open spec fn root_join(u: Seq<char>, w: Seq<char>, dir: Seq<char>) -> bool {
    exists|p: Seq<char>| plain_uri_path(u, p) && joined(p, w, dir)
}

/// `dir` is the word `w` joined onto a file path of one of `roots`.
pub open spec fn rooted_at(roots: Set<Seq<char>>, w: Seq<char>, dir: Seq<char>) -> bool {
    exists|u: Seq<char>| roots.contains(u) && root_join(u, w, dir)
}

/// `c` separates path components on some platform.
pub open spec fn is_separator(c: char) -> bool {
    c == '/' || c == '\\'
}

/// A file name that every platform reads alike: not empty, neither `.` nor
/// `..`, with no separator and no colon.
pub open spec fn plain_component(n: Seq<char>) -> bool {
    &&& n.len() > 0
    &&& n != seq!['.']
    &&& n != seq!['.', '.']
    &&& !n.contains('/')
    &&& !n.contains('\\')
    &&& !n.contains(':')
}

/// A directory text that every platform reads alike where a component
/// follows it: not empty, ending with neither a separator nor a dot, with no
/// colon, and not starting with two separators.
pub open spec fn plain_parent(a: Seq<char>) -> bool {
    &&& a.len() > 0
    &&& !is_separator(a.last())
    &&& a.last() != '.'
    &&& !a.contains(':')
    &&& !(a.len() >= 2 && is_separator(a[0]) && is_separator(a[1]))
}

/// `path` is the directory `a`, a slash and the plain file name `n`.
pub open spec fn split_at_slash(path: Seq<char>, a: Seq<char>, n: Seq<char>) -> bool {
    path == a + seq!['/'] + n && plain_parent(a) && plain_component(n)
}

/// `Path::parent` and `Path::file_name` of `path`, as text. Stated for a
/// path that is a plain directory, a slash and a plain file name: the parent
/// is the directory and the file name is the name, on every platform (the
/// last component is the name; `parent` gives the text before it, less the
/// separator). How other paths split depends on the platform.
#[verifier::external_body]
fn parent_and_name(path: &str) -> (r: (Option<String>, Option<String>))
    ensures
        forall|a: Seq<char>, n: Seq<char>|
            #[trigger] split_at_slash(path@, a, n) ==> r.0 is Some && r.0->0@ == a && r.1 is Some
                && r.1->0@ == n,
{
    let p = std::path::Path::new(path);
    (
        p.parent().map(|d| d.to_string_lossy().into_owned()),
        p.file_name().and_then(|n| n.to_str()).map(|n| n.to_string()),
    )
}

/// The typed word `w` is a directory part `d`, a slash and a plain file name
/// `n`.
pub open spec fn word_split(w: Seq<char>, d: Seq<char>, n: Seq<char>) -> bool {
    split_at_slash(w, d, n)
}

/// No root names a path that starts with two slashes.
pub open spec fn no_doubled_root(roots: Set<Seq<char>>) -> bool {
    forall|u: Seq<char>| #[trigger] roots.contains(u) && u.len() > 8 ==> u[8] != '/'
}

/// The path that a plain `file` URI names holds no colon and no backslash,
/// and starts with two slashes only where the URI's path does.
proof fn lemma_plain_root_path(u: Seq<char>, p: Seq<char>)
    requires
        plain_file_uri(u),
        plain_uri_path(u, p),
        u.len() > 8 ==> u[8] != '/',
    ensures
        !p.contains(':'),
        !p.contains('\\'),
        !(p.len() >= 2 && is_separator(p[0]) && is_separator(p[1])),
{
    let t = u.skip(8);
    assert forall|i: int| 0 <= i < t.len() implies uri_path_char(#[trigger] t[i]) by {
        assert(t[i] == u[i + 8]);
    }
    if p.contains(':') || p.contains('\\') {
        let i = choose|i: int| 0 <= i < p.len() && (p[i] == ':' || p[i] == '\\');
        if p == t {
            assert(uri_path_char(t[i]));
        } else {
            assert(p =~= seq!['/'] + t);
            assert(uri_path_char(t[i - 1]));
        }
    }
    if p.len() >= 2 && is_separator(p[0]) && is_separator(p[1]) {
        if p == t {
            assert(t[0] == u[8]);
            assert(uri_path_char(t[1]));
        } else {
            assert(p =~= seq!['/'] + t);
            assert(p[1] == u[8]);
        }
    }
}

/// A word `d/n` joined onto a root path splits into `d` joined onto that
/// path, a slash and `n`.
proof fn lemma_join_split(p: Seq<char>, w: Seq<char>, d: Seq<char>, n: Seq<char>, full: Seq<char>)
    requires
        joined(p, w, full),
        word_split(w, d, n),
        plainly_relative(w),
        !p.contains(':'),
        !p.contains('\\'),
        !(p.len() >= 2 && is_separator(p[0]) && is_separator(p[1])),
    ensures
        exists|a: Seq<char>| joined(p, d, a) && split_at_slash(full, a, n),
{
    let x = full.take(full.len() - w.len());
    let a = x + d;
    assert(w =~= d + seq!['/'] + n);
    if full == p + w {
        assert(full =~= p + d + seq!['/'] + n);
        assert(x =~= p);
        assert(full =~= a + seq!['/'] + n);
        assert(joined(p, d, a)) by {
            if p.len() > 0 && p.last() != '/' && p.last() != '\\' && p.last() != ':' {
                let c = choose|c: char| (c == '/' || c == '\\') && full == p + seq![c] + w;
                assert((p + seq![c] + w).len() == p.len() + 1 + w.len());
                assert(false);
            }
            if p.len() == 0 {
                assert(a =~= d);
            }
        }
    } else {
        let c = choose|c: char| (c == '/' || c == '\\') && full == p + seq![c] + w;
        assert(full =~= p + seq![c] + d + seq!['/'] + n);
        assert(x =~= p + seq![c]);
        assert(full =~= a + seq!['/'] + n);
        assert(joined(p, d, a)) by {
            assert(a =~= p + seq![c] + d);
            if p.len() == 0 {
                assert(full =~= w);
                assert((p + seq![c] + w).len() == 1 + w.len());
                assert(false);
            }
            if p.len() > 0 && p.last() == '/' {
                assert((p + seq![c] + w).len() == p.len() + 1 + w.len());
                assert((p + w).len() == p.len() + w.len());
                assert(false);
            }
        }
    }
    assert(split_at_slash(full, a, n)) by {
        assert(a.last() == d.last());
        assert(!a.contains(':')) by {
            if a.contains(':') {
                let i = choose|i: int| 0 <= i < a.len() && a[i] == ':';
                if i < x.len() {
                    if i < p.len() {
                        assert(p[i] == ':');
                    }
                } else {
                    assert(d[i - x.len()] == ':');
                }
            }
        }
        if a.len() >= 2 && is_separator(a[0]) && is_separator(a[1]) {
            if p.len() >= 2 {
                assert(a[0] == p[0] && a[1] == p[1]);
            } else if p.len() == 1 {
                assert(a[0] == p[0]);
                assert(p[0] == '/');
                assert(x =~= p || x.len() == 2);
                if x.len() == 1 {
                    assert(a[1] == d[0]);
                } else {
                    assert(p.last() == '/');
                }
            } else {
                assert(a =~= d);
            }
        }
    }
}

/// The workspace roots, as URIs, against which typed paths are completed.
pub struct PathResolver {
    workspace_root: WorkspaceRoots,
}

impl PathResolver {
    pub closed spec fn view(&self) -> Set<Seq<char>> {
        self.workspace_root@
    }

    pub closed spec fn wf(&self) -> bool {
        self.workspace_root.wf()
    }

    pub fn new() -> (r: Self)
        ensures
            r.wf(),
            r@ == Set::<Seq<char>>::empty(),
    {
        PathResolver { workspace_root: WorkspaceRoots::new() }
    }

    pub fn add_workspace_root(&mut self, url: &str)
        requires
            old(self).wf(),
        ensures
            final(self).wf(),
            final(self)@ == old(self)@.insert(url@),
    {
        self.workspace_root.insert(string_of(chars_of(url).as_slice()));
    }

    pub fn remove_workspace_root(&mut self, url: &str)
        requires
            old(self).wf(),
        ensures
            final(self).wf(),
            final(self)@ == old(self)@.remove(url@),
    {
        self.workspace_root.remove(url);
    }

    /// Where to look for completions of `input` under each root that names a
    /// file path: the last word of the input, joined onto the root; the
    /// directory it names where it ends with a separator, else its parent
    /// (the root where it has none) with its file name as the start of the
    /// names to offer. For a word that is a plain directory part, a slash and
    /// a plain file name, that name is the start, and the directory part
    /// joined onto the root is the directory to list.
    pub fn complete_queries(&self, input: &str) -> (r: Vec<RootQuery>)
        requires
            self.wf(),
        ensures
            r@.len() <= self@.len(),
            ends_with_separator(last_word_of(input@)) ==> forall|k: int|
                0 <= k < r@.len() ==> (#[trigger] r@[k]).filter@ == Seq::<char>::empty(),
            all_plain_file_uris(self@) ==> r@.len() == self@.len(),
            all_plain_file_uris(self@) && ends_with_separator(last_word_of(input@))
                && plainly_relative(last_word_of(input@)) ==> forall|k: int|
                0 <= k < r@.len() ==> rooted_at(self@, last_word_of(input@), (#[trigger] r@[k]).search_dir@),
            all_plain_file_uris(self@) && no_doubled_root(self@) && plainly_relative(
                last_word_of(input@),
            ) ==> forall|d: Seq<char>, n: Seq<char>, k: int|
                #![trigger word_split(last_word_of(input@), d, n), r@[k]]
                word_split(last_word_of(input@), d, n) && 0 <= k < r@.len() ==> rooted_at(
                    self@,
                    d,
                    r@[k].search_dir@,
                ) && r@[k].filter@ == n,
    {
        let roots = self.workspace_root.list();
        let path_input = last_word(input);
        let pv = chars_of(path_input.as_str());
        let dir_input = pv.len() > 0 && (pv[pv.len() - 1] == '/' || pv[pv.len() - 1] == '\\');
        let mut queries: Vec<RootQuery> = Vec::new();
        let mut i: usize = 0;
        proof {
            crate::workspace::lemma_distinct_len(texts_of(roots@));
        }
        while i < roots.len()
            invariant
                i <= roots@.len(),
                queries@.len() <= i,
                pv@ == last_word_of(input@),
                dir_input == ends_with_separator(pv@),
                dir_input ==> forall|k: int|
                    0 <= k < queries@.len() ==> (#[trigger] queries@[k]).filter@ == Seq::<
                        char,
                    >::empty(),
                texts_of(roots@).to_set() == self@,
                path_input@ == pv@,
                all_plain_file_uris(self@) ==> queries@.len() == i,
                all_plain_file_uris(self@) && dir_input && plainly_relative(pv@) ==> forall|k: int|
                    0 <= k < queries@.len() ==> rooted_at(self@, pv@, (#[trigger] queries@[k]).search_dir@),
                all_plain_file_uris(self@) && no_doubled_root(self@) && plainly_relative(pv@)
                    ==> forall|d: Seq<char>, n: Seq<char>, k: int|
                    #![trigger word_split(pv@, d, n), queries@[k]]
                    word_split(pv@, d, n) && 0 <= k < queries@.len() ==> rooted_at(
                        self@,
                        d,
                        queries@[k].search_dir@,
                    ) && queries@[k].filter@ == n,
            decreases roots@.len() - i,
        {
            let ghost u = roots@[i as int]@;
            proof {
                assert(texts_of(roots@)[i as int] == u);
                assert(texts_of(roots@).to_set().contains(u));
            }
            let rp = uri_file_path(roots[i].as_str());
            if let Some(root_path) = rp {
                let full = join_path(root_path.as_str(), path_input.as_str());
                proof {
                    if all_plain_file_uris(self@) {
                        assert(plain_file_uri(u));
                        assert(plain_uri_path(u, root_path@));
                        if root_path@.len() > 0 {
                            if root_path@ == u.skip(8) {
                                assert(root_path@[0] == u[8]);
                                assert(uri_path_char(u[8]));
                            }
                        }
                        if plainly_relative(path_input@) {
                            assert(joined(root_path@, path_input@, full@));
                            assert(root_join(u, pv@, full@));
                            assert(rooted_at(self@, pv@, full@));
                        }
                    }
                }
                let ghost before = queries@;
                if dir_input {
                    proof {
                        assert forall|d: Seq<char>, n: Seq<char>| word_split(pv@, d, n) implies false by {
                            assert(pv@.last() == n.last());
                        }
                    }
                    queries.push(RootQuery { search_dir: full, filter: String::new() });
                } else {
                    let ghost rp_view = root_path@;
                    let (parent, name) = parent_and_name(full.as_str());
                    let search_dir = match parent {
                        Some(p) => p,
                        None => root_path,
                    };
                    let filter = match name {
                        Some(n) => n,
                        None => String::new(),
                    };
                    proof {
                        if all_plain_file_uris(self@) && no_doubled_root(self@) && plainly_relative(
                            pv@,
                        ) {
                            assert forall|d: Seq<char>, n: Seq<char>| word_split(pv@, d, n) implies
                                rooted_at(self@, d, search_dir@) && filter@ == n by {
                                lemma_plain_root_path(u, rp_view);
                                lemma_join_split(rp_view, pv@, d, n, full@);
                                let a = choose|a: Seq<char>| joined(rp_view, d, a) && split_at_slash(
                                    full@,
                                    a,
                                    n,
                                );
                                assert(split_at_slash(full@, a, n));
                                assert(root_join(u, d, a));
                                assert(self@.contains(u));
                            }
                        }
                    }
                    queries.push(RootQuery { search_dir, filter });
                }
                proof {
                    assert(queries@.drop_last() =~= before);
                }
            }
            i = i + 1;
        }
        queries
    }
}

} // verus!
