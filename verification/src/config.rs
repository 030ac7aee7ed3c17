//! The server's configuration, and the expansion of the base paths of
//! relative path completion.

use vstd::prelude::*;

use crate::text::{chars_of, string_of};

verus! {

#[derive(Debug, Clone)]
pub struct Config {
    pub completion: Completion,
    pub highlight: Highlight,
}

#[derive(Debug, Clone, Copy)]
pub struct Highlight {
    /// Whether to underline the paths of a document as links
    pub enable: bool,
    /// Whether directory paths are highlighted (and offered for hover and jump)
    pub highlight_directory: bool,
}

#[derive(Debug, Clone)]
pub struct Completion {
    /// Max results shown in completion, 0 indicate no limit
    pub max_results: usize,
    /// Whether to show hidden files in completion
    pub show_hidden_files: bool,
    /// List of paths to exclude from completion
    /// Supports glob patterns
    pub exclude: Vec<String>,
    /// Base paths for relative path completion
    /// Supports `${workspaceFolder}`, `${document}`, `${userHome}` as placeholders
    pub base_path: Vec<String>,
}

pub open spec fn strings_view(v: Seq<String>) -> Seq<Seq<char>> {
    v.map_values(|s: String| s@)
}

/// `pat` occurs in `s` at index `i`.
pub open spec fn occurs_at(s: Seq<char>, pat: Seq<char>, i: int) -> bool {
    0 <= i && i + pat.len() <= s.len() && s.subrange(i, i + pat.len()) == pat
}

/// `pat` occurs in `s`.
pub open spec fn occurs(s: Seq<char>, pat: Seq<char>) -> bool {
    exists|i: int| occurs_at(s, pat, i)
}

/// `s` with each occurrence of the non-empty `pat`, taken from left to
/// right without overlap, replaced by `with` (what `str::replace` gives).
pub open spec fn replace_all(s: Seq<char>, pat: Seq<char>, with: Seq<char>) -> Seq<char>
    decreases s.len(),
{
    if s.len() == 0 || pat.len() == 0 {
        s
    } else if occurs_at(s, pat, 0) {
        with + replace_all(s.skip(pat.len() as int), pat, with)
    } else {
        seq![s[0]] + replace_all(s.skip(1), pat, with)
    }
}

pub open spec fn workspace_folder_placeholder() -> Seq<char> {
    "${workspaceFolder}"@
}

pub open spec fn document_placeholder() -> Seq<char> {
    "${document}"@
}

pub open spec fn user_home_placeholder() -> Seq<char> {
    "${userHome}"@
}

/// The base paths that one configured base path stands for: one per
/// workspace folder where it names the workspace folder, the document's
/// directory or the user's home where it names one of them (none where that
/// is unknown), else itself. A path is matched against the placeholders in
/// that order, and only the first it holds is replaced.
pub open spec fn expand_base_path(
    path: Seq<char>,
    workspace_folders: Seq<Seq<char>>,
    document_parent: Option<Seq<char>>,
    user_home: Option<Seq<char>>,
) -> Seq<Seq<char>> {
    if occurs(path, workspace_folder_placeholder()) {
        workspace_folders.map_values(
            |w: Seq<char>| replace_all(path, workspace_folder_placeholder(), w),
        )
    } else if occurs(path, document_placeholder()) {
        match document_parent {
            Some(d) => seq![replace_all(path, document_placeholder(), d)],
            None => Seq::empty(),
        }
    } else if occurs(path, user_home_placeholder()) {
        match user_home {
            Some(h) => seq![replace_all(path, user_home_placeholder(), h)],
            None => Seq::empty(),
        }
    } else {
        seq![path]
    }
}

/// The expansions of the configured base paths, in order.
pub open spec fn expand_base_paths(
    paths: Seq<Seq<char>>,
    workspace_folders: Seq<Seq<char>>,
    document_parent: Option<Seq<char>>,
    user_home: Option<Seq<char>>,
) -> Seq<Seq<char>>
    decreases paths.len(),
{
    if paths.len() == 0 {
        Seq::empty()
    } else {
        expand_base_paths(paths.drop_last(), workspace_folders, document_parent, user_home)
            + expand_base_path(paths.last(), workspace_folders, document_parent, user_home)
    }
}

pub open spec fn opt_view(o: Option<String>) -> Option<Seq<char>> {
    match o {
        Some(s) => Some(s@),
        None => None,
    }
}

/// `pat` occurs in `s` at index `i`.
fn occurs_at_exec(s: &[char], pat: &[char], i: usize) -> (r: bool)
    ensures
        r == occurs_at(s@, pat@, i as int),
{
    if i > s.len() || pat.len() > s.len() - i {
        return false;
    }
    let n = s.len();
    let mut k: usize = 0;
    while k < pat.len()
        invariant
            n == s@.len(),
            k <= pat@.len(),
            i + pat@.len() <= s@.len(),
            forall|m: int| 0 <= m < k ==> s@[i + m] == pat@[m],
        decreases pat@.len() - k,
    {
        if s[i + k] != pat[k] {
            assert(s@.subrange(i as int, i + pat@.len())[k as int] != pat@[k as int]);
            return false;
        }
        k = k + 1;
    }
    assert(s@.subrange(i as int, i + pat@.len()) =~= pat@);
    true
}

/// `pat` occurs in `s`.
pub fn occurs_in(s: &[char], pat: &[char]) -> (r: bool)
    ensures
        r == occurs(s@, pat@),
{
    if pat.len() == 0 {
        assert(s@.subrange(0, 0) =~= pat@);
        assert(occurs_at(s@, pat@, 0));
        return true;
    }
    if pat.len() > s.len() {
        return false;
    }
    let n = s.len();
    let last = n - pat.len();
    let mut i: usize = 0;
    while i <= last
        invariant
            n == s@.len(),
            pat@.len() > 0,
            last == s@.len() - pat@.len(),
            i <= last + 1,
            forall|j: int| 0 <= j < i ==> !occurs_at(s@, pat@, j),
        decreases last + 1 - i,
    {
        if occurs_at_exec(s, pat, i) {
            return true;
        }
        i = i + 1;
    }
    false
}

/// `s` with each occurrence of the non-empty `pat` replaced by `with`.
fn replace_all_exec(s: &[char], pat: &[char], with: &[char]) -> (r: Vec<char>)
    requires
        pat@.len() > 0,
    ensures
        r@ == replace_all(s@, pat@, with@),
{
    let mut out: Vec<char> = Vec::new();
    let mut i: usize = 0;
    assert(s@.skip(0) =~= s@);
    while i < s.len()
        invariant
            i <= s@.len(),
            pat@.len() > 0,
            out@ + replace_all(s@.skip(i as int), pat@, with@) == replace_all(s@, pat@, with@),
        decreases s@.len() - i,
    {
        let ghost rest = s@.skip(i as int);
        if occurs_at_exec(s, pat, i) {
            proof {
                assert(rest.subrange(0, pat@.len() as int) =~= s@.subrange(
                    i as int,
                    i + pat@.len(),
                ));
                assert(occurs_at(rest, pat@, 0));
                assert(rest.skip(pat@.len() as int) =~= s@.skip(i + pat@.len()));
            }
            let ghost before = out@;
            let mut k: usize = 0;
            while k < with.len()
                invariant
                    k <= with@.len(),
                    out@ == before + with@.take(k as int),
                decreases with@.len() - k,
            {
                out.push(with[k]);
                k = k + 1;
                assert(out@ =~= before + with@.take(k as int));
            }
            assert(with@.take(with@.len() as int) =~= with@);
            assert(out@ + replace_all(s@.skip(i + pat@.len()), pat@, with@) =~= before + (with@
                + replace_all(rest.skip(pat@.len() as int), pat@, with@)));
            i = i + pat.len();
        } else {
            proof {
                if occurs_at(rest, pat@, 0) {
                    assert(rest.subrange(0, pat@.len() as int) =~= s@.subrange(
                        i as int,
                        i + pat@.len(),
                    ));
                }
                assert(rest.skip(1) =~= s@.skip(i + 1));
            }
            let ghost before = out@;
            out.push(s[i]);
            assert(out@ + replace_all(s@.skip(i + 1), pat@, with@) =~= before + (seq![rest[0]]
                + replace_all(rest.skip(1), pat@, with@)));
            i = i + 1;
        }
    }
    assert(out@ =~= out@ + replace_all(s@.skip(i as int), pat@, with@));
    out
}

impl Completion {
    /// The base paths of relative path completion, with the placeholders
    /// `${workspaceFolder}`, `${document}` and `${userHome}` expanded.
    pub fn iter_base_path(
        &self,
        workspace_folders: &[String],
        document_parent: &Option<String>,
        user_home: &Option<String>,
    ) -> (expanded: Vec<String>)
        ensures
            strings_view(expanded@) == expand_base_paths(
                strings_view(self.base_path@),
                strings_view(workspace_folders@),
                opt_view(*document_parent),
                opt_view(*user_home),
            ),
    {
        let ghost wf = strings_view(workspace_folders@);
        let ghost dp = opt_view(*document_parent);
        let ghost uh = opt_view(*user_home);
        let wf_pat = chars_of("${workspaceFolder}");
        let doc_pat = chars_of("${document}");
        let home_pat = chars_of("${userHome}");
        let mut expanded_paths: Vec<String> = Vec::new();
        let mut i: usize = 0;
        while i < self.base_path.len()
            invariant
                i <= self.base_path@.len(),
                wf_pat@ == workspace_folder_placeholder(),
                doc_pat@ == document_placeholder(),
                home_pat@ == user_home_placeholder(),
                wf == strings_view(workspace_folders@),
                dp == opt_view(*document_parent),
                uh == opt_view(*user_home),
                strings_view(expanded_paths@) == expand_base_paths(
                    strings_view(self.base_path@).take(i as int),
                    wf,
                    dp,
                    uh,
                ),
            decreases self.base_path@.len() - i,
        {
            let path = chars_of(self.base_path[i].as_str());
            let ghost before = strings_view(expanded_paths@);
            proof {
                reveal_strlit("${workspaceFolder}");
                reveal_strlit("${document}");
                reveal_strlit("${userHome}");
            }
            if occurs_in(path.as_slice(), wf_pat.as_slice()) {
                let mut j: usize = 0;
                while j < workspace_folders.len()
                    invariant
                        j <= workspace_folders@.len(),
                        wf_pat@ == workspace_folder_placeholder(),
                        wf == strings_view(workspace_folders@),
                        wf_pat@.len() > 0,
                        strings_view(expanded_paths@) == before + wf.take(j as int).map_values(
                            |w: Seq<char>| replace_all(path@, workspace_folder_placeholder(), w),
                        ),
                    decreases workspace_folders@.len() - j,
                {
                    let w = chars_of(workspace_folders[j].as_str());
                    let e = replace_all_exec(path.as_slice(), wf_pat.as_slice(), w.as_slice());
                    let ghost f = |w: Seq<char>| replace_all(path@, workspace_folder_placeholder(), w);
                    assert(wf[j as int] == w@);
                    assert(wf.take(j + 1) =~= wf.take(j as int).push(w@));
                    assert(wf.take(j + 1).map_values(f) =~= wf.take(j as int).map_values(f).push(f(w@)));
                    let ghost prev = strings_view(expanded_paths@);
                    let es = string_of(e.as_slice());
                    expanded_paths.push(es);
                    assert(strings_view(expanded_paths@) =~= prev.push(es@));
                    j = j + 1;
                }
                assert(wf.take(j as int) =~= wf);
            } else if occurs_in(path.as_slice(), doc_pat.as_slice()) {
                if let Some(d) = document_parent {
                    let e = replace_all_exec(path.as_slice(), doc_pat.as_slice(), chars_of(d.as_str()).as_slice());
                    expanded_paths.push(string_of(e.as_slice()));
                }
            } else if occurs_in(path.as_slice(), home_pat.as_slice()) {
                if let Some(h) = user_home {
                    let e = replace_all_exec(path.as_slice(), home_pat.as_slice(), chars_of(h.as_str()).as_slice());
                    expanded_paths.push(string_of(e.as_slice()));
                }
            } else {
                expanded_paths.push(string_of(path.as_slice()));
            }
            proof {
                let ps = strings_view(self.base_path@);
                assert(ps.take(i + 1).drop_last() =~= ps.take(i as int));
                assert(ps.take(i + 1).last() == path@);
                assert(strings_view(expanded_paths@) =~= before + expand_base_path(path@, wf, dp, uh));
            }
            i = i + 1;
        }
        assert(strings_view(self.base_path@).take(i as int) =~= strings_view(self.base_path@));
        expanded_paths
    }
}

impl Default for Config {
    fn default() -> (r: Self)
        ensures
            r.completion.max_results == 0,
            r.completion.show_hidden_files,
            strings_view(r.completion.exclude@) == seq!["**/node_modules/**"@, "**/.git/**"@],
            strings_view(r.completion.base_path@) == seq![
                workspace_folder_placeholder(),
                document_placeholder(),
            ],
            r.highlight.enable,
            r.highlight.highlight_directory,
    {
        let exclude = vec![
            string_of(chars_of("**/node_modules/**").as_slice()),
            string_of(chars_of("**/.git/**").as_slice()),
        ];
        let base_path = vec![
            string_of(chars_of("${workspaceFolder}").as_slice()),
            string_of(chars_of("${document}").as_slice()),
        ];
        assert(strings_view(exclude@) =~= seq!["**/node_modules/**"@, "**/.git/**"@]);
        assert(strings_view(base_path@) =~= seq![
            workspace_folder_placeholder(),
            document_placeholder(),
        ]);
        Self {
            completion: Completion { max_results: 0, show_hidden_files: true, exclude, base_path },
            highlight: Highlight { enable: true, highlight_directory: true },
        }
    }
}

} // verus!
