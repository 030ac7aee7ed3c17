//! Path completion: where to look for a typed prefix, which directory
//! entries to offer, and which offers to keep.

use vstd::prelude::*;

use crate::config::{opt_view, strings_view, Completion};
use crate::error::{PathServerError, PathServerResult};
use crate::parser::line::{separate_prefix, split_point};
use crate::text::{chars_of, concat_chars, starts_with, string_of};

verus! {

/// What a completion offers: a file or a folder.
#[derive(Debug, Clone, Copy, PartialEq, Eq, Structural)]
pub enum EntryKind {
    File,
    Folder,
}

/// One completion offer: the label shown, what it is, and the full path of
/// the entry it stands for.
#[derive(Debug)]
pub struct CompletionEntry {
    pub label: String,
    pub kind: EntryKind,
    pub full_path: String,
}

/// One entry of a listed directory: its file name, whether it is a
/// directory, its full path, and whether the file system marks it hidden
/// (the hidden attribute where the platform has one).
#[derive(Debug)]
pub struct DirEntryInfo {
    pub name: String,
    pub is_dir: bool,
    pub full_path: String,
    pub hidden: bool,
}

pub open spec fn entry_view(e: CompletionEntry) -> (Seq<char>, EntryKind, Seq<char>) {
    (e.label@, e.kind, e.full_path@)
}

pub open spec fn entries_view(v: Seq<CompletionEntry>) -> Seq<(Seq<char>, EntryKind, Seq<char>)> {
    v.map_values(|e: CompletionEntry| entry_view(e))
}

pub open spec fn infos_view(v: Seq<DirEntryInfo>) -> Seq<(Seq<char>, bool, Seq<char>, bool)> {
    v.map_values(|e: DirEntryInfo| (e.name@, e.is_dir, e.full_path@, e.hidden))
}

/// Text of the error where the home directory is unknown.
pub open spec fn home_error_text(detail: Seq<char>) -> Seq<char> {
    "Failed to get HOME environment variable: "@ + detail
}

/// `path` with a leading `~/` standing for the home directory expanded;
/// `home` is the home directory or the text of the error met looking it up.
pub open spec fn tilde_expansion(path: Seq<char>, home: Result<Seq<char>, Seq<char>>) -> Result<
    Seq<char>,
    Seq<char>,
> {
    if path.len() >= 2 && path[0] == '~' && path[1] == '/' {
        match home {
            Ok(h) => Ok(h + path.skip(1)),
            Err(e) => Err(home_error_text(e)),
        }
    } else {
        Ok(path)
    }
}

pub open spec fn result_view(r: Result<String, String>) -> Result<Seq<char>, Seq<char>> {
    match r {
        Ok(s) => Ok(s@),
        Err(e) => Err(e@),
    }
}

/// Expand "~" to the user's home directory
pub fn expand_tilde(path: &str, home: &Result<String, String>) -> (r: PathServerResult<String>)
    ensures
        match tilde_expansion(path@, result_view(*home)) {
            Ok(p) => r matches Ok(s) && s@ == p,
            Err(m) => r matches Err(PathServerError::Unknown(s)) && s@ == m,
        },
{
    let p = chars_of(path);
    if p.len() >= 2 && p[0] == '~' && p[1] == '/' {
        match home {
            Ok(h) => {
                let rest = crate::text::slice_chars(p.as_slice(), 1, p.len());
                let all = concat_chars(chars_of(h.as_str()).as_slice(), rest.as_slice());
                assert(rest@ =~= path@.skip(1));
                Ok(string_of(all.as_slice()))
            },
            Err(e) => {
                let m = concat_chars(
                    chars_of("Failed to get HOME environment variable: ").as_slice(),
                    chars_of(e.as_str()).as_slice(),
                );
                Err(PathServerError::Unknown(string_of(m.as_slice())))
            },
        }
    } else {
        Ok(string_of(p.as_slice()))
    }
}

/// A file name that marks a hidden file: one that starts with a dot.
pub open spec fn hidden_name(name: Seq<char>) -> bool {
    name.len() > 0 && name[0] == '.'
}

/// Text of the error for a path without a file name.
pub open spec fn no_file_name_text(path: Seq<char>) -> Seq<char> {
    path + " do not contained file name, cannot check hidden or not"@
}

/// A path of one plain component: not empty, not `.` or `..`, and without
/// a slash, a backslash or a colon, so that it splits the same way on every
/// platform.
pub open spec fn plain_component(path: Seq<char>) -> bool {
    &&& path.len() > 0
    &&& path != seq!['.']
    &&& path != seq!['.', '.']
    &&& forall|i: int| 0 <= i < path.len() ==> path[i] != '/' && path[i] != '\\' && path[i] != ':'
}

/// The file name of `path` (`Path::file_name`, then `to_str`). Stated: a
/// path of one plain component is its own file name. Otherwise nothing is
/// stated: which separators and prefixes split a path depends on the
/// platform.
#[verifier::external_body]
fn path_file_name(path: &str) -> (r: Option<String>)
    ensures
        plain_component(path@) ==> r is Some && r->0@ == path@,
{
    std::path::Path::new(path).file_name().and_then(|n| n.to_str()).map(|n| n.to_string())
}

/// Whether the entry at `path` is hidden: its file name starts with a dot.
/// The file name of a path of one plain component is the path itself; for
/// another path the platform splits it.
pub fn is_hidden_file(path: &str) -> (r: PathServerResult<bool>)
    ensures
        plain_component(path@) ==> r == Ok::<bool, PathServerError>(hidden_name(path@)),
        r matches Err(e) ==> e matches PathServerError::InvalidPath(m) && m@ == no_file_name_text(
            path@,
        ),
{
    match path_file_name(path) {
        Some(name) => Ok(is_hidden_name(name.as_str())),
        None => {
            let m = concat_chars(
                chars_of(path).as_slice(),
                chars_of(" do not contained file name, cannot check hidden or not").as_slice(),
            );
            Err(PathServerError::InvalidPath(string_of(m.as_slice())))
        },
    }
}

/// A file name that marks a hidden file.
pub fn is_hidden_name(name: &str) -> (r: bool)
    ensures
        r == hidden_name(name@),
{
    let v = chars_of(name);
    v.len() > 0 && v[0] == '.'
}

/// The offers for the entries of a listed directory: those whose name starts
/// with `partial_name`, hidden ones (by a leading dot or by the file
/// system's mark) only where they are to be shown, each a folder or a file as
/// the entry is a directory or not.
pub open spec fn offers_of(
    entries: Seq<(Seq<char>, bool, Seq<char>, bool)>,
    partial_name: Seq<char>,
    show_hidden: bool,
) -> Seq<(Seq<char>, EntryKind, Seq<char>)>
    decreases entries.len(),
{
    if entries.len() == 0 {
        Seq::empty()
    } else {
        let prev = offers_of(entries.drop_last(), partial_name, show_hidden);
        let e = entries.last();
        if partial_name.is_prefix_of(e.0) && (show_hidden || !(hidden_name(e.0) || e.3)) {
            prev.push(
                (
                    e.0,
                    if e.1 {
                        EntryKind::Folder
                    } else {
                        EntryKind::File
                    },
                    e.2,
                ),
            )
        } else {
            prev
        }
    }
}

/// An entry (name, is a directory, full path, marked hidden) is offered for
/// `partial_name`: its name starts with it (an equal name included), and it
/// is shown (hidden files are shown, or its name does not start with a dot
/// and the file system does not mark it hidden).
pub open spec fn entry_offered(
    e: (Seq<char>, bool, Seq<char>, bool),
    partial_name: Seq<char>,
    show_hidden: bool,
) -> bool {
    &&& partial_name.len() <= e.0.len()
    &&& forall|i: int| 0 <= i < partial_name.len() ==> e.0[i] == partial_name[i]
    &&& (show_hidden || !((e.0.len() > 0 && e.0[0] == '.') || e.3))
}

/// The offer made for an entry: its name, a folder for a directory and a file
/// otherwise, and its full path.
pub open spec fn offer_for(e: (Seq<char>, bool, Seq<char>, bool)) -> (Seq<char>, EntryKind, Seq<char>) {
    (
        e.0,
        if e.1 {
            EntryKind::Folder
        } else {
            EntryKind::File
        },
        e.2,
    )
}

/// Every entry that is offered for the partial name gets its offer, and
/// every offer is the offer of such an entry, in the order of the entries.
pub proof fn lemma_offers_of_entries(
    entries: Seq<(Seq<char>, bool, Seq<char>, bool)>,
    partial_name: Seq<char>,
    show_hidden: bool,
)
    ensures
        forall|k: int|
            0 <= k < entries.len() && entry_offered(#[trigger] entries[k], partial_name, show_hidden)
                ==> offers_of(entries, partial_name, show_hidden).contains(offer_for(entries[k])),
        forall|i: int|
            0 <= i < offers_of(entries, partial_name, show_hidden).len() ==> exists|k: int|
                0 <= k < entries.len() && entry_offered(entries[k], partial_name, show_hidden)
                    && #[trigger] offers_of(entries, partial_name, show_hidden)[i] == offer_for(
                    entries[k],
                ),
        offers_of(entries, partial_name, show_hidden).len() <= entries.len(),
        forall|a: int, b: int|
            #![trigger offers_of(entries, partial_name, show_hidden)[a], offers_of(entries, partial_name, show_hidden)[b]]
            0 <= a < b < offers_of(entries, partial_name, show_hidden).len() ==> exists|ka: int, kb: int|
                #![trigger entries[ka], entries[kb]]
                0 <= ka < kb < entries.len() && offers_of(entries, partial_name, show_hidden)[a]
                    == offer_for(entries[ka]) && offers_of(entries, partial_name, show_hidden)[b]
                    == offer_for(entries[kb]),
    decreases entries.len(),
{
    if entries.len() > 0 {
        let pre = entries.drop_last();
        lemma_offers_of_entries(pre, partial_name, show_hidden);
        let prev = offers_of(pre, partial_name, show_hidden);
        let cur = offers_of(entries, partial_name, show_hidden);
        let e = entries.last();
        assert(entry_offered(e, partial_name, show_hidden) <==> (partial_name.is_prefix_of(e.0) && (
        show_hidden || !(hidden_name(e.0) || e.3)))) by {
            if partial_name.is_prefix_of(e.0) {
                assert forall|i: int| 0 <= i < partial_name.len() implies e.0[i] == partial_name[i] by {
                    assert(e.0.subrange(0, partial_name.len() as int)[i] == e.0[i]);
                }
            }
            if partial_name.len() <= e.0.len() && forall|i: int|
                0 <= i < partial_name.len() ==> e.0[i] == partial_name[i] {
                assert(e.0.subrange(0, partial_name.len() as int) =~= partial_name);
            }
        }
        if entry_offered(e, partial_name, show_hidden) {
            assert(cur == prev.push(offer_for(e)));
        } else {
            assert(cur == prev);
        }
        assert forall|k: int|
            0 <= k < entries.len() && entry_offered(#[trigger] entries[k], partial_name, show_hidden)
                implies cur.contains(offer_for(entries[k])) by {
            if k < pre.len() {
                assert(entries[k] == pre[k]);
                let j = choose|j: int| 0 <= j < prev.len() && prev[j] == offer_for(pre[k]);
                assert(cur[j] == prev[j]);
            } else {
                assert(cur[cur.len() - 1] == offer_for(e));
            }
        }
        assert forall|i: int| 0 <= i < cur.len() implies exists|k: int|
            0 <= k < entries.len() && entry_offered(entries[k], partial_name, show_hidden)
                && #[trigger] cur[i] == offer_for(entries[k]) by {
            if i < prev.len() {
                assert(cur[i] == prev[i]);
                let k = choose|k: int|
                    0 <= k < pre.len() && entry_offered(pre[k], partial_name, show_hidden)
                        && #[trigger] prev[i] == offer_for(pre[k]);
                assert(entries[k] == pre[k]);
            } else {
                assert(entries[entries.len() - 1] == e);
            }
        }
        assert forall|a: int, b: int|
            #![trigger cur[a], cur[b]]
            0 <= a < b < cur.len() implies exists|ka: int, kb: int|
                #![trigger entries[ka], entries[kb]]
                0 <= ka < kb < entries.len() && cur[a] == offer_for(entries[ka]) && cur[b]
                    == offer_for(entries[kb]) by {
            assert(cur[a] == prev[a]);
            if b < prev.len() {
                assert(cur[b] == prev[b]);
                let (ka, kb) = choose|ka: int, kb: int|
                    #![trigger pre[ka], pre[kb]]
                    0 <= ka < kb < pre.len() && prev[a] == offer_for(pre[ka]) && prev[b] == offer_for(
                        pre[kb],
                    );
                assert(entries[ka] == pre[ka] && entries[kb] == pre[kb]);
            } else {
                let ka = choose|k: int|
                    0 <= k < pre.len() && entry_offered(pre[k], partial_name, show_hidden)
                        && #[trigger] prev[a] == offer_for(pre[k]);
                assert(entries[ka] == pre[ka]);
                assert(entries[entries.len() - 1] == e);
                assert(cur[b] == offer_for(e));
            }
        }
    }
}

/// The offers for the entries of a listed directory.
pub fn select_entries(entries: &Vec<DirEntryInfo>, partial_name: &str, show_hidden_files: bool) -> (r:
    Vec<CompletionEntry>)
    ensures
        entries_view(r@) == offers_of(infos_view(entries@), partial_name@, show_hidden_files),
        forall|k: int|
            0 <= k < entries@.len() && entry_offered(
                #[trigger] infos_view(entries@)[k],
                partial_name@,
                show_hidden_files,
            ) ==> entries_view(r@).contains(offer_for(infos_view(entries@)[k])),
        forall|i: int|
            0 <= i < r@.len() ==> exists|k: int|
                0 <= k < entries@.len() && entry_offered(
                    infos_view(entries@)[k],
                    partial_name@,
                    show_hidden_files,
                ) && #[trigger] entries_view(r@)[i] == offer_for(infos_view(entries@)[k]),
{
    proof {
        lemma_offers_of_entries(infos_view(entries@), partial_name@, show_hidden_files);
    }
    let partial = chars_of(partial_name);
    let mut completions: Vec<CompletionEntry> = Vec::new();
    let mut i: usize = 0;
    while i < entries.len()
        invariant
            i <= entries@.len(),
            partial@ == partial_name@,
            entries_view(completions@) == offers_of(
                infos_view(entries@).take(i as int),
                partial_name@,
                show_hidden_files,
            ),
        decreases entries@.len() - i,
    {
        let e = &entries[i];
        let ghost iv = infos_view(entries@);
        assert(iv.take(i + 1).drop_last() =~= iv.take(i as int));
        assert(iv.take(i + 1).last() == (e.name@, e.is_dir, e.full_path@, e.hidden));
        let name = chars_of(e.name.as_str());
        if starts_with(name.as_slice(), partial.as_slice()) && (show_hidden_files
            || !(is_hidden_name(e.name.as_str()) || e.hidden)) {
            let ghost before = completions@;
            let entry = CompletionEntry {
                label: string_of(name.as_slice()),
                kind: if e.is_dir {
                    EntryKind::Folder
                } else {
                    EntryKind::File
                },
                full_path: string_of(chars_of(e.full_path.as_str()).as_slice()),
            };
            completions.push(entry);
            assert(entries_view(completions@) =~= entries_view(before).push(entry_view(entry)));
        }
        i = i + 1;
    }
    assert(infos_view(entries@).take(i as int) =~= infos_view(entries@));
    completions
}

/// Index `i` of `labels` holds a label that no earlier index holds.
pub open spec fn first_of_label(labels: Seq<Seq<char>>, i: int) -> bool {
    forall|j: int| 0 <= j < i ==> labels[j] != labels[i]
}

/// The offers kept of `entries`: each whose label no earlier offer had and
/// that is not excluded, in order.
pub open spec fn kept_offers(
    entries: Seq<(Seq<char>, EntryKind, Seq<char>)>,
    excluded: Seq<bool>,
    n: int,
) -> Seq<(Seq<char>, EntryKind, Seq<char>)>
    decreases n,
{
    if n <= 0 {
        Seq::empty()
    } else {
        let prev = kept_offers(entries, excluded, n - 1);
        if first_of_label(entries.map_values(|e: (Seq<char>, EntryKind, Seq<char>)| e.0), n - 1)
            && !excluded[n - 1] {
            prev.push(entries[n - 1])
        } else {
            prev
        }
    }
}

/// The offers that the filter gives: the kept ones, at most `max` of them
/// (no limit where `max` is 0).
pub open spec fn filtered_offers(
    entries: Seq<(Seq<char>, EntryKind, Seq<char>)>,
    excluded: Seq<bool>,
    max: usize,
) -> Seq<(Seq<char>, EntryKind, Seq<char>)> {
    let kept = kept_offers(entries, excluded, entries.len() as int);
    if max == 0 || kept.len() <= max {
        kept
    } else {
        kept.take(max as int)
    }
}

/// The offers that the filter keeps name each label once, none of them is
/// excluded, each is one of the offers given, and where `max` is not 0 there
/// are at most `max` of them.
pub proof fn lemma_filtered_offers(
    entries: Seq<(Seq<char>, EntryKind, Seq<char>)>,
    excluded: Seq<bool>,
    max: usize,
)
    requires
        excluded.len() == entries.len(),
    ensures
        forall|i: int, j: int|
            0 <= i < j < filtered_offers(entries, excluded, max).len() ==> filtered_offers(
                entries,
                excluded,
                max,
            )[i].0 != filtered_offers(entries, excluded, max)[j].0,
        forall|i: int|
            0 <= i < filtered_offers(entries, excluded, max).len() ==> exists|k: int|
                0 <= k < entries.len() && !excluded[k] && entries[k] == #[trigger] filtered_offers(
                    entries,
                    excluded,
                    max,
                )[i],
        max > 0 ==> filtered_offers(entries, excluded, max).len() <= max,
{
    lemma_kept_offers_props(entries, excluded, entries.len() as int);
}

proof fn lemma_kept_offers_props(
    entries: Seq<(Seq<char>, EntryKind, Seq<char>)>,
    excluded: Seq<bool>,
    n: int,
)
    requires
        excluded.len() == entries.len(),
        0 <= n <= entries.len(),
    ensures
        forall|i: int, j: int|
            0 <= i < j < kept_offers(entries, excluded, n).len() ==> kept_offers(entries, excluded, n)[i].0
                != kept_offers(entries, excluded, n)[j].0,
        forall|i: int|
            0 <= i < kept_offers(entries, excluded, n).len() ==> exists|k: int|
                0 <= k < n && !excluded[k] && entries[k] == #[trigger] kept_offers(entries, excluded, n)[i],
    decreases n,
{
    if n > 0 {
        lemma_kept_offers_props(entries, excluded, n - 1);
        let prev = kept_offers(entries, excluded, n - 1);
        let labels = entries.map_values(|e: (Seq<char>, EntryKind, Seq<char>)| e.0);
        let kept = kept_offers(entries, excluded, n);
        if first_of_label(labels, n - 1) && !excluded[n - 1] {
            assert(kept == prev.push(entries[n - 1]));
            assert forall|i: int| 0 <= i < kept.len() - 1 implies kept[i].0 != entries[n - 1].0 by {
                assert(kept[i] == prev[i]);
                let k = choose|k: int| 0 <= k < n - 1 && !excluded[k] && entries[k] == prev[i];
                assert(labels[k] != labels[n - 1]);
            }
            assert forall|i: int| 0 <= i < kept.len() implies exists|k: int|
                0 <= k < n && !excluded[k] && entries[k] == #[trigger] kept[i] by {
                if i < kept.len() - 1 {
                    assert(kept[i] == prev[i]);
                    let k = choose|k: int| 0 <= k < n - 1 && !excluded[k] && entries[k] == prev[i];
                    assert(entries[k] == kept[i]);
                } else {
                    assert(entries[n - 1] == kept[i]);
                }
            }
            assert forall|i: int, j: int| 0 <= i < j < kept.len() implies kept[i].0 != kept[j].0 by {
                if j < kept.len() - 1 {
                    assert(kept[i] == prev[i] && kept[j] == prev[j]);
                }
            }
        } else {
            assert(kept == prev);
            assert forall|i: int| 0 <= i < kept.len() implies exists|k: int|
                0 <= k < n && !excluded[k] && entries[k] == #[trigger] kept[i] by {
                let k = choose|k: int| 0 <= k < n - 1 && !excluded[k] && entries[k] == prev[i];
                assert(entries[k] == kept[i]);
            }
        }
    }
}

/// The directory part and the partial name of a prefix rejoin into it where
/// it holds a separator; without one, the partial name is the whole prefix.
pub proof fn lemma_prefix_parts_rejoin(prefix: Seq<char>)
    ensures
        split_point(prefix) != -1 ==> prefix_parts(prefix).0 + prefix_parts(prefix).1 == prefix,
        split_point(prefix) == -1 ==> prefix_parts(prefix).1 == prefix,
{
    lemma_split_point_range(prefix);
    if split_point(prefix) != -1 {
        assert(prefix.take(split_point(prefix) + 1) + prefix.skip(split_point(prefix) + 1) =~= prefix);
    }
}

/// Keeps, of the first offer of each label, those not excluded, at most
/// `max_completions` of them (no limit where it is 0).
pub fn filter_entries(entries: Vec<CompletionEntry>, excluded: &Vec<bool>, max_completions: usize) -> (r:
    Vec<CompletionEntry>)
    requires
        excluded@.len() == entries@.len(),
    ensures
        entries_view(r@) == filtered_offers(entries_view(entries@), excluded@, max_completions),
        r@.len() == if max_completions == 0 || eligible_count(
            entries_view(entries@),
            excluded@,
            entries@.len() as int,
        ) <= max_completions {
            eligible_count(entries_view(entries@), excluded@, entries@.len() as int)
        } else {
            max_completions as nat
        },
        forall|k: int|
            #[trigger] offer_eligible(entries_view(entries@), excluded@, k) && (max_completions == 0
                || eligible_count(entries_view(entries@), excluded@, k) < max_completions)
                ==> entries_view(r@).contains(entries_view(entries@)[k]),
{
    proof {
        lemma_filtered_offers_law(entries_view(entries@), excluded@, max_completions);
    }
    let ghost ev = entries_view(entries@);
    let ghost labels = ev.map_values(|e: (Seq<char>, EntryKind, Seq<char>)| e.0);
    let limit = if max_completions == 0 {
        usize::MAX
    } else {
        max_completions
    };
    let mut seen: Vec<Vec<char>> = Vec::new();
    let mut out: Vec<CompletionEntry> = Vec::new();
    let mut i: usize = 0;
    let n = entries.len();
    while i < n
        invariant
            n == entries@.len(),
            excluded@.len() == n,
            i <= n,
            ev == entries_view(entries@),
            labels == ev.map_values(|e: (Seq<char>, EntryKind, Seq<char>)| e.0),
            seen@.len() == i,
            forall|k: int| 0 <= k < i ==> (#[trigger] seen@[k])@ == labels[k],
            limit == if max_completions == 0 {
                usize::MAX
            } else {
                max_completions
            },
            entries_view(out@) == (if kept_offers(ev, excluded@, i as int).len() <= limit {
                kept_offers(ev, excluded@, i as int)
            } else {
                kept_offers(ev, excluded@, i as int).take(limit as int)
            }),
        decreases n - i,
    {
        let label = chars_of(entries[i].label.as_str());
        assert(labels[i as int] == label@);
        // first offer with this label?
        let mut first = true;
        let mut k: usize = 0;
        while k < seen.len()
            invariant
                k <= seen@.len(),
                seen@.len() == i,
                i < n,
                n == entries@.len(),
                labels.len() == n,
                labels[i as int] == label@,
                forall|m: int| 0 <= m < i ==> (#[trigger] seen@[m])@ == labels[m],
                first == forall|m: int| 0 <= m < k ==> labels[m] != labels[i as int],
            decreases seen@.len() - k,
        {
            if crate::text::chars_eq(seen[k].as_slice(), label.as_slice()) {
                first = false;
            }
            k = k + 1;
        }
        proof {
            assert(first == first_of_label(labels, i as int));
        }
        let ghost before = entries_view(out@);
        let ghost prev = kept_offers(ev, excluded@, i as int);
        if first && !excluded[i] {
            if out.len() < limit {
                let e = &entries[i];
                let entry = CompletionEntry {
                    label: string_of(chars_of(e.label.as_str()).as_slice()),
                    kind: e.kind,
                    full_path: string_of(chars_of(e.full_path.as_str()).as_slice()),
                };
                assert(entry_view(entry) == ev[i as int]);
                out.push(entry);
                assert(entries_view(out@) =~= before.push(ev[i as int]));
            }
            proof {
                assert(kept_offers(ev, excluded@, i + 1) == prev.push(ev[i as int]));
                assert(prev.push(ev[i as int]).take(limit as int) =~= prev.take(limit as int)
                    || prev.len() < limit);
                if prev.len() < limit {
                    assert(prev.push(ev[i as int]).len() <= limit);
                } else {
                    assert(prev.push(ev[i as int]).take(limit as int) =~= prev.take(limit as int));
                }
            }
        }
        seen.push(label);
        i = i + 1;
    }
    proof {
        lemma_kept_offers_len(ev, excluded@, n as int);
    }
    out
}

/// Offer `k` is to be kept: it is not excluded and no earlier offer has its
/// label.
pub open spec fn offer_eligible(
    entries: Seq<(Seq<char>, EntryKind, Seq<char>)>,
    excluded: Seq<bool>,
    k: int,
) -> bool {
    &&& 0 <= k < entries.len()
    &&& k < excluded.len()
    &&& !excluded[k]
    &&& forall|j: int| 0 <= j < k ==> entries[j].0 != entries[k].0
}

/// The number of offers before index `n` that are to be kept.
pub open spec fn eligible_count(
    entries: Seq<(Seq<char>, EntryKind, Seq<char>)>,
    excluded: Seq<bool>,
    n: int,
) -> nat
    decreases n,
{
    if n <= 0 {
        0
    } else {
        eligible_count(entries, excluded, n - 1) + if offer_eligible(entries, excluded, n - 1) {
            1nat
        } else {
            0nat
        }
    }
}

/// Offer `m` is eligible exactly where its label is the first of its kind
/// and it is not excluded.
proof fn lemma_eligible_first(
    entries: Seq<(Seq<char>, EntryKind, Seq<char>)>,
    excluded: Seq<bool>,
    m: int,
)
    requires
        excluded.len() == entries.len(),
        0 <= m < entries.len(),
    ensures
        (first_of_label(entries.map_values(|e: (Seq<char>, EntryKind, Seq<char>)| e.0), m)
            && !excluded[m]) == offer_eligible(entries, excluded, m),
{
    let labels = entries.map_values(|e: (Seq<char>, EntryKind, Seq<char>)| e.0);
    assert(labels[m] == entries[m].0);
    if first_of_label(labels, m) {
        assert forall|j: int| 0 <= j < m implies (#[trigger] entries[j]).0 != entries[m].0 by {
            assert(labels[j] == entries[j].0);
            assert(labels[j] != labels[m]);
        }
    }
    if forall|j: int| 0 <= j < m ==> (#[trigger] entries[j]).0 != entries[m].0 {
        assert forall|j: int| 0 <= j < m implies #[trigger] labels[j] != labels[m] by {
            assert(labels[j] == entries[j].0);
            assert(entries[j].0 != entries[m].0);
        }
    }
}

/// The kept offers of the first `n` are the eligible ones, in order: there
/// are as many as eligible offers, and the eligible offer `k` stands at the
/// place given by the number of eligible offers before it.
proof fn lemma_kept_offers_count(
    entries: Seq<(Seq<char>, EntryKind, Seq<char>)>,
    excluded: Seq<bool>,
    n: int,
)
    requires
        excluded.len() == entries.len(),
        0 <= n <= entries.len(),
    ensures
        kept_offers(entries, excluded, n).len() == eligible_count(entries, excluded, n),
        forall|k: int|
            0 <= k < n && #[trigger] offer_eligible(entries, excluded, k) ==> eligible_count(
                entries,
                excluded,
                k,
            ) < kept_offers(entries, excluded, n).len() && kept_offers(entries, excluded, n)[eligible_count(
                entries,
                excluded,
                k,
            ) as int] == entries[k],
    decreases n,
{
    if n > 0 {
        lemma_kept_offers_count(entries, excluded, n - 1);
        let prev = kept_offers(entries, excluded, n - 1);
        let kept = kept_offers(entries, excluded, n);
        lemma_eligible_first(entries, excluded, n - 1);
        if offer_eligible(entries, excluded, n - 1) {
            assert(kept == prev.push(entries[n - 1]));
        } else {
            assert(kept == prev);
        }
        assert forall|k: int|
            0 <= k < n && #[trigger] offer_eligible(entries, excluded, k) implies eligible_count(
                entries,
                excluded,
                k,
            ) < kept.len() && kept[eligible_count(entries, excluded, k) as int] == entries[k] by {
            if k < n - 1 {
                assert(kept[eligible_count(entries, excluded, k) as int] == prev[eligible_count(
                    entries,
                    excluded,
                    k,
                ) as int]);
            }
        }
    } else {
        assert(kept_offers(entries, excluded, n).len() == 0);
    }
}

/// What the filter keeps: the offers that are not excluded and whose label
/// no earlier offer had, in order, as many as there are but at most `max`
/// where `max` is not 0: every eligible offer with fewer than `max` eligible
/// offers before it (any, for `max` 0) is kept, at the place given by the
/// number of eligible offers before it.
pub proof fn lemma_filtered_offers_law(
    entries: Seq<(Seq<char>, EntryKind, Seq<char>)>,
    excluded: Seq<bool>,
    max: usize,
)
    requires
        excluded.len() == entries.len(),
    ensures
        filtered_offers(entries, excluded, max).len() == if max == 0 || eligible_count(
            entries,
            excluded,
            entries.len() as int,
        ) <= max {
            eligible_count(entries, excluded, entries.len() as int)
        } else {
            max as nat
        },
        forall|k: int|
            #[trigger] offer_eligible(entries, excluded, k) && (max == 0 || eligible_count(
                entries,
                excluded,
                k,
            ) < max) ==> eligible_count(entries, excluded, k) < filtered_offers(
                entries,
                excluded,
                max,
            ).len() && filtered_offers(entries, excluded, max)[eligible_count(
                entries,
                excluded,
                k,
            ) as int] == entries[k],
{
    let n = entries.len() as int;
    lemma_kept_offers_count(entries, excluded, n);
    let kept = kept_offers(entries, excluded, n);
    let f = filtered_offers(entries, excluded, max);
    assert forall|k: int|
        #[trigger] offer_eligible(entries, excluded, k) && (max == 0 || eligible_count(
            entries,
            excluded,
            k,
        ) < max) implies eligible_count(entries, excluded, k) < f.len() && f[eligible_count(
        entries,
        excluded,
        k,
    ) as int] == entries[k] by {
        assert(kept[eligible_count(entries, excluded, k) as int] == entries[k]);
    }
}

proof fn lemma_kept_offers_len(
    entries: Seq<(Seq<char>, EntryKind, Seq<char>)>,
    excluded: Seq<bool>,
    n: int,
)
    requires
        0 <= n,
    ensures
        kept_offers(entries, excluded, n).len() <= n,
    decreases n,
{
    if n > 0 {
        lemma_kept_offers_len(entries, excluded, n - 1);
    }
}

/// A glob set of `globset`.
#[verifier::external_type_specification]
#[verifier::external_body]
pub struct ExGlobSet(globset::GlobSet);

/// `Glob::new` accepts `pattern`.
pub uninterp spec fn glob_parses(pattern: Seq<char>) -> bool;

/// `GlobSetBuilder::build` accepts the globs of `patterns` (it refuses a set
/// whose matcher would grow past its size limit).
pub uninterp spec fn glob_set_builds(patterns: Seq<Seq<char>>) -> bool;

/// The glob `pattern` (one that `Glob::new` accepts) matches `path`.
pub uninterp spec fn glob_matches(pattern: Seq<char>, path: Seq<char>) -> bool;

/// The patterns of the globs that a glob set was built from, in order.
pub uninterp spec fn glob_set_patterns(set: globset::GlobSet) -> Seq<Seq<char>>;

/// A text that reads the same to a glob on every platform: it holds no
/// backslash (an escape on some platforms, a separator on others).
pub open spec fn portable(s: Seq<char>) -> bool {
    !s.contains('\\')
}

/// All of `patterns` read the same on every platform.
pub open spec fn all_portable(patterns: Seq<Seq<char>>) -> bool {
    forall|k: int| 0 <= k < patterns.len() ==> portable(#[trigger] patterns[k])
}

/// A glob set builder of `globset`.
#[verifier::external_type_specification]
#[verifier::external_body]
pub struct ExGlobSetBuilder(globset::GlobSetBuilder);

/// The patterns of the globs added to a glob set builder, in order.
pub uninterp spec fn builder_patterns(builder: globset::GlobSetBuilder) -> Seq<Seq<char>>;

/// `GlobSetBuilder::new`. Stated: the builder holds no glob.
#[verifier::external_body]
fn new_glob_builder() -> (r: globset::GlobSetBuilder)
    ensures
        builder_patterns(r) == Seq::<Seq<char>>::empty(),
{
    globset::GlobSetBuilder::new()
}

/// `GlobSetBuilder::add` of `Glob::new(pattern)`, where that succeeds; the
/// result says whether it did. Stated: the builder gains the pattern exactly
/// when it was added; whether `Glob::new` accepts it is stated (and named)
/// where the pattern holds no backslash, whose reading depends on the
/// platform.
#[verifier::external_body]
fn add_glob(builder: &mut globset::GlobSetBuilder, pattern: &str) -> (r: bool)
    ensures
        builder_patterns(*final(builder)) == (if r {
            builder_patterns(*old(builder)).push(pattern@)
        } else {
            builder_patterns(*old(builder))
        }),
        portable(pattern@) ==> r == glob_parses(pattern@),
{
    match globset::Glob::new(pattern) {
        Ok(glob) => {
            builder.add(glob);
            true
        },
        Err(_) => false,
    }
}

/// `GlobSetBuilder::build`, `None` in place of its error (it refuses a set
/// whose matcher would grow past its size limit; it does not panic).
/// Stated: a set that comes back holds the builder's patterns; a builder
/// without globs gives the empty set; where the patterns hold no backslash,
/// a set comes back exactly when the builder accepts them (named).
#[verifier::external_body]
fn build_glob_set(builder: &globset::GlobSetBuilder) -> (r: Option<globset::GlobSet>)
    ensures
        r is Some ==> glob_set_patterns(r->0) == builder_patterns(*builder),
        builder_patterns(*builder).len() == 0 ==> r is Some,
        all_portable(builder_patterns(*builder)) ==> (r is Some <==> glob_set_builds(
            builder_patterns(*builder),
        )),
{
    builder.build().ok()
}

/// `GlobSet::is_match(path)`: whether any glob of the set matches `path`.
/// Stated where the path and the set's patterns hold no backslash (otherwise
/// the platform decides).
#[verifier::external_body]
fn glob_set_is_match(set: &globset::GlobSet, path: &str) -> (r: bool)
    ensures
        portable(path@) && all_portable(glob_set_patterns(*set)) ==> (r <==> (exists|k: int|
            0 <= k < glob_set_patterns(*set).len() && glob_matches(
                #[trigger] glob_set_patterns(*set)[k],
                path@,
            ))),
{
    set.is_match(path)
}

/// The patterns of `patterns` that are valid globs, in order.
pub open spec fn valid_patterns(patterns: Seq<Seq<char>>) -> Seq<Seq<char>>
    decreases patterns.len(),
{
    if patterns.len() == 0 {
        Seq::empty()
    } else if glob_parses(patterns.last()) {
        valid_patterns(patterns.drop_last()).push(patterns.last())
    } else {
        valid_patterns(patterns.drop_last())
    }
}

/// The patterns that exclusion uses: the valid ones where the set builds;
/// otherwise the set of the empty glob alone, where that builds; otherwise
/// none.
pub open spec fn exclusion_patterns(patterns: Seq<Seq<char>>) -> Seq<Seq<char>> {
    if glob_set_builds(valid_patterns(patterns)) {
        valid_patterns(patterns)
    } else if glob_parses(Seq::empty()) && glob_set_builds(seq![Seq::<char>::empty()]) {
        seq![Seq::<char>::empty()]
    } else {
        Seq::empty()
    }
}

/// One of the globs `patterns` matches `path`.
pub open spec fn some_glob_matches(patterns: Seq<Seq<char>>, path: Seq<char>) -> bool {
    exists|k: int| 0 <= k < patterns.len() && glob_matches(#[trigger] patterns[k], path)
}

/// One of the exclusion patterns matches `path`.
pub open spec fn excluded_by(patterns: Seq<Seq<char>>, path: Seq<char>) -> bool {
    some_glob_matches(exclusion_patterns(patterns), path)
}

/// `path` and all `patterns` read the same on every platform.
pub open spec fn portable_match(patterns: Seq<Seq<char>>, path: Seq<char>) -> bool {
    portable(path) && all_portable(patterns)
}

proof fn lemma_valid_patterns(patterns: Seq<Seq<char>>)
    ensures
        forall|k: int|
            0 <= k < valid_patterns(patterns).len() ==> glob_parses(#[trigger] valid_patterns(
                patterns,
            )[k]) && patterns.contains(valid_patterns(patterns)[k]),
    decreases patterns.len(),
{
    if patterns.len() > 0 {
        let pre = patterns.drop_last();
        lemma_valid_patterns(pre);
        let v = valid_patterns(patterns);
        assert forall|k: int| 0 <= k < v.len() implies glob_parses(#[trigger] v[k])
            && patterns.contains(v[k]) by {
            if k < valid_patterns(pre).len() {
                assert(v[k] == valid_patterns(pre)[k]);
                let j = choose|j: int| 0 <= j < pre.len() && pre[j] == v[k];
                assert(patterns[j] == v[k]);
            } else {
                assert(v[k] == patterns[patterns.len() - 1]);
            }
        }
    }
}

/// The glob set that exclusion matches against: the valid patterns where
/// their set builds; otherwise the set of the empty glob, where that builds.
fn exclusion_set(patterns: &Vec<String>) -> (r: Option<globset::GlobSet>)
    ensures
        all_portable(strings_view(patterns@)) ==> match r {
            Some(s) => glob_set_patterns(s) == exclusion_patterns(strings_view(patterns@)),
            None => exclusion_patterns(strings_view(patterns@)) == Seq::<Seq<char>>::empty(),
        },
{
    let ghost pats = strings_view(patterns@);
    let mut builder = new_glob_builder();
    let mut i: usize = 0;
    assert(pats.take(0) =~= Seq::<Seq<char>>::empty());
    while i < patterns.len()
        invariant
            i <= patterns@.len(),
            pats == strings_view(patterns@),
            all_portable(pats) ==> builder_patterns(builder) == valid_patterns(pats.take(i as int)),
        decreases patterns@.len() - i,
    {
        add_glob(&mut builder, patterns[i].as_str());
        proof {
            assert(pats.take(i + 1).drop_last() =~= pats.take(i as int));
            assert(pats.take(i + 1).last() == patterns@[i as int]@);
            if all_portable(pats) {
                assert(portable(pats[i as int]));
            }
        }
        i = i + 1;
    }
    assert(pats.take(i as int) =~= pats);
    proof {
        if all_portable(pats) {
            lemma_valid_patterns(pats);
            let v = valid_patterns(pats);
            assert forall|k: int| 0 <= k < v.len() implies portable(#[trigger] v[k]) by {
                let j = choose|j: int| 0 <= j < pats.len() && pats[j] == v[k];
            }
        }
    }
    match build_glob_set(&builder) {
        Some(s) => Some(s),
        None => {
            let mut fallback = new_glob_builder();
            let added = add_glob(&mut fallback, "");
            proof {
                reveal_strlit("");
                assert(""@ =~= Seq::<char>::empty());
                assert(all_portable(builder_patterns(fallback))) by {
                    if added {
                        assert(builder_patterns(fallback) =~= seq![Seq::<char>::empty()]);
                    } else {
                        assert(builder_patterns(fallback) =~= Seq::<Seq<char>>::empty());
                    }
                }
            }
            let r = build_glob_set(&fallback);
            proof {
                if added {
                    assert(builder_patterns(fallback) =~= seq![Seq::<char>::empty()]);
                }
            }
            r
        },
    }
}

/// For each offer, whether the exclusion set matches its full path: the set
/// of the valid glob patterns, or where the builder refuses that set, the
/// set of the empty glob (no exclusion where that too is refused).
pub fn exclusion_flags(entries: &Vec<CompletionEntry>, exclude_patterns: &Vec<String>) -> (r:
    Vec<bool>)
    ensures
        r@.len() == entries@.len(),
        forall|i: int|
            0 <= i < entries@.len() && portable_match(
                strings_view(exclude_patterns@),
                #[trigger] entries@[i].full_path@,
            ) ==> r@[i] == excluded_by(strings_view(exclude_patterns@), entries@[i].full_path@),
{
    let ghost pats = strings_view(exclude_patterns@);
    let set = exclusion_set(exclude_patterns);
    let mut flags: Vec<bool> = Vec::new();
    let mut i: usize = 0;
    while i < entries.len()
        invariant
            i <= entries@.len(),
            flags@.len() == i,
            pats == strings_view(exclude_patterns@),
            all_portable(pats) ==> match set {
                Some(s) => glob_set_patterns(s) == exclusion_patterns(pats),
                None => exclusion_patterns(pats) == Seq::<Seq<char>>::empty(),
            },
            forall|j: int|
                0 <= j < i && portable_match(pats, #[trigger] entries@[j].full_path@) ==> flags@[j]
                    == excluded_by(pats, entries@[j].full_path@),
        decreases entries@.len() - i,
    {
        let hit = match &set {
            Some(s) => glob_set_is_match(s, entries[i].full_path.as_str()),
            None => false,
        };
        proof {
            let path = entries@[i as int].full_path@;
            if portable_match(pats, path) {
                lemma_valid_patterns(pats);
                let ep = exclusion_patterns(pats);
                assert(all_portable(ep)) by {
                    assert forall|k: int| 0 <= k < ep.len() implies portable(#[trigger] ep[k]) by {
                        if glob_set_builds(valid_patterns(pats)) {
                            let j = choose|j: int| 0 <= j < pats.len() && pats[j] == ep[k];
                        } else {
                            assert(ep[k] == Seq::<char>::empty());
                            assert(!Seq::<char>::empty().contains('\\'));
                        }
                    }
                }
            }
        }
        flags.push(hit);
        i = i + 1;
    }
    flags
}

/// Filter duplicated and ignored completions: of the first offer of each
/// label, those whose full path the exclusion set does not match, at most
/// `max_completions` of them (no limit where it is 0).
pub fn filter(completions: Vec<CompletionEntry>, max_completions: usize, exclude_patterns: &Vec<
    String,
>) -> (r: Vec<CompletionEntry>)
    ensures
        exists|excluded: Seq<bool>|
            excluded.len() == completions@.len() && (forall|i: int|
                0 <= i < completions@.len() && portable_match(
                    strings_view(exclude_patterns@),
                    #[trigger] completions@[i].full_path@,
                ) ==> excluded[i] == excluded_by(
                    strings_view(exclude_patterns@),
                    completions@[i].full_path@,
                )) && entries_view(r@) == filtered_offers(
                entries_view(completions@),
                excluded,
                max_completions,
            ),
{
    let excluded = exclusion_flags(&completions, exclude_patterns);
    let ghost ev = entries_view(completions@);
    let r = filter_entries(completions, &excluded, max_completions);
    assert(entries_view(r@) == filtered_offers(ev, excluded@, max_completions));
    r
}

/// Where to look for completions of a typed prefix: the directories to
/// list, and the start of the names to offer.
#[derive(Debug)]
pub struct CompletionPlan {
    pub dirs: Vec<String>,
    pub partial_name: String,
}

/// The directory part of a typed prefix (`./` where it has no separator) and
/// the partial name after it.
pub open spec fn prefix_parts(prefix: Seq<char>) -> (Seq<char>, Seq<char>) {
    if split_point(prefix) == -1 {
        (seq!['.', '/'], prefix)
    } else {
        (prefix.take(split_point(prefix) + 1), prefix.skip(split_point(prefix) + 1))
    }
}

/// The split point of a text is -1 or one of its indices.
proof fn lemma_split_point_range(s: Seq<char>)
    ensures
        split_point(s) == -1 || 0 <= split_point(s) < s.len(),
{
    if exists|i: int| 0 <= i < s.len() && s[i] == '/' {
        let i = choose|i: int| 0 <= i < s.len() && s[i] == '/';
        assert(exists|k: int|
            0 <= k < s.len() && s[k] == '/' && forall|j: int| k < j < s.len() ==> s[j] != '/') by {
            crate::text::lemma_last_occurrence(s, '/', i);
        }
    } else if exists|i: int| 0 <= i < s.len() && s[i] == '\\' {
        let i = choose|i: int| 0 <= i < s.len() && s[i] == '\\';
        assert(exists|k: int|
            0 <= k < s.len() && s[k] == '\\' && forall|j: int| k < j < s.len() ==> s[j] != '\\') by {
            crate::text::lemma_last_occurrence(s, '\\', i);
        }
    }
}

/// A path that no platform reads as absolute or as having a prefix: it
/// holds no colon and starts with neither a slash nor a backslash.
pub open spec fn plainly_relative(path: Seq<char>) -> bool {
    !path.contains(':') && (path.len() == 0 || (path[0] != '/' && path[0] != '\\'))
}

/// `out` is `rel` joined onto `base`: the two, with at most one separator
/// between them; with none after an empty base or one that ends with `/`;
/// with one (`/` or `\`, as the platform writes it) after a base that ends
/// with no separator and no `:`.
pub open spec fn joined(base: Seq<char>, rel: Seq<char>, out: Seq<char>) -> bool {
    &&& (out == base + rel || exists|c: char| (c == '/' || c == '\\') && out == base + seq![c] + rel)
    &&& base.len() == 0 ==> out == rel
    &&& base.len() > 0 && base.last() == '/' ==> out == base + rel
    &&& base.len() > 0 && base.last() != '/' && base.last() != '\\' && base.last() != ':'
        ==> exists|c: char| (c == '/' || c == '\\') && out == base + seq![c] + rel
}

/// `Path::is_absolute`. Stated: a plainly relative path is not absolute.
/// Otherwise nothing is stated: what is absolute depends on the platform.
#[verifier::external_body]
pub(crate) fn path_is_absolute(path: &str) -> (r: bool)
    ensures
        plainly_relative(path@) ==> !r,
{
    std::path::Path::new(path).is_absolute()
}

/// `s` starts with a backslash.
pub open spec fn starts_with_backslash(s: Seq<char>) -> bool {
    s.len() > 0 && s[0] == '\\'
}

/// `Path::join` of `rel` onto `base`, as text. Stated, for a plainly relative
/// `rel` and a `base` that does not start with a backslash: `rel` is
/// appended, after a separator exactly where `base` is not empty and ends
/// with neither a separator nor `:` (`PathBuf::push` adds one where the last
/// byte is no separator; a base that ends with `\` or `:` reads differently
/// on different platforms, and then only "at most one" is stated). Which
/// separator is written, and what a join of another path gives, depends on
/// the platform.
#[verifier::external_body]
pub(crate) fn join_path(base: &str, rel: &str) -> (r: String)
    ensures
        plainly_relative(rel@) && !starts_with_backslash(base@) ==> joined(
            base@,
            rel@,
            r@,
        ),
{
    std::path::Path::new(base).join(rel).to_string_lossy().into_owned()
}

/// The home directory, where it is known.
pub open spec fn known_home(home: Result<String, String>) -> Option<Seq<char>> {
    match home {
        Ok(h) => Some(h@),
        Err(_) => None,
    }
}

/// The directories to list for a directory part `base`: `base` itself where
/// it is absolute, otherwise `base` joined under each of `base_paths`, in
/// order.
pub fn completion_dirs(base: &str, absolute: bool, base_paths: &Vec<String>) -> (d: Vec<String>)
    ensures
        absolute ==> d@.len() == 1 && d@[0]@ == base@,
        !absolute ==> d@.len() == base_paths@.len() && (plainly_relative(base@) ==> forall|i: int|
            0 <= i < base_paths@.len() && !starts_with_backslash(#[trigger] base_paths@[i]@)
                ==> joined(base_paths@[i]@, base@, d@[i]@)),
{
    let mut dirs: Vec<String> = Vec::new();
    if absolute {
        dirs.push(string_of(chars_of(base).as_slice()));
        return dirs;
    }
    let mut i: usize = 0;
    while i < base_paths.len()
        invariant
            i <= base_paths@.len(),
            dirs@.len() == i,
            plainly_relative(base@) ==> forall|j: int|
                0 <= j < i && !starts_with_backslash(#[trigger] base_paths@[j]@) ==> joined(
                    base_paths@[j]@,
                    base@,
                    dirs@[j]@,
                ),
        decreases base_paths@.len() - i,
    {
        dirs.push(join_path(base_paths[i].as_str(), base));
        i = i + 1;
    }
    dirs
}

/// Plans the completion of `prefix`: its directory part, with a leading `~/`
/// expanded (`home` is the home directory or the text of the error met
/// looking it up), is listed as it is where it is absolute, else under each
/// base path of the configuration.
pub fn plan_completion(
    prefix: &str,
    completion: &Completion,
    workspace_folders: &[String],
    document_parent: &Option<String>,
    home: &Result<String, String>,
) -> (r: PathServerResult<CompletionPlan>)
    ensures
        match tilde_expansion(prefix_parts(prefix@).0, result_view(*home)) {
            Err(m) => r matches Err(PathServerError::Unknown(s)) && s@ == m,
            Ok(base) => r matches Ok(plan) && plan.partial_name@ == prefix_parts(prefix@).1 && ({
                let bases = crate::config::expand_base_paths(
                    strings_view(completion.base_path@),
                    strings_view(workspace_folders@),
                    opt_view(*document_parent),
                    known_home(*home),
                );
                &&& (plan.dirs@.len() == 1 && plan.dirs@[0]@ == base) || plan.dirs@.len()
                    == bases.len()
                &&& plainly_relative(base) ==> plan.dirs@.len() == bases.len() && forall|i: int|
                    0 <= i < bases.len() && !starts_with_backslash(#[trigger] bases[i]) ==> joined(
                        bases[i],
                        base,
                        plan.dirs@[i]@,
                    )
            }),
        },
{
    let ps = string_of(chars_of(prefix).as_slice());
    assert(ps@ == prefix@);
    let (base_dir, partial_name) = separate_prefix(ps);
    proof {
        lemma_split_point_range(prefix@);
    }
    assert(base_dir@ == prefix_parts(prefix@).0 && partial_name@ == prefix_parts(prefix@).1);
    let base = match expand_tilde(base_dir.as_str(), home) {
        Ok(b) => b,
        Err(e) => return Err(e),
    };
    let absolute = path_is_absolute(base.as_str());
    let user_home = match home {
        Ok(h) => Some(string_of(chars_of(h.as_str()).as_slice())),
        Err(_) => None,
    };
    let base_paths = completion.iter_base_path(workspace_folders, document_parent, &user_home);
    proof {
        assert(strings_view(base_paths@).len() == base_paths@.len());
    }
    let dirs = completion_dirs(base.as_str(), absolute, &base_paths);
    Ok(CompletionPlan { dirs, partial_name })
}

} // verus!
