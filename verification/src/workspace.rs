//! What the server holds between requests: the workspace roots and the open
//! documents, each by its file path.

use vstd::prelude::*;

use crate::document::{Document, TextChange};
use crate::error::{PathServerError, PathServerResult};
use crate::text::{chars_of, concat_chars, str_eq, string_of};

verus! {

/// Distinct texts make a set of as many.
pub proof fn lemma_distinct_len(v: Seq<Seq<char>>)
    requires
        distinct_texts(v),
    ensures
        v.to_set().len() == v.len(),
{
    assert(v.no_duplicates()) by {
        assert forall|i: int, j: int| 0 <= i < v.len() && 0 <= j < v.len() && i != j implies v[i] != v[j] by {
        }
    }
    v.unique_seq_to_set();
}

/// The workspace roots, each once.
pub struct WorkspaceRoots {
    roots: Vec<String>,
}

/// No two of `v` are equal.
pub open spec fn distinct_texts(v: Seq<Seq<char>>) -> bool {
    forall|i: int, j: int| 0 <= i < v.len() && 0 <= j < v.len() && i != j ==> v[i] != v[j]
}

pub open spec fn texts_of(v: Seq<String>) -> Seq<Seq<char>> {
    v.map_values(|s: String| s@)
}

impl WorkspaceRoots {
    /// The roots, as a set of paths.
    pub closed spec fn view(&self) -> Set<Seq<char>> {
        texts_of(self.roots@).to_set()
    }

    pub closed spec fn wf(&self) -> bool {
        distinct_texts(texts_of(self.roots@))
    }

    pub fn new() -> (r: Self)
        ensures
            r.wf(),
            r@ == Set::<Seq<char>>::empty(),
    {
        let r = WorkspaceRoots { roots: Vec::new() };
        assert(texts_of(r.roots@).to_set() =~= Set::<Seq<char>>::empty());
        r
    }

    /// Index of `root` among the roots.
    fn position(&self, root: &str) -> (r: Option<usize>)
        ensures
            match r {
                Some(i) => i < self.roots@.len() && self.roots@[i as int]@ == root@,
                None => forall|i: int| 0 <= i < self.roots@.len() ==> self.roots@[i]@ != root@,
            },
    {
        let mut i: usize = 0;
        while i < self.roots.len()
            invariant
                i <= self.roots@.len(),
                forall|k: int| 0 <= k < i ==> self.roots@[k]@ != root@,
            decreases self.roots@.len() - i,
        {
            if str_eq(self.roots[i].as_str(), root) {
                return Some(i);
            }
            i = i + 1;
        }
        None
    }

    /// Whether `root` is one of the roots.
    pub fn contains(&self, root: &str) -> (r: bool)
        ensures
            r == self@.contains(root@),
    {
        let p = self.position(root);
        proof {
            if let Some(i) = p {
                assert(texts_of(self.roots@)[i as int] == root@);
            } else {
                assert forall|k: int| 0 <= k < texts_of(self.roots@).len() implies texts_of(self.roots@)[k] != root@ by {
                    assert(texts_of(self.roots@)[k] == self.roots@[k]@);
                }
            }
        }
        p.is_some()
    }

    /// Adds `root`.
    pub fn insert(&mut self, root: String)
        requires
            old(self).wf(),
        ensures
            final(self).wf(),
            final(self)@ == old(self)@.insert(root@),
    {
        let present = self.position(root.as_str());
        let ghost before = texts_of(self.roots@);
        if present.is_none() {
            proof {
                assert forall|k: int| 0 <= k < before.len() implies before[k] != root@ by {
                    assert(before[k] == self.roots@[k]@);
                }
            }
            let ghost r = root@;
            self.roots.push(root);
            assert(texts_of(self.roots@) =~= before.push(r));
            proof {
                lemma_to_set_push(before, r);
            }
        } else {
            let i = present.unwrap();
            assert(before[i as int] == root@);
            assert(before.contains(root@));
            assert(before.to_set().insert(root@) =~= before.to_set());
        }
    }

    /// Removes `root`.
    pub fn remove(&mut self, root: &str)
        requires
            old(self).wf(),
        ensures
            final(self).wf(),
            final(self)@ == old(self)@.remove(root@),
    {
        let ghost before = texts_of(self.roots@);
        match self.position(root) {
            Some(i) => {
                self.roots.remove(i);
                let ghost after = texts_of(self.roots@);
                assert(after =~= before.remove(i as int));
                proof {
                    lemma_to_set_remove(before, i as int);
                }
                assert(after.to_set() =~= before.to_set().remove(root@));
            },
            None => {
                assert forall|k: int| 0 <= k < before.len() implies before[k] != root@ by {
                    assert(before[k] == self.roots@[k]@);
                }
                assert(before.to_set().remove(root@) =~= before.to_set());
            },
        }
    }

    /// The roots, each once.
    pub fn list(&self) -> (r: Vec<String>)
        requires
            self.wf(),
        ensures
            texts_of(r@).to_set() == self@,
            distinct_texts(texts_of(r@)),
    {
        let mut r: Vec<String> = Vec::new();
        let mut i: usize = 0;
        while i < self.roots.len()
            invariant
                i <= self.roots@.len(),
                texts_of(r@) == texts_of(self.roots@).take(i as int),
            decreases self.roots@.len() - i,
        {
            let ghost before = texts_of(r@);
            let s = string_of(chars_of(self.roots[i].as_str()).as_slice());
            r.push(s);
            assert(texts_of(r@) =~= before.push(s@));
            assert(texts_of(self.roots@).take(i + 1) =~= texts_of(self.roots@).take(i as int).push(
                self.roots@[i as int]@,
            ));
            i = i + 1;
        }
        assert(texts_of(self.roots@).take(i as int) =~= texts_of(self.roots@));
        r
    }
}

proof fn lemma_to_set_push(s: Seq<Seq<char>>, x: Seq<char>)
    ensures
        s.push(x).to_set() == s.to_set().insert(x),
{
    assert forall|y: Seq<char>| s.push(x).to_set().contains(y) <==> s.to_set().insert(x).contains(y) by {
        if s.push(x).contains(y) {
            let k = choose|k: int| 0 <= k < s.push(x).len() && s.push(x)[k] == y;
            if k < s.len() {
                assert(s[k] == y);
            }
        }
        if s.contains(y) {
            let k = choose|k: int| 0 <= k < s.len() && s[k] == y;
            assert(s.push(x)[k] == y);
        }
        if y == x {
            assert(s.push(x)[s.len() as int] == y);
        }
    }
    assert(s.push(x).to_set() =~= s.to_set().insert(x));
}

/// Removing the only occurrence of an element removes it from the set.
proof fn lemma_to_set_remove(s: Seq<Seq<char>>, i: int)
    requires
        0 <= i < s.len(),
        distinct_texts(s),
    ensures
        s.remove(i).to_set() == s.to_set().remove(s[i]),
{
    let a = s.remove(i);
    assert forall|y: Seq<char>| a.to_set().contains(y) <==> s.to_set().remove(s[i]).contains(y) by {
        if a.contains(y) {
            let k = choose|k: int| 0 <= k < a.len() && a[k] == y;
            let k2 = if k < i { k } else { k + 1 };
            assert(s[k2] == y);
            assert(k2 != i);
        }
        if s.contains(y) && y != s[i] {
            let k = choose|k: int| 0 <= k < s.len() && s[k] == y;
            assert(k != i);
            let k2 = if k < i { k } else { k - 1 };
            assert(a[k2] == y);
        }
    }
    assert(a.to_set() =~= s.to_set().remove(s[i]));
}

/// The open documents, each by its file path.
pub struct DocumentStore {
    docs: Vec<(String, Document)>,
}

pub open spec fn doc_keys(docs: Seq<(String, Document)>) -> Seq<Seq<char>> {
    docs.map_values(|e: (String, Document)| e.0@)
}

/// The documents of `docs` by their paths.
pub open spec fn docs_map(docs: Seq<(String, Document)>) -> Map<Seq<char>, Document> {
    Map::new(
        |p: Seq<char>| exists|i: int| 0 <= i < docs.len() && docs[i].0@ == p,
        |p: Seq<char>| docs[doc_index(docs, p)].1,
    )
}

/// Index of the entry of `docs` for path `p`.
pub open spec fn doc_index(docs: Seq<(String, Document)>, p: Seq<char>) -> int {
    choose|i: int| 0 <= i < docs.len() && docs[i].0@ == p
}

/// With distinct paths, each entry is what its path maps to.
proof fn lemma_docs_entry(docs: Seq<(String, Document)>, i: int)
    requires
        distinct_texts(doc_keys(docs)),
        0 <= i < docs.len(),
    ensures
        docs_map(docs).contains_key(docs[i].0@),
        docs_map(docs)[docs[i].0@] == docs[i].1,
{
    let p = docs[i].0@;
    assert(docs[i].0@ == p);
    let k = doc_index(docs, p);
    assert(doc_keys(docs)[k] == docs[k].0@);
    assert(doc_keys(docs)[i] == docs[i].0@);
    assert(k == i);
    assert(docs_map(docs).contains_key(p));
    assert(docs_map(docs)[p] == docs[k].1);
}

/// Removing the entry at `i` removes its path from the map.
proof fn lemma_docs_remove(docs: Seq<(String, Document)>, i: int)
    requires
        distinct_texts(doc_keys(docs)),
        0 <= i < docs.len(),
    ensures
        distinct_texts(doc_keys(docs.remove(i))),
        docs_map(docs.remove(i)) == docs_map(docs).remove(docs[i].0@),
{
    let after = docs.remove(i);
    let keys = doc_keys(docs);
    let akeys = doc_keys(after);
    let p = docs[i].0@;
    assert(akeys =~= keys.remove(i));
    assert forall|a: int, b: int|
        0 <= a < akeys.len() && 0 <= b < akeys.len() && a != b implies akeys[a] != akeys[b] by {
        let a2 = if a < i {
            a
        } else {
            a + 1
        };
        let b2 = if b < i {
            b
        } else {
            b + 1
        };
        assert(akeys[a] == keys[a2] && akeys[b] == keys[b2]);
    }
    let m = docs_map(docs).remove(p);
    assert forall|q: Seq<char>| docs_map(after).contains_key(q) <==> m.contains_key(q) by {
        if docs_map(after).contains_key(q) {
            let k = choose|k: int| 0 <= k < after.len() && after[k].0@ == q;
            let k2 = if k < i {
                k
            } else {
                k + 1
            };
            assert(docs[k2].0@ == q);
            assert(keys[k2] != keys[i]);
        }
        if m.contains_key(q) {
            let k = choose|k: int| 0 <= k < docs.len() && docs[k].0@ == q;
            assert(k != i);
            let k2 = if k < i {
                k
            } else {
                k - 1
            };
            assert(after[k2].0@ == q);
        }
    }
    assert forall|q: Seq<char>| #[trigger] docs_map(after).contains_key(q) implies docs_map(after)[q]
        == m[q] by {
        let k = choose|k: int| 0 <= k < after.len() && after[k].0@ == q;
        let k2 = if k < i {
            k
        } else {
            k + 1
        };
        assert(after[k] == docs[k2]);
        lemma_docs_entry(after, k);
        lemma_docs_entry(docs, k2);
        assert(q != p) by {
            assert(keys[k2] == docs[k2].0@);
            assert(keys[i] == docs[i].0@);
        }
    }
    assert(docs_map(after) =~= m);
}

/// Appending an entry for a path not yet present adds it to the map.
proof fn lemma_docs_push(docs: Seq<(String, Document)>, e: (String, Document))
    requires
        distinct_texts(doc_keys(docs)),
        !docs_map(docs).contains_key(e.0@),
    ensures
        distinct_texts(doc_keys(docs.push(e))),
        docs_map(docs.push(e)) == docs_map(docs).insert(e.0@, e.1),
{
    let after = docs.push(e);
    let keys = doc_keys(docs);
    assert(doc_keys(after) =~= keys.push(e.0@));
    assert forall|k: int| 0 <= k < keys.len() implies keys[k] != e.0@ by {
        if keys[k] == e.0@ {
            assert(docs[k].0@ == e.0@);
        }
    }
    let m = docs_map(docs).insert(e.0@, e.1);
    assert forall|q: Seq<char>| docs_map(after).contains_key(q) <==> m.contains_key(q) by {
        if docs_map(after).contains_key(q) {
            let k = choose|k: int| 0 <= k < after.len() && after[k].0@ == q;
            if k < docs.len() {
                assert(docs[k].0@ == q);
            }
        }
        if m.contains_key(q) {
            if q == e.0@ {
                assert(after[docs.len() as int].0@ == q);
            } else {
                let k = choose|k: int| 0 <= k < docs.len() && docs[k].0@ == q;
                assert(after[k].0@ == q);
            }
        }
    }
    assert forall|q: Seq<char>| #[trigger] docs_map(after).contains_key(q) implies docs_map(after)[q]
        == m[q] by {
        let k = choose|k: int| 0 <= k < after.len() && after[k].0@ == q;
        lemma_docs_entry(after, k);
        if k < docs.len() {
            lemma_docs_entry(docs, k);
        } else {
            assert(after[k] == e);
        }
    }
    assert(docs_map(after) =~= m);
}

impl DocumentStore {
    /// The documents by file path.
    pub closed spec fn view(&self) -> Map<Seq<char>, Document> {
        docs_map(self.docs@)
    }

    pub closed spec fn wf(&self) -> bool {
        distinct_texts(doc_keys(self.docs@))
    }

    pub fn new() -> (r: Self)
        ensures
            r.wf(),
            r@ == Map::<Seq<char>, Document>::empty(),
    {
        let r = DocumentStore { docs: Vec::new() };
        assert(r@ =~= Map::<Seq<char>, Document>::empty());
        r
    }

    /// Index of the document of `path`.
    fn position(&self, path: &str) -> (r: Option<usize>)
        ensures
            match r {
                Some(i) => i < self.docs@.len() && self.docs@[i as int].0@ == path@,
                None => forall|i: int| 0 <= i < self.docs@.len() ==> self.docs@[i].0@ != path@,
            },
    {
        let mut i: usize = 0;
        while i < self.docs.len()
            invariant
                i <= self.docs@.len(),
                forall|k: int| 0 <= k < i ==> self.docs@[k].0@ != path@,
            decreases self.docs@.len() - i,
        {
            if str_eq(self.docs[i].0.as_str(), path) {
                return Some(i);
            }
            i = i + 1;
        }
        None
    }

    /// The document of `path`, where one is open.
    pub fn get(&self, path: &str) -> (r: Option<&Document>)
        requires
            self.wf(),
        ensures
            match r {
                Some(d) => self@.contains_key(path@) && *d == self@[path@],
                None => !self@.contains_key(path@),
            },
    {
        match self.position(path) {
            Some(i) => {
                proof {
                    lemma_docs_entry(self.docs@, i as int);
                }
                Some(&self.docs[i].1)
            },
            None => None,
        }
    }

    /// Takes the document of `path` out of the store, where one is open.
    pub fn take(&mut self, path: &str) -> (r: Option<Document>)
        requires
            old(self).wf(),
        ensures
            final(self).wf(),
            final(self)@ == old(self)@.remove(path@),
            match r {
                Some(d) => old(self)@.contains_key(path@) && d == old(self)@[path@],
                None => !old(self)@.contains_key(path@),
            },
    {
        let ghost before = self.docs@;
        match self.position(path) {
            Some(i) => {
                proof {
                    lemma_docs_entry(before, i as int);
                    lemma_docs_remove(before, i as int);
                }
                let (_, d) = self.docs.remove(i);
                Some(d)
            },
            None => {
                assert(self@ =~= old(self)@.remove(path@));
                None
            },
        }
    }

    /// Puts `doc` in as the document of `path`, replacing any.
    pub fn open(&mut self, path: String, doc: Document)
        requires
            old(self).wf(),
        ensures
            final(self).wf(),
            final(self)@ == old(self)@.insert(path@, doc),
    {
        let _ = self.take(path.as_str());
        proof {
            lemma_docs_push(self.docs@, (path, doc));
        }
        self.docs.push((path, doc));
        assert(self@ =~= old(self)@.insert(path@, doc));
    }
}

} // verus!
