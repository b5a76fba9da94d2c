//! The open documents: language, text and version of each.

use vstd::prelude::*;
use crate::document_version::DocumentVersion;

verus! {

/// An open document.
#[derive(Clone, Debug)]
pub struct DocumentStorage {
    pub language_id: String,
    pub file_contents: String,
    pub version: DocumentVersion,
}

impl DocumentStorage {
    /// A copy of this record.
    pub fn duplicate(&self) -> (r: DocumentStorage)
        ensures
            r == *self,
    {
        DocumentStorage {
            language_id: self.language_id.clone(),
            file_contents: self.file_contents.clone(),
            version: self.version,
        }
    }
}

/// What happened to a change of a document.
#[derive(Clone, Copy, Debug, PartialEq, Eq, Structural)]
pub enum ChangeOutcome {
    /// The text and version were replaced.
    Applied,
    /// The document is not open.
    NotOpen,
    /// The change is for an older version than the one stored.
    Stale,
}

/// The open documents, each at most once.
pub struct DocumentStore {
    entries: Vec<(String, DocumentStorage)>,
}

impl DocumentStore {
    pub closed spec fn entries(&self) -> Seq<(String, DocumentStorage)> {
        self.entries@
    }

    /// The record of the document `uri`, if it is open.
    pub open spec fn get_spec(&self, uri: Seq<char>) -> Option<DocumentStorage> {
        if exists|i: int| 0 <= i < self.entries().len() && (#[trigger] self.entries()[i]).0@ == uri {
            let i = choose|i: int| 0 <= i < self.entries().len() && (#[trigger] self.entries()[i]).0@ == uri;
            Some(self.entries()[i].1)
        } else {
            None
        }
    }

    pub open spec fn wf(&self) -> bool {
        forall|i: int, j: int|
            0 <= i < self.entries().len() && 0 <= j < self.entries().len() && i != j ==> (
            #[trigger] self.entries()[i]).0@ != (#[trigger] self.entries()[j]).0@
    }

    proof fn lemma_get(&self, uri: Seq<char>, i: int)
        requires
            self.wf(),
            0 <= i < self.entries().len(),
            self.entries()[i].0@ == uri,
        ensures
            self.get_spec(uri) == Some(self.entries()[i].1),
    {
        let j = choose|j: int| 0 <= j < self.entries().len() && (#[trigger] self.entries()[j]).0@ == uri;
        assert(j == i);
    }

    /// No documents.
    pub fn new() -> (r: Self)
        ensures
            r.wf(),
            forall|u: Seq<char>| r.get_spec(u) is None,
    {
        DocumentStore { entries: Vec::new() }
    }

    fn find(&self, uri: &String) -> (r: Option<usize>)
        requires
            self.wf(),
        ensures
            match r {
                Some(i) => i < self.entries().len() && self.entries()[i as int].0@ == uri@ && self.get_spec(uri@) == Some(self.entries()[i as int].1),
                None => self.get_spec(uri@) is None,
            },
    {
        let mut i: usize = 0;
        while i < self.entries.len()
            invariant
                self.wf(),
                i <= self.entries.len(),
                forall|k: int| 0 <= k < i ==> (#[trigger] self.entries()[k]).0@ != uri@,
            decreases self.entries.len() - i,
        {
            if self.entries[i].0 == *uri {
                proof {
                    self.lemma_get(uri@, i as int);
                }
                return Some(i);
            }
            i = i + 1;
        }
        None
    }

    /// The record of `uri`, if the document is open.
    pub fn get(&self, uri: &String) -> (r: Option<DocumentStorage>)
        requires
            self.wf(),
        ensures
            r == self.get_spec(uri@),
    {
        match self.find(uri) {
            Some(i) => Some(self.entries[i].1.duplicate()),
            None => None,
        }
    }

    /// Opens a document; a document that is already open is left as it is, and
    /// `false` says so.
    pub fn open(&mut self, uri: String, record: DocumentStorage) -> (r: bool)
        requires
            old(self).wf(),
        ensures
            final(self).wf(),
            r == old(self).get_spec(uri@) is None,
            r ==> final(self).get_spec(uri@) == Some(record),
            !r ==> final(self).get_spec(uri@) == old(self).get_spec(uri@),
            forall|u: Seq<char>| u != uri@ ==> final(self).get_spec(u) == old(self).get_spec(u),
    {
        if self.find(&uri).is_some() {
            return false;
        }
        let ghost old_entries = self.entries@;
        let ghost key = uri@;
        self.entries.push((uri, record));
        proof {
            let n = old_entries.len() as int;
            let e = self.entries();
            assert(old_entries == old(self).entries());
            assert(old(self).get_spec(key) is None);
            assert forall|a: int| 0 <= a < n implies (#[trigger] old_entries[a]).0@ != key by {
                if old_entries[a].0@ == key {
                    assert(0 <= a < old(self).entries().len() && (old(self).entries()[a]).0@ == key);
                }
            }
            assert(e[n].0@ == key);
            assert forall|a: int, b: int| 0 <= a < e.len() && 0 <= b < e.len() && a != b implies (
                #[trigger] e[a]).0@ != (#[trigger] e[b]).0@ by {
                if a < n && b < n {
                    assert(e[a] == old_entries[a] && e[b] == old_entries[b]);
                } else if a < n {
                    assert(e[a] == old_entries[a]);
                } else {
                    assert(e[b] == old_entries[b]);
                }
            }
            self.lemma_get(key, n);
            assert forall|u: Seq<char>| u != key implies self.get_spec(u) == old(self).get_spec(u) by {
                if exists|k: int| 0 <= k < old_entries.len() && (#[trigger] old_entries[k]).0@ == u {
                    let k = choose|k: int| 0 <= k < old_entries.len() && (#[trigger] old_entries[k]).0@ == u;
                    old(self).lemma_get(u, k);
                    self.lemma_get(u, k);
                } else {
                    if exists|k: int| 0 <= k < self.entries().len() && (#[trigger] self.entries()[k]).0@ == u {
                        let k = choose|k: int| 0 <= k < self.entries().len() && (#[trigger] self.entries()[k]).0@ == u;
                        assert(k < n);
                        assert(old_entries[k].0@ == u);
                    }
                }
            }
        }
        true
    }

    /// Replaces the text and version of an open document, unless the change is for
    /// an older version than the stored one; a change for the same version is taken.
    pub fn change(&mut self, uri: &String, version: DocumentVersion, text: String) -> (r: ChangeOutcome)
        requires
            old(self).wf(),
        ensures
            final(self).wf(),
            match old(self).get_spec(uri@) {
                None => r == ChangeOutcome::NotOpen && final(self).get_spec(uri@) is None,
                Some(d) => if version.0 < d.version.0 {
                    r == ChangeOutcome::Stale && final(self).get_spec(uri@) == Some(d)
                } else {
                    r == ChangeOutcome::Applied && final(self).get_spec(uri@) == Some(
                        DocumentStorage { file_contents: text, version, ..d },
                    )
                },
            },
            forall|u: Seq<char>| u != uri@ ==> final(self).get_spec(u) == old(self).get_spec(u),
    {
        match self.find(uri) {
            None => ChangeOutcome::NotOpen,
            Some(i) => {
                if version.0 < self.entries[i].1.version.0 {
                    return ChangeOutcome::Stale;
                }
                let ghost old_entries = self.entries@;
                let ghost d = old_entries[i as int].1;
                let k = self.entries[i].0.clone();
                let lang = self.entries[i].1.language_id.clone();
                let newd = DocumentStorage { language_id: lang, file_contents: text, version };
                self.entries.set(i, (k, newd));
                proof {
                    assert(self.entries()[i as int].0 == old_entries[i as int].0);
                    assert forall|a: int| 0 <= a < self.entries().len() && a != i implies #[trigger] self.entries()[a] == old_entries[a] by {}
                    self.lemma_get(uri@, i as int);
                    assert forall|u: Seq<char>| u != uri@ implies self.get_spec(u) == old(self).get_spec(u) by {
                        if exists|a: int| 0 <= a < old_entries.len() && (#[trigger] old_entries[a]).0@ == u {
                            let a = choose|a: int| 0 <= a < old_entries.len() && (#[trigger] old_entries[a]).0@ == u;
                            old(self).lemma_get(u, a);
                            self.lemma_get(u, a);
                        } else {
                            if exists|a: int| 0 <= a < self.entries().len() && (#[trigger] self.entries()[a]).0@ == u {
                                let a = choose|a: int| 0 <= a < self.entries().len() && (#[trigger] self.entries()[a]).0@ == u;
                                assert(old_entries[a].0@ == u);
                            }
                        }
                    }
                }
                ChangeOutcome::Applied
            },
        }
    }

    /// Closes a document; closing one that is not open does nothing.
    pub fn close(&mut self, uri: &String)
        requires
            old(self).wf(),
        ensures
            final(self).wf(),
            final(self).get_spec(uri@) is None,
            forall|u: Seq<char>| u != uri@ ==> final(self).get_spec(u) == old(self).get_spec(u),
    {
        match self.find(uri) {
            None => {},
            Some(i) => {
                let ghost old_entries = self.entries@;
                self.entries.remove(i);
                proof {
                    let e = self.entries();
                    assert(e == old_entries.remove(i as int));
                    assert forall|a: int| 0 <= a < e.len() implies #[trigger] e[a] == old_entries[if a < i { a } else { a + 1 }] by {}
                    assert forall|a: int, b: int| 0 <= a < e.len() && 0 <= b < e.len() && a != b implies (
                        #[trigger] e[a]).0@ != (#[trigger] e[b]).0@ by {
                        let oa = if a < i { a } else { a + 1 };
                        let ob = if b < i { b } else { b + 1 };
                        assert(e[a] == old_entries[oa]);
                        assert(e[b] == old_entries[ob]);
                    }
                    if exists|a: int| 0 <= a < e.len() && (#[trigger] e[a]).0@ == uri@ {
                        let a = choose|a: int| 0 <= a < e.len() && (#[trigger] e[a]).0@ == uri@;
                        let oa = if a < i { a } else { a + 1 };
                        assert(old_entries[oa].0@ == uri@);
                        assert(false);
                    }
                    assert forall|u: Seq<char>| u != uri@ implies self.get_spec(u) == old(self).get_spec(u) by {
                        if exists|a: int| 0 <= a < old_entries.len() && (#[trigger] old_entries[a]).0@ == u {
                            let a = choose|a: int| 0 <= a < old_entries.len() && (#[trigger] old_entries[a]).0@ == u;
                            old(self).lemma_get(u, a);
                            assert(a != i);
                            let na = if a < i { a } else { a - 1 };
                            assert(e[na] == old_entries[a]);
                            self.lemma_get(u, na);
                        } else {
                            if exists|a: int| 0 <= a < e.len() && (#[trigger] e[a]).0@ == u {
                                let a = choose|a: int| 0 <= a < e.len() && (#[trigger] e[a]).0@ == u;
                                let oa = if a < i { a } else { a + 1 };
                                assert(old_entries[oa].0@ == u);
                            }
                        }
                    }
                }
            },
        }
    }
}

} // verus!
