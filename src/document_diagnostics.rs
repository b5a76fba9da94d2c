//! The diagnostics of one document, gathered from all of its linters.
//!
//! Each linter's latest output replaces its earlier one; output for an older
//! version than the newest one seen is dropped, and output for a newer version
//! drops everything gathered so far. Each publication reports progress for the
//! newest version (ending it once all linters are in) and ends the progress of
//! every older one; the progress of a version is ended only once.

use vstd::prelude::*;
use crate::diagnostic::{Diagnostic, duplicate_all};
use crate::document_version::DocumentVersion;
use crate::progress::{
    ProgressParams,
    end_progress_params,
    make_progress_params,
    progress_value_is,
    token_of,
};

verus! {

/// One linter's diagnostics for a document, and the version they were made for.
#[derive(Debug)]
pub struct LinterDiagnostics {
    pub linter: String,
    pub version: DocumentVersion,
    pub diagnostics: Vec<Diagnostic>,
}

/// What one linter reported for one version of a document.
pub struct LinterReport {
    pub linter: Seq<char>,
    pub version: int,
    pub diagnostics: Seq<Diagnostic>,
}

/// The diagnostics record of a document, as a value.
pub struct DocState {
    /// How many linters the document's language has.
    pub expected: nat,
    /// The latest report of each linter that has reported for the newest version.
    pub entries: Seq<LinterReport>,
    /// The versions whose progress has begun and that are still kept, oldest first.
    pub versions: Seq<int>,
    /// The versions whose progress has been ended.
    pub ended: Seq<int>,
}

/// A progress notice, before it is given its token and text.
pub enum Notice {
    /// `available` of `expected` linters have reported for `version`.
    Progress { version: int, available: nat, expected: nat },
    /// The progress of `version` has ended.
    Done { version: int },
}

/// What one publication sends: the version, the reports whose diagnostics are
/// published, and the progress notices.
pub struct Batch {
    pub version: int,
    pub sources: Seq<LinterReport>,
    pub notices: Seq<Notice>,
}

impl LinterDiagnostics {
    pub open spec fn report(&self) -> LinterReport {
        LinterReport {
            linter: self.linter@,
            version: self.version.0 as int,
            diagnostics: self.diagnostics@,
        }
    }
}

/// The record of one document: which versions have progress running, and the
/// diagnostics of each linter for the newest one.
#[derive(Debug)]
pub struct DocumentDiagnostics {
    pub uri: String,
    pub max_linter_count: usize,
    pub linter_diagnostics: Vec<LinterDiagnostics>,
    pub versions: Vec<DocumentVersion>,
    pub ended_versions: Vec<DocumentVersion>,
}

pub open spec fn reports_of(v: Seq<LinterDiagnostics>) -> Seq<LinterReport> {
    v.map_values(|e: LinterDiagnostics| e.report())
}

pub open spec fn versions_of(v: Seq<DocumentVersion>) -> Seq<int> {
    v.map_values(|d: DocumentVersion| d.0 as int)
}

impl View for DocumentDiagnostics {
    type V = DocState;

    open spec fn view(&self) -> DocState {
        DocState {
            expected: self.max_linter_count as nat,
            entries: reports_of(self.linter_diagnostics@),
            versions: versions_of(self.versions@),
            ended: versions_of(self.ended_versions@),
        }
    }
}

/// The newest version of a record.
pub open spec fn max_version(s: DocState) -> int {
    s.versions.last()
}

/// A record is well formed: some version is running, versions go strictly up,
/// every entry describes the newest version, and no linter has two entries.
pub open spec fn doc_wf(s: DocState) -> bool {
    &&& s.versions.len() > 0
    &&& forall|i: int, j: int|
        0 <= i < j < s.versions.len() ==> #[trigger] s.versions[i] < #[trigger] s.versions[j]
    &&& forall|i: int|
        0 <= i < s.entries.len() ==> (#[trigger] s.entries[i]).version == max_version(s)
    &&& forall|i: int, j: int|
        0 <= i < s.entries.len() && 0 <= j < s.entries.len() && i != j ==> (
        #[trigger] s.entries[i]).linter != (#[trigger] s.entries[j]).linter
}

/// The record made when a document's first report arrives.
pub open spec fn new_state(expected: nat, version: int) -> DocState {
    DocState { expected, entries: seq![], versions: seq![version], ended: seq![] }
}

/// Where `linter` has its entry, or -1.
pub open spec fn find_linter(entries: Seq<LinterReport>, linter: Seq<char>) -> int
    decreases entries.len(),
{
    if entries.len() == 0 {
        -1
    } else if entries.last().linter == linter {
        entries.len() - 1
    } else {
        find_linter(entries.drop_last(), linter)
    }
}

/// The entries with `r` in place of its linter's entry, or added at the end.
pub open spec fn put_report(entries: Seq<LinterReport>, r: LinterReport) -> Seq<LinterReport> {
    let i = find_linter(entries, r.linter);
    if i >= 0 {
        entries.update(i, r)
    } else {
        entries.push(r)
    }
}

/// Storing a report: one for an older version than the newest is refused; one for
/// a newer version replaces all entries; one for the newest replaces its linter's entry.
pub open spec fn store(s: DocState, r: LinterReport) -> (DocState, bool) {
    let m = max_version(s);
    if r.version < m {
        (s, false)
    } else if r.version > m {
        (DocState { entries: seq![r], versions: s.versions.push(r.version), ..s }, true)
    } else {
        (DocState { entries: put_report(s.entries, r), ..s }, true)
    }
}

/// All diagnostics of the given reports, in order.
pub open spec fn flatten_reports(rs: Seq<LinterReport>) -> Seq<Diagnostic>
    decreases rs.len(),
{
    if rs.len() == 0 {
        seq![]
    } else {
        flatten_reports(rs.drop_last()) + rs.last().diagnostics
    }
}

/// Whether all expected linters have reported.
pub open spec fn is_complete(s: DocState) -> bool {
    s.entries.len() == s.expected && s.expected != 0
}

/// The end notice for `w`, unless its progress has ended already.
pub open spec fn end_of(w: int, ended: Seq<int>) -> Seq<Notice> {
    if ended.contains(w) {
        seq![]
    } else {
        seq![Notice::Done { version: w }]
    }
}

/// The end notices for the versions `vs[lo..hi]` whose progress has not ended,
/// from the newest down.
pub open spec fn end_notices(vs: Seq<int>, ended: Seq<int>, lo: int, hi: int) -> Seq<Notice>
    decreases hi - lo,
{
    if hi <= lo {
        seq![]
    } else {
        end_of(vs[hi - 1], ended) + end_notices(vs, ended, lo, hi - 1)
    }
}

/// Publishing a record: its newest version and all entries; a progress notice for
/// the newest version unless its progress has ended (the notice ends it once all
/// linters are in); and an end notice for each older version whose progress has
/// not ended, newest first. Afterwards only the newest version is kept.
pub open spec fn aggregate(s: DocState) -> (DocState, Batch) {
    let m = max_version(s);
    let head = if s.ended.contains(m) {
        seq![]
    } else {
        seq![Notice::Progress { version: m, available: s.entries.len(), expected: s.expected }]
    };
    let notices = head + end_notices(s.versions, s.ended, 0, s.versions.len() - 1);
    let ended = if s.ended.contains(m) || is_complete(s) {
        seq![m]
    } else {
        seq![]
    };
    (
        DocState { versions: seq![m], ended, ..s },
        Batch { version: m, sources: s.entries, notices },
    )
}

proof fn lemma_end_notices_front(vs: Seq<int>, ended: Seq<int>, lo: int, hi: int)
    requires
        0 < lo <= hi,
    ensures
        end_notices(vs, ended, lo - 1, hi) == end_notices(vs, ended, lo, hi) + end_of(
            vs[lo - 1],
            ended,
        ),
    decreases hi - lo,
{
    if hi > lo {
        lemma_end_notices_front(vs, ended, lo, hi - 1);
        let a = end_of(vs[hi - 1], ended);
        let b = end_notices(vs, ended, lo, hi - 1);
        let c = end_of(vs[lo - 1], ended);
        assert(a + (b + c) =~= (a + b) + c);
    } else {
        let c = end_of(vs[lo - 1], ended);
        assert(end_notices(vs, ended, lo - 1, lo - 1) =~= Seq::<Notice>::empty());
        assert(c + Seq::<Notice>::empty() =~= Seq::<Notice>::empty() + c);
    }
}

/// Whether `p` is the notice `n` for the document `uri`.
pub open spec fn renders(uri: Seq<char>, n: Notice, p: ProgressParams) -> bool {
    match n {
        Notice::Progress { version, available, expected } => {
            &&& p.token@ == token_of(uri, version)
            &&& progress_value_is(p.value, available, expected, "job finished"@)
        },
        Notice::Done { version } => {
            &&& p.token@ == token_of(uri, version)
            &&& p.value is End
        },
    }
}

pub open spec fn renders_all(uri: Seq<char>, ns: Seq<Notice>, ps: Seq<ProgressParams>) -> bool {
    &&& ns.len() == ps.len()
    &&& forall|i: int| 0 <= i < ns.len() ==> renders(uri, #[trigger] ns[i], ps[i])
}

proof fn lemma_find_linter(entries: Seq<LinterReport>, linter: Seq<char>, i: int)
    requires
        -1 <= i < entries.len(),
        i >= 0 ==> entries[i].linter == linter,
        forall|k: int| 0 <= k < entries.len() && k != i ==> (#[trigger] entries[k]).linter != linter,
    ensures
        find_linter(entries, linter) == i,
    decreases entries.len(),
{
    if entries.len() > 0 && i != entries.len() - 1 {
        let p = entries.drop_last();
        assert forall|k: int| 0 <= k < p.len() && k != i implies (#[trigger] p[k]).linter
            != linter by {
            assert(p[k] == entries[k]);
        }
        lemma_find_linter(p, linter, i);
    }
}

proof fn lemma_find_linter_result(entries: Seq<LinterReport>, linter: Seq<char>)
    ensures
        -1 <= find_linter(entries, linter) < entries.len(),
        find_linter(entries, linter) >= 0 ==> entries[find_linter(entries, linter)].linter == linter,
        find_linter(entries, linter) == -1 ==> forall|k: int|
            0 <= k < entries.len() ==> (#[trigger] entries[k]).linter != linter,
    decreases entries.len(),
{
    if entries.len() > 0 && entries.last().linter != linter {
        let p = entries.drop_last();
        lemma_find_linter_result(p, linter);
        assert forall|k: int| 0 <= k < p.len() implies #[trigger] p[k] == entries[k] by {}
        if find_linter(entries, linter) == -1 {
            assert forall|k: int| 0 <= k < entries.len() implies (#[trigger] entries[k]).linter
                != linter by {
                if k < p.len() {
                    assert(p[k] == entries[k]);
                }
            }
        }
    }
}

/// Storing a report that is taken keeps a record well formed.
pub proof fn lemma_store_wf(s: DocState, r: LinterReport)
    requires
        doc_wf(s),
    ensures
        doc_wf(store(s, r).0),
{
    let m = max_version(s);
    if r.version == m {
        let e = s.entries;
        let i = find_linter(e, r.linter);
        lemma_find_linter_result(e, r.linter);
        let e2 = put_report(e, r);
        if i >= 0 {
            assert forall|a: int, b: int|
                0 <= a < e2.len() && 0 <= b < e2.len() && a != b implies (#[trigger] e2[a]).linter
                != (#[trigger] e2[b]).linter by {
                assert(e2[a].linter == e[a].linter);
                assert(e2[b].linter == e[b].linter);
            }
        } else {
            assert forall|a: int, b: int|
                0 <= a < e2.len() && 0 <= b < e2.len() && a != b implies (#[trigger] e2[a]).linter
                != (#[trigger] e2[b]).linter by {
                if a < e.len() {
                    assert(e2[a] == e[a]);
                }
                if b < e.len() {
                    assert(e2[b] == e[b]);
                }
            }
        }
        assert(doc_wf(store(s, r).0));
    } else if r.version > m {
        let s2 = store(s, r).0;
        assert forall|i: int, j: int|
            0 <= i < j < s2.versions.len() implies #[trigger] s2.versions[i] < #[trigger] s2.versions[j] by {
            if j < s.versions.len() {
                assert(s2.versions[j] == s.versions[j]);
            } else {
                if i < s.versions.len() - 1 {
                    assert(s.versions[i] < s.versions[s.versions.len() - 1]);
                }
            }
        }
    }
}

/// A report for the newest version is taken, not only one for a newer version:
/// the version gate compares strictly. It replaces its linter's entry, so an
/// empty report clears what that linter said before.
pub proof fn lemma_same_version_taken(s: DocState, r: LinterReport)
    requires
        doc_wf(s),
        r.version == max_version(s),
    ensures
        store(s, r).1,
        store(s, r).0.versions == s.versions,
        exists|i: int|
            0 <= i < store(s, r).0.entries.len() && #[trigger] store(s, r).0.entries[i] == r,
        forall|i: int|
            0 <= i < store(s, r).0.entries.len() && store(s, r).0.entries[i].linter == r.linter
                ==> #[trigger] store(s, r).0.entries[i] == r,
{
    lemma_store_wf(s, r);
    lemma_find_linter_result(s.entries, r.linter);
    let e2 = store(s, r).0.entries;
    let f = find_linter(s.entries, r.linter);
    if f >= 0 {
        assert(e2[f] == r);
    } else {
        assert(e2[e2.len() - 1] == r);
    }
}

proof fn lemma_flatten_push(rs: Seq<LinterReport>, r: LinterReport)
    ensures
        flatten_reports(rs.push(r)) == flatten_reports(rs) + r.diagnostics,
{
    assert(rs.push(r).drop_last() == rs);
}

fn contains_version(v: &Vec<DocumentVersion>, x: DocumentVersion) -> (r: bool)
    ensures
        r == versions_of(v@).contains(x.0 as int),
{
    let mut i: usize = 0;
    while i < v.len()
        invariant
            i <= v.len(),
            forall|k: int| 0 <= k < i ==> v@[k].0 != x.0,
        decreases v.len() - i,
    {
        if v[i].0 == x.0 {
            assert(versions_of(v@)[i as int] == x.0 as int);
            return true;
        }
        i = i + 1;
    }
    assert(!versions_of(v@).contains(x.0 as int)) by {
        if versions_of(v@).contains(x.0 as int) {
            let k = choose|k: int| 0 <= k < versions_of(v@).len() && versions_of(v@)[k] == x.0 as int;
            assert(v@[k].0 == x.0);
        }
    }
    false
}

impl DocumentDiagnostics {
    pub open spec fn wf(&self) -> bool {
        doc_wf(self@)
    }

    /// A record for a document whose first report is for `version`.
    pub fn new(uri: String, max_linter_count: usize, version: DocumentVersion) -> (r: Self)
        ensures
            r@ == new_state(max_linter_count as nat, version.0 as int),
            r.uri == uri,
            r.wf(),
    {
        let r = DocumentDiagnostics {
            uri,
            max_linter_count,
            linter_diagnostics: Vec::new(),
            versions: vec![version],
            ended_versions: Vec::new(),
        };
        assert(r@.entries == Seq::<LinterReport>::empty());
        assert(r@.versions == seq![version.0 as int]);
        assert(r@.ended == Seq::<int>::empty());
        r
    }

    /// Stores a linter's diagnostics for a version; says whether they were taken.
    pub fn update_diagnostics_storage(
        &mut self,
        linter_name: &str,
        version: DocumentVersion,
        new_diagnostics: Vec<Diagnostic>,
    ) -> (r: bool)
        requires
            old(self).wf(),
        ensures
            (final(self)@, r) == store(
                old(self)@,
                LinterReport {
                    linter: linter_name@,
                    version: version.0 as int,
                    diagnostics: new_diagnostics@,
                },
            ),
            r <==> version.0 >= max_version(old(self)@),
            final(self).wf(),
            final(self).uri == old(self).uri,
    {
        let ghost s = self@;
        let ghost rep = LinterReport {
            linter: linter_name@,
            version: version.0 as int,
            diagnostics: new_diagnostics@,
        };
        let n = self.versions.len();
        let max = self.versions[n - 1];
        assert(max.0 as int == max_version(s));
        if max.0 > version.0 {
            return false;
        }
        let entry = LinterDiagnostics {
            linter: String::from_str(linter_name),
            version,
            diagnostics: new_diagnostics,
        };
        assert(entry.report() == rep);
        if version.0 > max.0 {
            self.linter_diagnostics = vec![entry];
            self.versions.push(version);
            assert(reports_of(self.linter_diagnostics@) == seq![rep]);
            assert(versions_of(self.versions@) == s.versions.push(version.0 as int));
            assert(self@ == store(s, rep).0);
            return true;
        }
        let name = String::from_str(linter_name);
        let mut i: usize = 0;
        while i < self.linter_diagnostics.len()
            invariant
                s == self@,
                doc_wf(s),
                name@ == rep.linter,
                i <= self.linter_diagnostics.len(),
                forall|k: int| 0 <= k < i ==> (#[trigger] s.entries[k]).linter != rep.linter,
            ensures
                i <= self.linter_diagnostics.len(),
                i < self.linter_diagnostics.len() ==> s.entries[i as int].linter == rep.linter,
                forall|k: int| 0 <= k < i ==> (#[trigger] s.entries[k]).linter != rep.linter,
            decreases self.linter_diagnostics.len() - i,
        {
            assert(s.entries[i as int].linter == self.linter_diagnostics@[i as int].linter@);
            if self.linter_diagnostics[i].linter == name {
                break;
            }
            assert(s.entries[i as int].linter == self.linter_diagnostics@[i as int].linter@);
            i = i + 1;
        }
        proof {
            if i < self.linter_diagnostics.len() {
                lemma_find_linter(s.entries, rep.linter, i as int);
            } else {
                lemma_find_linter(s.entries, rep.linter, -1);
            }
        }
        if i < self.linter_diagnostics.len() {
            self.linter_diagnostics.set(i, entry);
            assert(reports_of(self.linter_diagnostics@) == s.entries.update(i as int, rep));
            assert(doc_wf(self@));
        } else {
            self.linter_diagnostics.push(entry);
            assert(reports_of(self.linter_diagnostics@) == s.entries.push(rep));
            assert(doc_wf(self@));
        }
        true
    }

    /// Publishes the record: the newest version, the diagnostics of all linters
    /// for it, and its progress notices (see [`aggregate`]).
    pub fn aggregate_most_recent_diagnostics(&mut self, uri: String) -> (r: (
        String,
        DocumentVersion,
        Vec<Diagnostic>,
        Vec<ProgressParams>,
    ))
        requires
            old(self).wf(),
        ensures
            final(self)@ == aggregate(old(self)@).0,
            final(self).wf(),
            final(self).uri == old(self).uri,
            r.0 == uri,
            r.1.0 as int == aggregate(old(self)@).1.version,
            r.2@ == flatten_reports(aggregate(old(self)@).1.sources),
            renders_all(uri@, aggregate(old(self)@).1.notices, r.3@),
    {
        let ghost s = self@;
        let ghost b = aggregate(s).1;
        let n = self.versions.len();
        let max_version = self.versions[n - 1];
        let available = self.linter_diagnostics.len();
        let max_ended = contains_version(&self.ended_versions, max_version);
        let ghost head = if s.ended.contains(max_version.0 as int) {
            Seq::<Notice>::empty()
        } else {
            seq![
                Notice::Progress {
                    version: max_version.0 as int,
                    available: s.entries.len(),
                    expected: s.expected,
                },
            ]
        };
        let mut progress_messages: Vec<ProgressParams> = Vec::new();
        if !max_ended {
            progress_messages.push(
                make_progress_params(
                    "job finished",
                    uri.as_str(),
                    max_version,
                    available,
                    self.max_linter_count,
                ),
            );
        }
        assert(renders_all(uri@, head, progress_messages@));
        let mut k: usize = n - 1;
        assert(head + end_notices(s.versions, s.ended, (n - 1) as int, (n - 1) as int) == head);
        while k > 0
            invariant
                s == self@,
                doc_wf(s),
                n == self.versions.len(),
                k < n,
                renders_all(uri@, head + end_notices(s.versions, s.ended, k as int, (n - 1) as int), progress_messages@),
            decreases k,
        {
            let v = self.versions[k - 1];
            let ghost before = progress_messages@;
            proof {
                lemma_end_notices_front(s.versions, s.ended, k as int, (n - 1) as int);
                assert(s.versions[k - 1] == v.0 as int);
            }
            let ghost prev = head + end_notices(s.versions, s.ended, k as int, (n - 1) as int);
            if !contains_version(&self.ended_versions, v) {
                progress_messages.push(end_progress_params(uri.as_str(), v));
                assert(head + end_notices(s.versions, s.ended, k - 1, (n - 1) as int) == prev.push(
                    Notice::Done { version: v.0 as int },
                ));
            } else {
                assert(head + end_notices(s.versions, s.ended, k - 1, (n - 1) as int) == prev);
            }
            k = k - 1;
        }
        let mut diagnostics: Vec<Diagnostic> = Vec::new();
        let mut i: usize = 0;
        while i < self.linter_diagnostics.len()
            invariant
                s == self@,
                i <= self.linter_diagnostics.len(),
                diagnostics@ == flatten_reports(s.entries.take(i as int)),
            decreases self.linter_diagnostics.len() - i,
        {
            let mut d = duplicate_all(&self.linter_diagnostics[i].diagnostics);
            diagnostics.append(&mut d);
            proof {
                assert(s.entries.take(i + 1) == s.entries.take(i as int).push(s.entries[i as int]));
                lemma_flatten_push(s.entries.take(i as int), s.entries[i as int]);
            }
            i = i + 1;
        }
        assert(s.entries.take(i as int) == s.entries);
        self.versions = vec![max_version];
        assert(versions_of(self.versions@) == seq![max_version.0 as int]);
        if max_ended || (available == self.max_linter_count && available != 0) {
            self.ended_versions = vec![max_version];
            assert(versions_of(self.ended_versions@) == seq![max_version.0 as int]);
        } else {
            self.ended_versions = Vec::new();
            assert(versions_of(self.ended_versions@) == Seq::<int>::empty());
        }
        assert(self@ == aggregate(s).0);
        (uri, max_version, diagnostics, progress_messages)
    }
}

} // verus!
