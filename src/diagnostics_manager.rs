//! The diagnostics records of all documents, and what each update publishes.

use vstd::prelude::*;
use crate::diagnostic::Diagnostic;
use crate::document_diagnostics::{
    Batch,
    DocState,
    DocumentDiagnostics,
    LinterReport,
    aggregate,
    doc_wf,
    flatten_reports,
    new_state,
    renders_all,
    lemma_store_wf,
    store,
    Notice,
    end_notices,
    end_of,
    is_complete,
    max_version,
};
use crate::document_version::DocumentVersion;
use crate::progress::ProgressParams;

verus! {

/// One linter's finished run on a document: how many linters the document's
/// language has, and what this one reported.
pub struct Update {
    pub expected: nat,
    pub report: LinterReport,
}

/// What one update does to a document's record (made on its first report): the
/// record afterwards, and the publication if the report was taken.
pub open spec fn doc_update(s: Option<DocState>, u: Update) -> (DocState, Option<Batch>) {
    let s0 = match s {
        Some(d) => d,
        None => new_state(u.expected, u.report.version),
    };
    let (s1, taken) = store(s0, u.report);
    if taken {
        let (s2, b) = aggregate(s1);
        (s2, Some(b))
    } else {
        (s1, None)
    }
}

/// One update never lowers a document's newest version, leaves it at least the
/// reported version, and publishes, if anything, for that newest version. So the
/// versions published by successive calls never go down.
pub proof fn lemma_update_keeps_newest(s: Option<DocState>, u: Update)
    requires
        s is None || doc_wf(s->Some_0),
    ensures
        s is Some ==> max_version(doc_update(s, u).0) >= max_version(s->Some_0),
        max_version(doc_update(s, u).0) >= u.report.version,
        doc_update(s, u).1 is Some ==> doc_update(s, u).1->Some_0.version == max_version(
            doc_update(s, u).0,
        ),
{
}

/// The record of a document after the given updates, in order (none before the first).
pub open spec fn state_after(us: Seq<Update>) -> Option<DocState>
    decreases us.len(),
{
    if us.len() == 0 {
        None
    } else {
        Some(doc_update(state_after(us.drop_last()), us.last()).0)
    }
}

/// The publication made by update `k` of a run, if any.
pub open spec fn batch_at(us: Seq<Update>, k: int) -> Option<Batch> {
    doc_update(state_after(us.take(k)), us[k]).1
}

/// The newest version of a document after updates `0..k` of a run (`k >= 1`).
pub open spec fn max_after(us: Seq<Update>, k: int) -> int {
    state_after(us.take(k))->Some_0.versions[0]
}

/// Between updates a record is well formed, has a single version, and has ended
/// the progress of no other version.
pub open spec fn settled(s: Option<DocState>) -> bool {
    match s {
        None => true,
        Some(d) => {
            &&& doc_wf(d)
            &&& d.versions.len() == 1
            &&& forall|k: int| 0 <= k < d.ended.len() ==> #[trigger] d.ended[k] == d.versions[0]
        },
    }
}

/// Whether a notice ends the progress of version `w`: an end notice for it, or a
/// progress notice for it once all linters are in.
pub open spec fn ends(n: Notice, w: int) -> bool {
    match n {
        Notice::Progress { version, available, expected } => version == w && available == expected
            && expected != 0,
        Notice::Done { version } => version == w,
    }
}

/// Whether a publication ends the progress of version `w`.
pub open spec fn batch_ends(b: Batch, w: int) -> bool {
    exists|k: int| 0 <= k < b.notices.len() && ends(#[trigger] b.notices[k], w)
}

/// Whether the progress of `w` can no longer be ended: `w` is older than the
/// newest version, or is the newest and its progress has ended.
pub open spec fn closed(s: Option<DocState>, w: int) -> bool {
    match s {
        None => false,
        Some(d) => w < d.versions[0] || (w == d.versions[0] && d.ended.contains(w)),
    }
}

proof fn lemma_update_shape(s: Option<DocState>, u: Update)
    requires
        settled(s),
    ensures
        settled(Some(doc_update(s, u).0)),
        doc_update(s, u).0.versions[0] == (if s is None || u.report.version > s->Some_0.versions[0] {
            u.report.version
        } else {
            s->Some_0.versions[0]
        }),
        doc_update(s, u).1 is Some <==> (s is None || u.report.version >= s->Some_0.versions[0]),
        doc_update(s, u).1 is Some ==> doc_update(s, u).1->Some_0.version == doc_update(s, u).0.versions[0],
        doc_update(s, u).1 is Some ==> forall|k: int|
            0 <= k < doc_update(s, u).1->Some_0.sources.len() ==> (#[trigger] doc_update(s, u).1->Some_0.sources[k]).version
                == doc_update(s, u).1->Some_0.version,
        doc_update(s, u).1 is Some ==> forall|w: int|
            batch_ends(doc_update(s, u).1->Some_0, w) ==> closed(Some(doc_update(s, u).0), w),
        doc_update(s, u).1 is Some ==> forall|w: int|
            batch_ends(doc_update(s, u).1->Some_0, w) ==> (w == doc_update(s, u).1->Some_0.version || (
            s is Some && w == s->Some_0.versions[0])),
        doc_update(s, u).1 is Some ==> forall|w: int, k1: int, k2: int|
            0 <= k1 < doc_update(s, u).1->Some_0.notices.len() && 0 <= k2 < doc_update(s, u).1->Some_0.notices.len()
                && k1 != k2 && #[trigger] ends(doc_update(s, u).1->Some_0.notices[k1], w)
                ==> !#[trigger] ends(doc_update(s, u).1->Some_0.notices[k2], w),
        forall|w: int|
            closed(s, w) ==> closed(Some(doc_update(s, u).0), w) && !(doc_update(s, u).1 is Some
                && batch_ends(doc_update(s, u).1->Some_0, w)),
        forall|w: int|
            !closed(s, w) && closed(Some(doc_update(s, u).0), w) && ((s is Some && w <= s->Some_0.versions[0])
                || w == doc_update(s, u).0.versions[0]) ==> doc_update(s, u).1 is Some && batch_ends(
                doc_update(s, u).1->Some_0,
                w,
            ),
{
    let s0 = match s {
        Some(d) => d,
        None => new_state(u.expected, u.report.version),
    };
    let v = u.report.version;
    let m0 = s0.versions[0];
    assert(s0.versions.len() == 1);
    assert(forall|k: int| 0 <= k < s0.ended.len() ==> #[trigger] s0.ended[k] == m0);
    lemma_store_wf(s0, u.report);
    let (s1, taken) = store(s0, u.report);
    let (s2, b) = doc_update(s, u);
    if taken {
        let (s3, bb) = aggregate(s1);
        assert(s2 == s3);
        assert(b == Some(bb));
        let m = max_version(s1);
        if v == m0 {
            assert(s1.versions == s0.versions);
            assert(s1.ended == s0.ended);
            assert(end_notices(s1.versions, s1.ended, 0, 0) =~= Seq::<Notice>::empty());
            let head = if s1.ended.contains(m) {
                Seq::<Notice>::empty()
            } else {
                seq![Notice::Progress { version: m, available: s1.entries.len(), expected: s1.expected }]
            };
            assert(bb.notices =~= head);
            assert forall|w: int|
                !closed(s, w) && closed(Some(s2), w) && ((s is Some && w <= m0) || w == s2.versions[0])
                    implies batch_ends(bb, w) by {
                assert(w == m);
                assert(!s1.ended.contains(m));
                assert(is_complete(s1));
                assert(ends(bb.notices[0], w));
            }
        } else {
            assert(v > m0);
            assert(s1.versions == seq![m0, v]);
            assert(s1.ended == s0.ended);
            assert(!s1.ended.contains(v)) by {
                if s1.ended.contains(v) {
                    let k = choose|k: int| 0 <= k < s1.ended.len() && s1.ended[k] == v;
                    assert(s0.ended[k] == m0);
                }
            }
            assert(end_notices(s1.versions, s1.ended, 0, 0) =~= Seq::<Notice>::empty());
            assert(end_notices(s1.versions, s1.ended, 0, 1) =~= end_of(m0, s1.ended));
            let head = seq![Notice::Progress { version: v, available: s1.entries.len(), expected: s1.expected }];
            assert(bb.notices =~= head + end_of(m0, s1.ended));
            assert forall|w: int|
                !closed(s, w) && closed(Some(s2), w) && ((s is Some && w <= m0) || w == s2.versions[0])
                    implies batch_ends(bb, w) by {
                if w == v {
                    assert(is_complete(s1));
                    assert(ends(bb.notices[0], w));
                } else {
                    assert(w == m0);
                    assert(!s1.ended.contains(m0));
                    assert(bb.notices[1] == Notice::Done { version: m0 });
                    assert(ends(bb.notices[1], w));
                }
            }
        }
        assert forall|w: int| batch_ends(bb, w) implies closed(Some(s2), w) by {
            let k = choose|k: int| 0 <= k < bb.notices.len() && ends(#[trigger] bb.notices[k], w);
            if w == m && !s1.ended.contains(m) {
                assert(is_complete(s1));
                assert(s2.ended[0] == m);
            }
        }
    } else {
        assert(s2 == s1);
        assert(s1 == s0);
    }
}

proof fn lemma_take_step(us: Seq<Update>, k: int)
    requires
        0 <= k < us.len(),
    ensures
        state_after(us.take(k + 1)) == Some(doc_update(state_after(us.take(k)), us[k]).0),
{
    assert(us.take(k + 1).drop_last() == us.take(k));
    assert(us.take(k + 1).last() == us[k]);
}

proof fn lemma_settled(us: Seq<Update>, k: int)
    requires
        0 <= k <= us.len(),
    ensures
        settled(state_after(us.take(k))),
        k >= 1 <==> state_after(us.take(k)) is Some,
    decreases k,
{
    if k == 0 {
        assert(us.take(0).len() == 0);
    } else {
        lemma_settled(us, k - 1);
        lemma_take_step(us, k - 1);
        lemma_update_shape(state_after(us.take(k - 1)), us[k - 1]);
    }
}

/// The record of a document after updates `0..k` of a run.
pub open spec fn state_at(us: Seq<Update>, k: int) -> Option<DocState> {
    state_after(us.take(k))
}

/// What update `k` does, in terms of the records before and after it.
proof fn lemma_step(us: Seq<Update>, k: int)
    requires
        0 <= k < us.len(),
    ensures
        k >= 1 ==> max_after(us, k + 1) == (if us[k].report.version > max_after(us, k) {
            us[k].report.version
        } else {
            max_after(us, k)
        }),
        k == 0 ==> max_after(us, k + 1) == us[k].report.version,
        batch_at(us, k) is Some <==> (k == 0 || us[k].report.version >= max_after(us, k)),
        batch_at(us, k) is Some ==> {
            let bb = batch_at(us, k)->Some_0;
            &&& bb.version == max_after(us, k + 1)
            &&& forall|i: int|
                0 <= i < bb.sources.len() ==> (#[trigger] bb.sources[i]).version == bb.version
            &&& forall|w: int| batch_ends(bb, w) ==> closed(state_at(us, k + 1), w)
            &&& forall|w: int|
                batch_ends(bb, w) ==> (w == bb.version || (k >= 1 && w == max_after(us, k)))
            &&& forall|w: int, k1: int, k2: int|
                0 <= k1 < bb.notices.len() && 0 <= k2 < bb.notices.len() && k1 != k2 && #[trigger] ends(
                    bb.notices[k1],
                    w,
                ) ==> !#[trigger] ends(bb.notices[k2], w)
        },
        forall|w: int|
            closed(state_at(us, k), w) ==> closed(state_at(us, k + 1), w) && !(batch_at(us, k) is Some
                && batch_ends(batch_at(us, k)->Some_0, w)),
        forall|w: int|
            !closed(state_at(us, k), w) && closed(state_at(us, k + 1), w) && ((k >= 1 && w
                <= max_after(us, k)) || w == max_after(us, k + 1)) ==> batch_at(us, k) is Some
                && batch_ends(batch_at(us, k)->Some_0, w),
{
    lemma_settled(us, k);
    lemma_take_step(us, k);
    lemma_update_shape(state_after(us.take(k)), us[k]);
}

proof fn lemma_max_grows(us: Seq<Update>, i: int, j: int)
    requires
        1 <= i <= j <= us.len(),
    ensures
        max_after(us, i) <= max_after(us, j),
    decreases j - i,
{
    if i < j {
        lemma_max_grows(us, i, j - 1);
        lemma_step(us, j - 1);
    }
}

/// The versions that a document's publications carry never go down.
pub proof fn lemma_published_versions_monotone(us: Seq<Update>, i: int, j: int)
    requires
        0 <= i < j < us.len(),
        batch_at(us, i) is Some,
        batch_at(us, j) is Some,
    ensures
        batch_at(us, i)->Some_0.version <= batch_at(us, j)->Some_0.version,
{
    lemma_step(us, i);
    lemma_step(us, j);
    lemma_max_grows(us, i + 1, j + 1);
}

/// Once a report for version `v` has been processed, every later publication is for
/// version `v` or newer, and holds only reports made for the version it carries.
pub proof fn lemma_no_stale_publication(us: Seq<Update>, i: int, j: int)
    requires
        0 <= i <= j < us.len(),
        batch_at(us, j) is Some,
    ensures
        batch_at(us, j)->Some_0.version >= us[i].report.version,
        forall|k: int|
            0 <= k < batch_at(us, j)->Some_0.sources.len() ==> (#[trigger] batch_at(
                us,
                j,
            )->Some_0.sources[k]).version == batch_at(us, j)->Some_0.version,
{
    lemma_step(us, i);
    lemma_step(us, j);
    lemma_max_grows(us, i + 1, j + 1);
}

proof fn lemma_closed_stays(us: Seq<Update>, a: int, b: int, w: int)
    requires
        0 <= a <= b <= us.len(),
        closed(state_at(us, a), w),
    ensures
        closed(state_at(us, b), w),
        forall|k: int|
            a <= k < b ==> !(#[trigger] batch_at(us, k) is Some && batch_ends(batch_at(us, k)->Some_0, w)),
    decreases b - a,
{
    if a < b {
        lemma_closed_stays(us, a, b - 1, w);
        lemma_step(us, b - 1);
    }
}

/// The progress of a version is ended at most once in a run: no two publications
/// end it, and no publication holds two notices that end it.
pub proof fn lemma_progress_ended_once(us: Seq<Update>, i: int, j: int, w: int)
    requires
        0 <= i <= j < us.len(),
        batch_at(us, i) is Some,
        batch_at(us, j) is Some,
        batch_ends(batch_at(us, i)->Some_0, w),
    ensures
        i < j ==> !batch_ends(batch_at(us, j)->Some_0, w),
        forall|k1: int, k2: int|
            0 <= k1 < batch_at(us, i)->Some_0.notices.len() && 0 <= k2 < batch_at(us, i)->Some_0.notices.len()
                && k1 != k2 && #[trigger] ends(batch_at(us, i)->Some_0.notices[k1], w) ==> !#[trigger] ends(
                batch_at(us, i)->Some_0.notices[k2],
                w,
            ),
{
    lemma_step(us, i);
    if i < j {
        lemma_closed_stays(us, i + 1, j + 1, w);
    }
}

/// The newest version after updates `0..k` is the version of an earlier publication.
proof fn lemma_max_was_published(us: Seq<Update>, k: int) -> (i: int)
    requires
        1 <= k <= us.len(),
    ensures
        0 <= i < k,
        batch_at(us, i) is Some,
        batch_at(us, i)->Some_0.version == max_after(us, k),
    decreases k,
{
    lemma_step(us, k - 1);
    if k == 1 {
        0
    } else if us[k - 1].report.version > max_after(us, k - 1) {
        k - 1
    } else {
        lemma_max_was_published(us, k - 1)
    }
}

/// Whether some publication among updates `0..k` is for version `w`.
pub open spec fn published_before(us: Seq<Update>, k: int, w: int) -> bool {
    exists|i: int| 0 <= i < k && #[trigger] batch_at(us, i) is Some && batch_at(us, i)->Some_0.version == w
}

/// Whether some publication among updates `0..k` ends the progress of `w`.
pub open spec fn ended_before(us: Seq<Update>, k: int, w: int) -> bool {
    exists|i: int|
        0 <= i < k && #[trigger] batch_at(us, i) is Some && batch_ends(batch_at(us, i)->Some_0, w)
}

proof fn lemma_closed_was_ended(us: Seq<Update>, k: int, w: int)
    requires
        1 <= k <= us.len(),
        published_before(us, k, w),
        closed(state_at(us, k), w),
    ensures
        ended_before(us, k, w),
    decreases k,
{
    lemma_step(us, k - 1);
    let bk = batch_at(us, k - 1);
    if bk is Some && batch_ends(bk->Some_0, w) {
        assert(batch_at(us, k - 1) is Some);
    } else if k == 1 {
        let i = choose|i: int| 0 <= i < k && #[trigger] batch_at(us, i) is Some && batch_at(us, i)->Some_0.version == w;
        assert(i == 0);
        assert(us.take(0).len() == 0);
        assert(!closed(state_at(us, 0), w));
    } else if published_before(us, k - 1, w) {
        let i = choose|i: int| 0 <= i < k - 1 && #[trigger] batch_at(us, i) is Some && batch_at(us, i)->Some_0.version == w;
        lemma_step(us, i);
        lemma_max_grows(us, i + 1, k - 1);
        if closed(state_at(us, k - 1), w) {
            lemma_closed_was_ended(us, k - 1, w);
            let j = choose|j: int|
                0 <= j < k - 1 && #[trigger] batch_at(us, j) is Some && batch_ends(batch_at(us, j)->Some_0, w);
            assert(batch_at(us, j) is Some);
        }
    } else {
        let i = choose|i: int| 0 <= i < k && #[trigger] batch_at(us, i) is Some && batch_at(us, i)->Some_0.version == w;
        assert(i == k - 1);
        if closed(state_at(us, k - 1), w) {
            lemma_settled(us, k - 1);
            let p = lemma_max_was_published(us, k - 1);
            assert(batch_at(us, p) is Some);
        }
    }
}

/// Once a publication for a newer version follows one for version `w`, the
/// progress of `w` has been ended, by that publication or an earlier one.
pub proof fn lemma_progress_ended_when_superseded(us: Seq<Update>, i: int, j: int)
    requires
        0 <= i < j < us.len(),
        batch_at(us, i) is Some,
        batch_at(us, j) is Some,
        batch_at(us, i)->Some_0.version < batch_at(us, j)->Some_0.version,
    ensures
        exists|k: int|
            0 <= k <= j && #[trigger] batch_at(us, k) is Some && batch_ends(
                batch_at(us, k)->Some_0,
                batch_at(us, i)->Some_0.version,
            ),
{
    let w = batch_at(us, i)->Some_0.version;
    lemma_step(us, j);
    lemma_settled(us, j + 1);
    assert(published_before(us, j + 1, w));
    lemma_closed_was_ended(us, j + 1, w);
    let k = choose|k: int|
        0 <= k < j + 1 && #[trigger] batch_at(us, k) is Some && batch_ends(batch_at(us, k)->Some_0, w);
    assert(batch_at(us, k) is Some);
}

/// The progress of a version is ended only by or after a publication for that version.
pub proof fn lemma_progress_ended_after_publication(us: Seq<Update>, k: int, w: int)
    requires
        0 <= k < us.len(),
        batch_at(us, k) is Some,
        batch_ends(batch_at(us, k)->Some_0, w),
    ensures
        exists|i: int|
            0 <= i <= k && #[trigger] batch_at(us, i) is Some && batch_at(us, i)->Some_0.version == w,
{
    lemma_step(us, k);
    if w != batch_at(us, k)->Some_0.version {
        let i = lemma_max_was_published(us, k);
        assert(batch_at(us, i) is Some);
    }
}

/// A publication to the editor: a document's diagnostics for one version, and the
/// progress notices that go with it.
#[derive(Debug)]
pub struct Publication {
    pub uri: String,
    pub version: DocumentVersion,
    pub diagnostics: Vec<Diagnostic>,
    pub progress: Vec<ProgressParams>,
}

/// Whether `p` sends the batch `b` for the document `uri`.
pub open spec fn publishes(uri: Seq<char>, b: Batch, p: Publication) -> bool {
    &&& p.uri@ == uri
    &&& p.version.0 as int == b.version
    &&& p.diagnostics@ == flatten_reports(b.sources)
    &&& renders_all(uri, b.notices, p.progress@)
}

/// The diagnostics records of all documents, at most one per document.
pub struct DiagnosticsManager {
    diagnostics_storage: Vec<DocumentDiagnostics>,
}

impl DiagnosticsManager {
    pub closed spec fn docs(&self) -> Seq<DocumentDiagnostics> {
        self.diagnostics_storage@
    }

    /// The record of the document `uri`, if it has one.
    pub open spec fn doc_of(&self, uri: Seq<char>) -> Option<DocState> {
        if exists|i: int| 0 <= i < self.docs().len() && (#[trigger] self.docs()[i]).uri@ == uri {
            let i = choose|i: int| 0 <= i < self.docs().len() && (#[trigger] self.docs()[i]).uri@ == uri;
            Some(self.docs()[i]@)
        } else {
            None
        }
    }

    pub open spec fn wf(&self) -> bool {
        &&& forall|i: int| 0 <= i < self.docs().len() ==> (#[trigger] self.docs()[i]).wf()
        &&& forall|i: int, j: int|
            0 <= i < self.docs().len() && 0 <= j < self.docs().len() && i != j ==> (
            #[trigger] self.docs()[i]).uri@ != (#[trigger] self.docs()[j]).uri@
    }

    proof fn lemma_doc_of(&self, uri: Seq<char>, i: int)
        requires
            self.wf(),
            0 <= i < self.docs().len(),
            self.docs()[i].uri@ == uri,
        ensures
            self.doc_of(uri) == Some(self.docs()[i]@),
    {
        let j = choose|j: int| 0 <= j < self.docs().len() && (#[trigger] self.docs()[j]).uri@ == uri;
        assert(j == i);
    }

    /// A manager with no records.
    pub fn new() -> (r: Self)
        ensures
            r.wf(),
            forall|u: Seq<char>| r.doc_of(u) is None,
    {
        DiagnosticsManager { diagnostics_storage: Vec::new() }
    }

    /// Takes a linter's diagnostics for a version of a document, and returns what is
    /// to be published, if anything (see [`doc_update`]).
    pub fn update_diagnostics(
        &mut self,
        uri: String,
        linter_name: String,
        max_linter_count: usize,
        version: DocumentVersion,
        new_diagnostics: Vec<Diagnostic>,
    ) -> (r: Option<Publication>)
        requires
            old(self).wf(),
        ensures
            final(self).wf(),
            ({
                let u = Update {
                    expected: max_linter_count as nat,
                    report: LinterReport {
                        linter: linter_name@,
                        version: version.0 as int,
                        diagnostics: new_diagnostics@,
                    },
                };
                let (s, b) = doc_update(old(self).doc_of(uri@), u);
                &&& final(self).doc_of(uri@) == Some(s)
                &&& match r {
                    None => b is None,
                    Some(p) => b is Some && publishes(uri@, b->Some_0, p),
                }
            }),
            forall|other: Seq<char>| other != uri@ ==> final(self).doc_of(other) == old(self).doc_of(other),
    {
        let ghost old_docs = self.diagnostics_storage@;
        let mut i: usize = 0;
        while i < self.diagnostics_storage.len()
            invariant
                self.diagnostics_storage@ == old_docs,
                i <= old_docs.len(),
                forall|k: int| 0 <= k < i ==> (#[trigger] old_docs[k]).uri@ != uri@,
            ensures
                i <= old_docs.len(),
                i < old_docs.len() ==> old_docs[i as int].uri@ == uri@,
                forall|k: int| 0 <= k < i ==> (#[trigger] old_docs[k]).uri@ != uri@,
            decreases self.diagnostics_storage.len() - i,
        {
            if self.diagnostics_storage[i].uri == uri {
                break;
            }
            i = i + 1;
        }
        let ghost prior = old(self).doc_of(uri@);
        proof {
            if i < old_docs.len() {
                assert(old(self).docs() == old_docs);
                let j = choose|j: int| 0 <= j < old_docs.len() && (#[trigger] old_docs[j]).uri@ == uri@;
                assert(j == i);
                assert(prior == Some(old_docs[i as int]@));
            } else {
                assert(prior is None);
            }
        }
        if i == self.diagnostics_storage.len() {
            let d = DocumentDiagnostics::new(uri.clone(), max_linter_count, version);
            self.diagnostics_storage.push(d);
        }
        let ghost s0 = self.diagnostics_storage@[i as int]@;
        assert(s0 == match prior { Some(d) => d, None => new_state(max_linter_count as nat, version.0 as int) });
        let taken = self.diagnostics_storage[i].update_diagnostics_storage(
            linter_name.as_str(),
            version,
            new_diagnostics,
        );
        let r = if taken {
            let (uri2, v, diagnostics, progress) = self.diagnostics_storage[i].aggregate_most_recent_diagnostics(uri);
            Some(Publication { uri: uri2, version: v, diagnostics, progress })
        } else {
            None
        };
        proof {
            let docs = self.diagnostics_storage@;
            assert forall|k: int| 0 <= k < docs.len() && k != i implies docs[k] == old_docs[k] by {}
            assert(docs[i as int].uri@ == uri@);
            assert(self.wf());
            assert forall|other: Seq<char>| other != uri@ implies self.doc_of(other) == old(self).doc_of(other) by {
                if exists|k: int| 0 <= k < old_docs.len() && (#[trigger] old_docs[k]).uri@ == other {
                    let k = choose|k: int| 0 <= k < old_docs.len() && (#[trigger] old_docs[k]).uri@ == other;
                    assert(docs[k].uri@ == other);
                    old(self).lemma_doc_of(other, k);
                    self.lemma_doc_of(other, k);
                } else {
                    if exists|k: int| 0 <= k < docs.len() && (#[trigger] docs[k]).uri@ == other {
                        let k = choose|k: int| 0 <= k < docs.len() && (#[trigger] docs[k]).uri@ == other;
                        assert(old_docs[k].uri@ == other);
                    }
                }
            }
            self.lemma_doc_of(uri@, i as int);
        }
        r
    }
}

} // verus!
