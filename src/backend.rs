//! The server's state and its handling of the editor's requests and notifications.
//! Each handler decides; what it needs done outside (processes to start or stop,
//! messages to write) it returns or queues.

use vstd::prelude::*;
use crate::client::{Client, MessageType};
use crate::config::{PicklsConfig, PicklsLanguageConfig, language_entry};
use crate::diagnostic::{Diagnostic, Range};
use crate::diagnostics_manager::{DiagnosticsManager, Publication, doc_update, publishes, Update};
use crate::document_diagnostics::LinterReport;
use crate::document_storage::{ChangeOutcome, DocumentStorage, DocumentStore};
use crate::document_version::DocumentVersion;
use crate::error::PicklsError;
use crate::job::{Job, JobSpec};
use crate::registry::Registry;
use crate::tool::FormatChain;
use crate::utils::{slice_of, slice_range};
use crate::workspace::{FolderUri, Workspace, folders_after, names_of, texts};

verus! {

/// The editor's name and version, as it gave them.
#[derive(Clone, Debug)]
pub struct ClientInfo {
    pub name: String,
    pub version: Option<String>,
}

/// What to do about a document's linters: stop the jobs listed, then, if the
/// document's language has settings (the index of its entry), run each of its
/// linters.
#[derive(Debug)]
pub struct LintPlan {
    pub stop: Vec<Job>,
    pub language: Option<usize>,
    pub max_linter_count: usize,
    pub job: JobSpec,
}

/// The server's state.
pub struct PicklsBackend {
    pub client: Client,
    pub client_info: Option<ClientInfo>,
    pub workspace: Workspace,
    pub jobs: Registry<Vec<Job>>,
    pub document_storage: DocumentStore,
    pub config: PicklsConfig,
    pub diagnostics_manager: DiagnosticsManager,
}

/// How the editor is named in logs: `name@version`, `name`, or `Client?`.
pub open spec fn client_name_of(info: Option<ClientInfo>) -> Seq<char> {
    match info {
        Some(ci) => match ci.version {
            Some(v) => ci.name@ + "@"@ + v@,
            None => ci.name@,
        },
        None => "Client?"@,
    }
}

/// The texts of `parts`, with `sep` between each two.
pub open spec fn join_with(parts: Seq<Seq<char>>, sep: Seq<char>) -> Seq<char>
    decreases parts.len(),
{
    if parts.len() == 0 {
        seq![]
    } else if parts.len() == 1 {
        parts[0]
    } else {
        join_with(parts.drop_last(), sep) + sep + parts.last()
    }
}

/// How the workspace is named in logs: the editor's name, then the names of the
/// folders in parentheses (`<unknown>` if there are none).
pub open spec fn workspace_name_of(client: Seq<char>, names: Seq<Seq<char>>) -> Seq<char> {
    let joined = join_with(names, ", "@);
    client + "("@ + (if joined.len() == 0 { "<unknown>"@ } else { joined }) + ")"@
}

/// What planning the linting of `job` does: if the document's language has
/// settings, the plan names them, counts their linters and stops (and forgets)
/// the document's jobs; else it does nothing.
pub open spec fn lint_planned(
    old_jobs: Registry<Vec<Job>>,
    new_jobs: Registry<Vec<Job>>,
    config: PicklsConfig,
    job: JobSpec,
    r: LintPlan,
) -> bool {
    &&& r.job == job
    &&& match language_entry(config.languages@, job.language_id@) {
        None => {
            &&& r.language is None
            &&& r.stop@.len() == 0
            &&& new_jobs == old_jobs
        },
        Some(i) => {
            &&& r.language == Some(i as usize)
            &&& r.max_linter_count == config.languages@[i].1.linters@.len()
            &&& r.stop@ == match old_jobs.get_spec(job.uri@) {
                Some(js) => js@,
                None => seq![],
            }
            &&& new_jobs.get_spec(job.uri@) is None
            &&& forall|u: Seq<char>| u != job.uri@ ==> new_jobs.get_spec(u) == old_jobs.get_spec(u)
        },
    }
}

impl PicklsBackend {
    pub open spec fn wf(&self) -> bool {
        &&& self.jobs.wf()
        &&& self.document_storage.wf()
        &&& self.diagnostics_manager.wf()
        &&& self.workspace.wf()
    }

    /// A server with the given configuration, no documents and no jobs.
    pub fn new(config: PicklsConfig) -> (r: Self)
        ensures
            r.wf(),
            r.config == config,
            r.client_info is None,
            r.client.queued().len() == 0,
            r.workspace.folder_paths().len() == 0,
            r.workspace.other_folders().len() == 0,
            forall|u: Seq<char>| r.document_storage.get_spec(u) is None,
            forall|u: Seq<char>| r.jobs.get_spec(u) is None,
            forall|u: Seq<char>| r.diagnostics_manager.doc_of(u) is None,
    {
        PicklsBackend {
            client: Client::new(),
            client_info: None,
            workspace: Workspace::new(),
            jobs: Registry::new(),
            document_storage: DocumentStore::new(),
            config,
            diagnostics_manager: DiagnosticsManager::new(),
        }
    }

    /// The settings of a language, if it has any.
    pub fn fetch_language_config(&self, language_id: &str) -> (r: Option<&PicklsLanguageConfig>)
        ensures
            match language_entry(self.config.languages@, language_id@) {
                Some(i) => r == Some(&self.config.languages@[i].1),
                None => r is None,
            },
    {
        match self.config.find_language(language_id) {
            Some(i) => Some(&self.config.languages[i].1),
            None => None,
        }
    }

    /// How the editor is named in logs (see [`client_name_of`]).
    pub fn get_client_name(&self) -> (r: String)
        ensures
            r@ == client_name_of(self.client_info),
    {
        match &self.client_info {
            Some(ci) => match &ci.version {
                Some(v) => ci.name.clone().concat("@").concat(v.as_str()),
                None => ci.name.clone(),
            },
            None => String::from_str("Client?"),
        }
    }

    /// How the workspace is named in logs (see [`workspace_name_of`]).
    pub fn get_workspace_name(&self) -> (r: String)
        ensures
            r@ == workspace_name_of(
                client_name_of(self.client_info),
                names_of(self.workspace.folder_paths(), self.workspace.folder_paths().len() as int),
            ),
    {
        let names = self.workspace.folder_names();
        let ghost nv = texts(names@);
        let mut joined = String::new();
        let mut i: usize = 0;
        while i < names.len()
            invariant
                i <= names.len(),
                nv == texts(names@),
                joined@ == join_with(nv.take(i as int), ", "@),
            decreases names.len() - i,
        {
            if i > 0 {
                joined.append(", ");
            }
            joined.append(names[i].as_str());
            proof {
                let t = nv.take(i + 1);
                assert(t.drop_last() == nv.take(i as int));
                if i == 0 {
                    assert(nv.take(0).len() == 0);
                }
            }
            i = i + 1;
        }
        assert(nv.take(names.len() as int) == nv);
        let shown = if joined.as_str().unicode_len() == 0 { String::from_str("<unknown>") } else { joined };
        self.get_client_name().concat("(").concat(shown.as_str()).concat(")")
    }

    /// The record of an open document, or an error if it is not open.
    pub fn get_document(&self, uri: &String) -> (r: Result<DocumentStorage, PicklsError>)
        requires
            self.wf(),
        ensures
            match self.document_storage.get_spec(uri@) {
                Some(d) => r == Ok::<DocumentStorage, PicklsError>(d),
                None => r is Err,
            },
    {
        match self.document_storage.get(uri) {
            Some(d) => Ok(d),
            None => Err(PicklsError::with_context("No document found for url", uri.as_str())),
        }
    }

    /// Plans the linting of a document: if its language has settings, the jobs
    /// running for it are to be stopped (and forgotten) and its linters run.
    pub fn run_diagnostics(&mut self, job_spec: JobSpec) -> (r: LintPlan)
        requires
            old(self).wf(),
        ensures
            final(self).wf(),
            r.job == job_spec,
            final(self).document_storage == old(self).document_storage,
            final(self).config == old(self).config,
            final(self).client == old(self).client,
            final(self).diagnostics_manager == old(self).diagnostics_manager,
            lint_planned(old(self).jobs, final(self).jobs, old(self).config, job_spec, r),
    {
        match self.config.find_language(job_spec.language_id.as_str()) {
            None => LintPlan { stop: Vec::new(), language: None, max_linter_count: 0, job: job_spec },
            Some(i) => {
                let stop = match self.jobs.take(&job_spec.uri) {
                    Some(js) => js,
                    None => Vec::new(),
                };
                let max_linter_count = self.config.languages[i].1.linters.len();
                LintPlan { stop, language: Some(i), max_linter_count, job: job_spec }
            },
        }
    }

    /// Remembers the jobs started for a document.
    pub fn jobs_started(&mut self, uri: String, jobs: Vec<Job>)
        requires
            old(self).wf(),
        ensures
            final(self).wf(),
            final(self).jobs.get_spec(uri@) == Some(jobs),
            forall|u: Seq<char>| u != uri@ ==> final(self).jobs.get_spec(u) == old(self).jobs.get_spec(u),
            final(self).document_storage == old(self).document_storage,
            final(self).client == old(self).client,
    {
        self.jobs.put(uri, jobs);
    }

    /// A document was opened: it is stored and linted. A document that is already
    /// open is left as it is, and nothing is linted.
    pub fn did_open(&mut self, uri: String, language_id: String, text: String, version: DocumentVersion) -> (r: Option<LintPlan>)
        requires
            old(self).wf(),
        ensures
            final(self).wf(),
            match old(self).document_storage.get_spec(uri@) {
                Some(_) => {
                    &&& r is None
                    &&& final(self).document_storage.get_spec(uri@) == old(self).document_storage.get_spec(uri@)
                    &&& final(self).jobs == old(self).jobs
                },
                None => {
                    &&& final(self).document_storage.get_spec(uri@) == Some(
                        DocumentStorage { language_id, file_contents: text, version },
                    )
                    &&& r is Some
                    &&& lint_planned(
                        old(self).jobs,
                        final(self).jobs,
                        old(self).config,
                        JobSpec { uri, version, language_id, text },
                        r->Some_0,
                    )
                },
            },
            forall|u: Seq<char>| u != uri@ ==> final(self).document_storage.get_spec(u) == old(self).document_storage.get_spec(u),
    {
        let record = DocumentStorage {
            language_id: language_id.clone(),
            file_contents: text.clone(),
            version,
        };
        if !self.document_storage.open(uri.clone(), record) {
            self.client.log_message(
                MessageType::Warning,
                String::from_str("document is already open: ").concat(uri.as_str()),
            );
            return None;
        }
        Some(self.run_diagnostics(JobSpec { uri, version, language_id, text }))
    }

    /// A document changed: its text and version are replaced and it is linted again,
    /// also when the version is the same as before. A change of a document that is
    /// not open, or for an older version, is dropped.
    pub fn did_change(&mut self, uri: String, version: DocumentVersion, text: String) -> (r: Option<LintPlan>)
        requires
            old(self).wf(),
        ensures
            final(self).wf(),
            match old(self).document_storage.get_spec(uri@) {
                None => r is None && final(self).document_storage.get_spec(uri@) is None
                    && final(self).jobs == old(self).jobs,
                Some(d) => if version.0 < d.version.0 {
                    r is None && final(self).document_storage.get_spec(uri@) == Some(d)
                        && final(self).jobs == old(self).jobs
                } else {
                    &&& final(self).document_storage.get_spec(uri@) == Some(
                        DocumentStorage { file_contents: text, version, ..d },
                    )
                    &&& r is Some
                    &&& lint_planned(
                        old(self).jobs,
                        final(self).jobs,
                        old(self).config,
                        JobSpec { uri, version, language_id: d.language_id, text },
                        r->Some_0,
                    )
                },
            },
            forall|u: Seq<char>| u != uri@ ==> final(self).document_storage.get_spec(u) == old(self).document_storage.get_spec(u),
    {
        let ghost old_d = old(self).document_storage.get_spec(uri@);
        match self.document_storage.change(&uri, version, text.clone()) {
            ChangeOutcome::NotOpen => {
                self.client.log_message(
                    MessageType::Warning,
                    String::from_str("no document found for uri ").concat(uri.as_str()),
                );
                None
            },
            ChangeOutcome::Stale => {
                self.client.log_message(
                    MessageType::Warning,
                    String::from_str("ignoring a change for an older version of ").concat(uri.as_str()),
                );
                None
            },
            ChangeOutcome::Applied => {
                let d = self.document_storage.get(&uri);
                match d {
                    Some(d) => {
                        let language_id = d.language_id;
                        Some(self.run_diagnostics(JobSpec { uri, version, language_id, text }))
                    },
                    None => None,
                }
            },
        }
    }

    /// A document was closed: it is forgotten.
    pub fn did_close(&mut self, uri: &String)
        requires
            old(self).wf(),
        ensures
            final(self).wf(),
            final(self).document_storage.get_spec(uri@) is None,
            forall|u: Seq<char>| u != uri@ ==> final(self).document_storage.get_spec(u) == old(self).document_storage.get_spec(u),
    {
        self.document_storage.close(uri);
    }

    /// A linter finished on a document: its diagnostics go to the document's
    /// record, and what that publishes is queued for the editor. Diagnostics for a
    /// document that is no longer open are dropped.
    pub fn submit_diagnostics(
        &mut self,
        uri: String,
        linter_name: String,
        max_linter_count: usize,
        version: DocumentVersion,
        diagnostics: Vec<Diagnostic>,
    ) -> (r: Option<Publication>)
        requires
            old(self).wf(),
        ensures
            final(self).wf(),
            final(self).document_storage == old(self).document_storage,
            old(self).document_storage.get_spec(uri@) is None ==> r is None && final(self).diagnostics_manager == old(self).diagnostics_manager,
            old(self).document_storage.get_spec(uri@) is Some ==> ({
                let u = Update {
                    expected: max_linter_count as nat,
                    report: LinterReport {
                        linter: linter_name@,
                        version: version.0 as int,
                        diagnostics: diagnostics@,
                    },
                };
                let (s, b) = doc_update(old(self).diagnostics_manager.doc_of(uri@), u);
                &&& final(self).diagnostics_manager.doc_of(uri@) == Some(s)
                &&& match r {
                    None => b is None,
                    Some(p) => b is Some && publishes(uri@, b->Some_0, p),
                }
            }),
    {
        if self.document_storage.get(&uri).is_none() {
            return None;
        }
        self.diagnostics_manager.update_diagnostics(uri, linter_name, max_linter_count, version, diagnostics)
    }

    /// Records the editor's name and workspace folders; says whether symbol search
    /// is offered.
    pub fn initialize(&mut self, client_info: Option<ClientInfo>, folders: Vec<FolderUri>) -> (r: bool)
        requires
            old(self).wf(),
        ensures
            final(self).wf(),
            final(self).client_info == client_info,
            r == old(self).config.symbols is Some,
            final(self).config == old(self).config,
            (final(self).workspace.folder_paths(), final(self).workspace.other_folders())
                == folders_after(
                old(self).workspace.folder_paths(),
                old(self).workspace.other_folders(),
                folders@,
            ),
            final(self).document_storage == old(self).document_storage,
            final(self).jobs == old(self).jobs,
            final(self).diagnostics_manager == old(self).diagnostics_manager,
    {
        self.client_info = client_info;
        let mut i: usize = 0;
        assert(folders@.take(0).len() == 0);
        while i < folders.len()
            invariant
                self.wf(),
                self.client_info == client_info,
                self.config == old(self).config,
                i <= folders.len(),
                (self.workspace.folder_paths(), self.workspace.other_folders()) == folders_after(
                    old(self).workspace.folder_paths(),
                    old(self).workspace.other_folders(),
                    folders@.take(i as int),
                ),
                self.document_storage == old(self).document_storage,
                self.jobs == old(self).jobs,
                self.diagnostics_manager == old(self).diagnostics_manager,
            decreases folders.len() - i,
        {
            let f = FolderUri {
                scheme: match &folders[i].scheme {
                    Some(s) => Some(s.clone()),
                    None => None,
                },
                path: folders[i].path.clone(),
                text: folders[i].text.clone(),
            };
            assert(f == folders@[i as int]);
            self.workspace.add_folder(f);
            assert(folders@.take(i + 1).drop_last() == folders@.take(i as int));
            i = i + 1;
        }
        assert(folders@.take(folders.len() as int) == folders@);
        self.config.symbols.is_some()
    }

    /// Takes a configuration read from the editor's settings, or the reason it
    /// could not be read, and says which in the log.
    pub fn update_configuration(&mut self, settings: Result<PicklsConfig, String>)
        ensures
            match settings {
                Ok(c) => final(self).config == c,
                Err(_) => final(self).config == old(self).config,
            },
    {
        match settings {
            Ok(c) => {
                self.config = c;
                self.client.log_message(MessageType::Info, String::from_str("configuration changed"));
            },
            Err(e) => {
                self.client.log_message(
                    MessageType::Warning,
                    String::from_str("invalid pickls configuration: ").concat(e.as_str()),
                );
            },
        }
    }

    /// Starts formatting an open document: the index of its language's settings and
    /// a chain of its formatters over its text; none if its language has no
    /// settings, an error if the document is not open.
    pub fn formatting(&self, uri: &String) -> (r: Result<Option<(usize, FormatChain)>, PicklsError>)
        requires
            self.wf(),
        ensures
            match self.document_storage.get_spec(uri@) {
                None => r is Err,
                Some(d) => match language_entry(self.config.languages@, d.language_id@) {
                    None => r == Ok::<Option<(usize, FormatChain)>, PicklsError>(None),
                    Some(i) => r is Ok && r->Ok_0 is Some && {
                        let (j, chain) = r->Ok_0->Some_0;
                        &&& j == i
                        &&& chain.wf()
                        &&& chain.count() == self.config.languages@[i].1.formatters@.len()
                        &&& chain.done() == 0
                        &&& !chain.failed()
                        &&& chain.text() == d.file_contents
                    },
                },
            },
    {
        let d = self.get_document(uri)?;
        match self.config.find_language(d.language_id.as_str()) {
            None => Ok(None),
            Some(i) => {
                let n = self.config.languages[i].1.formatters.len();
                Ok(Some((i, FormatChain::new(n, d.file_contents))))
            },
        }
    }

    /// The part of an open document that an inline-assist request selects, with the
    /// document's language and version; none if the selection is empty.
    pub fn inline_assist_selection(&self, uri: &String, range: Range) -> (r: Result<Option<(String, String, DocumentVersion)>, PicklsError>)
        requires
            self.wf(),
        ensures
            match self.document_storage.get_spec(uri@) {
                None => r is Err,
                Some(d) => r is Ok && {
                    let sel = slice_of(d.file_contents@, range);
                    match r->Ok_0 {
                        None => sel.len() == 0,
                        Some((lang, text, version)) => sel.len() > 0 && text@ == sel && lang == d.language_id && version == d.version,
                    }
                },
            },
    {
        let d = self.get_document(uri)?;
        let text = slice_range(d.file_contents.as_str(), range);
        if text.as_str().unicode_len() == 0 {
            return Ok(None);
        }
        Ok(Some((d.language_id, text, d.version)))
    }

    /// The limit and time limit, in milliseconds, of a workspace-symbol search, if
    /// symbol search is configured.
    pub fn symbol_search_settings(&self) -> (r: Option<(usize, u64)>)
        ensures
            match self.config.symbols {
                None => r is None,
                Some(s) => r == Some((s.max_symbols, s.ctags_timeout_ms)),
            },
    {
        match &self.config.symbols {
            None => None,
            Some(s) => Some((s.max_symbols, s.ctags_timeout_ms)),
        }
    }
}

} // verus!
