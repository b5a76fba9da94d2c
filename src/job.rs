//! Linter jobs: the processes started for a document, and what they were started for.

use vstd::prelude::*;
use crate::document_version::DocumentVersion;

verus! {

/// The jobs of a document are keyed by its address.
#[derive(Clone, Debug)]
pub struct JobId(pub String);

/// What to lint: a document's address, version, language and text.
#[derive(Clone, Debug)]
pub struct JobSpec {
    pub uri: String,
    pub version: DocumentVersion,
    pub language_id: String,
    pub text: String,
}

/// A running linter: its process id, which is also its process group's id.
#[derive(Clone, Copy, Debug, PartialEq, Eq, Structural)]
pub struct Job {
    pub pid: i32,
}

impl JobId {
    /// The job key of a lint request: its document's address.
    pub fn from(js: &JobSpec) -> (r: JobId)
        ensures
            r.0 == js.uri,
    {
        JobId(js.uri.clone())
    }
}

} // verus!
