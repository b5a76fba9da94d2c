//! Work-done progress notices: their tokens and what they report.

use vstd::prelude::*;
use crate::document_version::DocumentVersion;
use crate::text::{decimal_of, push_decimal};

verus! {

/// The state that a progress notice reports.
#[derive(Clone, Debug)]
pub enum WorkDoneProgress {
    Report { message: String, percentage: Option<u32> },
    End,
}

/// A progress notice for the token of one (document, version) pair.
#[derive(Clone, Debug)]
pub struct ProgressParams {
    pub token: String,
    pub value: WorkDoneProgress,
}

/// The token shared by all progress notices of one document version: `"{uri}:{version}"`.
pub open spec fn token_of(uri: Seq<char>, version: int) -> Seq<char> {
    uri + ":"@ + decimal_of(version)
}

/// The share of `expected` jobs that `available` makes, in whole percent (rounded down);
/// none when no job is expected.
pub open spec fn percentage_of(available: nat, expected: nat) -> Option<u32> {
    if expected == 0 {
        None
    } else if available * 100 / expected > u32::MAX {
        Some(u32::MAX)
    } else {
        Some((available * 100 / expected) as u32)
    }
}

/// Whether a progress value says "ended" (all expected jobs are in) or reports the
/// share of jobs in, with the given message.
pub open spec fn progress_value_is(
    v: WorkDoneProgress,
    available: nat,
    expected: nat,
    message: Seq<char>,
) -> bool {
    if available == expected && expected != 0 {
        v is End
    } else {
        &&& v is Report
        &&& v->Report_message@ == message
        &&& v->Report_percentage == percentage_of(available, expected)
    }
}

/// The progress token of a document version.
pub fn progress_token(uri: &str, version: DocumentVersion) -> (r: String)
    ensures
        r@ == token_of(uri@, version.0 as int),
{
    let mut r = String::from_str(uri);
    r.append(":");
    push_decimal(&mut r, version.0 as i64);
    r
}

fn percentage(available: usize, expected: usize) -> (r: Option<u32>)
    ensures
        r == percentage_of(available as nat, expected as nat),
{
    if expected == 0 {
        None
    } else {
        let p: u128 = (available as u128) * 100 / (expected as u128);
        if p > 0xffff_ffff {
            Some(0xffff_ffffu32)
        } else {
            Some(p as u32)
        }
    }
}

/// The progress notice for a document version of which `available` of `expected`
/// jobs have reported: an end notice once all are in, else a report of the share.
pub fn make_progress_params(
    message: &str,
    uri: &str,
    version: DocumentVersion,
    available: usize,
    expected: usize,
) -> (r: ProgressParams)
    ensures
        r.token@ == token_of(uri@, version.0 as int),
        progress_value_is(r.value, available as nat, expected as nat, message@),
{
    let token = progress_token(uri, version);
    let value = if expected == available && expected != 0 {
        WorkDoneProgress::End
    } else {
        WorkDoneProgress::Report {
            message: String::from_str(message),
            percentage: percentage(available, expected),
        }
    };
    ProgressParams { token, value }
}

/// The notice that ends the progress of a document version.
pub fn end_progress_params(uri: &str, version: DocumentVersion) -> (r: ProgressParams)
    ensures
        r.token@ == token_of(uri@, version.0 as int),
        r.value is End,
{
    ProgressParams { token: progress_token(uri, version), value: WorkDoneProgress::End }
}

/// Counts finished steps of a long task and makes a progress notice for each.
pub struct ProgressNotifier {
    pub counter: usize,
    pub uri: String,
    pub version: DocumentVersion,
    pub total: usize,
}

impl ProgressNotifier {
    pub fn new(uri: String, version: DocumentVersion, total: usize) -> (r: Self)
        ensures
            r.counter == 0,
            r.uri == uri,
            r.version == version,
            r.total == total,
    {
        ProgressNotifier { counter: 0, uri, version, total }
    }

    /// Records one more finished step and returns the notice for it.
    pub fn notify(&mut self) -> (r: ProgressParams)
        requires
            old(self).counter < usize::MAX,
        ensures
            final(self).counter == old(self).counter + 1,
            final(self).uri == old(self).uri,
            final(self).version == old(self).version,
            final(self).total == old(self).total,
            r.token@ == token_of(old(self).uri@, old(self).version.0 as int),
            progress_value_is(
                r.value,
                final(self).counter as nat,
                old(self).total as nat,
                "running inline-assist"@,
            ),
    {
        self.counter = self.counter + 1;
        make_progress_params("running inline-assist", self.uri.as_str(), self.version, self.counter, self.total)
    }
}

} // verus!
