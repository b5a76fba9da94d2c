//! Diagnostics: what a linter's output line says, and what the editor is sent.

use vstd::prelude::*;
use crate::diagnostic_severity::{DiagnosticSeverity, PicklsDiagnosticSeverity, severity_of, normalise_severity};

verus! {

/// A place in a document: a 0-based line and a 0-based UTF-16 column.
#[derive(Clone, Copy, Debug, PartialEq, Eq, Structural)]
pub struct Position {
    pub line: u32,
    pub character: u32,
}

/// A half-open span of a document.
#[derive(Clone, Copy, Debug, PartialEq, Eq, Structural)]
pub struct Range {
    pub start: Position,
    pub end: Position,
}

/// A diagnostic as the editor is sent it.
#[derive(Clone, Debug)]
pub struct Diagnostic {
    pub range: Range,
    pub severity: Option<DiagnosticSeverity>,
    pub source: String,
    pub message: String,
}

/// A diagnostic as read from one line of a linter's output; line and columns are 1-based.
#[derive(Clone, Debug)]
pub struct PicklsDiagnostic {
    pub linter: String,
    pub filename: String,
    pub line: u32,
    pub start_column: Option<u32>,
    pub end_column: Option<u32>,
    pub severity: Option<PicklsDiagnosticSeverity>,
    pub description: Option<String>,
}

/// `n - 1`, or 0 for 0.
pub open spec fn one_less(n: u32) -> u32 {
    if n >= 1 {
        (n - 1) as u32
    } else {
        0
    }
}

/// The range of a diagnostic read at a 1-based line and columns. The start column
/// defaults to 1, the end column to one past the start column.
pub open spec fn range_of(line: u32, start_column: Option<u32>, end_column: Option<u32>) -> Range {
    let l = one_less(line);
    let s = match start_column {
        Some(c) => one_less(c),
        None => 0,
    };
    let e = match end_column {
        Some(c) => c,
        None => (s + 1) as u32,
    };
    Range { start: Position { line: l, character: s }, end: Position { line: l, character: e } }
}

/// The text shown as a diagnostic's source for a linter.
pub open spec fn source_of(linter: Seq<char>) -> Seq<char> {
    "[pickls/"@ + linter + "]"@
}

/// The message of a diagnostic; a diagnostic without a description reads "error".
pub open spec fn message_of(description: Option<String>) -> Seq<char> {
    match description {
        Some(d) => d@,
        None => "error"@,
    }
}

/// The editor's diagnostic for a diagnostic read from a linter's output.
pub open spec fn converts_to(d: PicklsDiagnostic, r: Diagnostic) -> bool {
    &&& r.range == range_of(d.line, d.start_column, d.end_column)
    &&& r.severity == match d.severity {
        Some(s) => Some(severity_of(s.severity@)),
        None => None,
    }
    &&& r.source@ == source_of(d.linter@)
    &&& r.message@ == message_of(d.description)
}

impl Diagnostic {
    /// The editor's diagnostic for a diagnostic read from a linter's output.
    pub fn from(diag: PicklsDiagnostic) -> (r: Diagnostic)
        ensures
            converts_to(diag, r),
    {
        let line = if diag.line >= 1 { diag.line - 1 } else { 0 };
        let start_column = match diag.start_column {
            Some(c) => if c >= 1 { c - 1 } else { 0 },
            None => 0,
        };
        let end_column = match diag.end_column {
            Some(c) => c,
            None => start_column + 1,
        };
        let range = Range {
            start: Position { line, character: start_column },
            end: Position { line, character: end_column },
        };
        let severity = match &diag.severity {
            Some(s) => Some(normalise_severity(s.severity.as_str())),
            None => None,
        };
        let source = String::from_str("[pickls/").concat(diag.linter.as_str()).concat("]");
        let message = match diag.description {
            Some(d) => d,
            None => String::from_str("error"),
        };
        Diagnostic { range, severity, source, message }
    }

    /// A copy of this diagnostic.
    pub fn duplicate(&self) -> (r: Diagnostic)
        ensures
            r == *self,
    {
        Diagnostic {
            range: self.range,
            severity: self.severity,
            source: self.source.clone(),
            message: self.message.clone(),
        }
    }
}

impl PicklsDiagnostic {
    /// A copy of this diagnostic.
    pub fn duplicate(&self) -> (r: PicklsDiagnostic)
        ensures
            r == *self,
    {
        PicklsDiagnostic {
            linter: self.linter.clone(),
            filename: self.filename.clone(),
            line: self.line,
            start_column: self.start_column,
            end_column: self.end_column,
            severity: match &self.severity {
                Some(s) => Some(PicklsDiagnosticSeverity { severity: s.severity.clone() }),
                None => None,
            },
            description: match &self.description {
                Some(d) => Some(d.clone()),
                None => None,
            },
        }
    }
}

/// A copy of a list of diagnostics.
pub fn duplicate_all(v: &Vec<Diagnostic>) -> (r: Vec<Diagnostic>)
    ensures
        r@ == v@,
{
    let mut r: Vec<Diagnostic> = Vec::new();
    let mut i: usize = 0;
    while i < v.len()
        invariant
            i <= v.len(),
            r@ == v@.take(i as int),
        decreases v.len() - i,
    {
        r.push(v[i].duplicate());
        i = i + 1;
        assert(r@ == v@.take(i as int));
    }
    assert(v@.take(v.len() as int) == v@);
    r
}

/// A diagnostic read at line `line` with no columns covers the first column of
/// line `line - 1` (0-based); one read at line 1, column 1 covers `(0,0)..(0,1)`.
pub proof fn lemma_default_columns(line: u32)
    requires
        line >= 1,
    ensures
        range_of(line, None, None) == (Range {
            start: Position { line: (line - 1) as u32, character: 0 },
            end: Position { line: (line - 1) as u32, character: 1 },
        }),
        range_of(1, Some(1), None) == (Range {
            start: Position { line: 0, character: 0 },
            end: Position { line: 0, character: 1 },
        }),
{
}

} // verus!
