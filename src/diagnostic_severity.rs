//! Severity names as linters print them, and their canonical form.

use vstd::prelude::*;

verus! {

/// How serious a diagnostic is, as the editor shows it.
#[derive(Clone, Copy, Debug, PartialEq, Eq, Structural)]
pub enum DiagnosticSeverity {
    Error,
    Warning,
    Information,
    Hint,
}

/// A severity word captured from a linter's output.
#[derive(Clone, Debug)]
pub struct PicklsDiagnosticSeverity {
    pub severity: String,
}

/// What `str::to_lowercase` makes of `s`.
pub uninterp spec fn lower_of(s: Seq<char>) -> Seq<char>;

pub open spec fn is_ascii_lower_word(s: Seq<char>) -> bool {
    forall|i: int| 0 <= i < s.len() ==> 'a' <= #[trigger] s[i] && s[i] <= 'z'
}

/// Relies on `str::to_lowercase`: the result depends on the characters alone.
#[verifier::external_body]
fn lowercase(s: &str) -> (r: String)
    ensures
        r@ == lower_of(s@),
{
    s.to_lowercase()
}

/// The severity that a lower-cased severity word stands for; unknown words are errors.
pub open spec fn severity_of_lowered(s: Seq<char>) -> DiagnosticSeverity {
    if s == "error"@ {
        DiagnosticSeverity::Error
    } else if s == "warn"@ || s == "warning"@ {
        DiagnosticSeverity::Warning
    } else if s == "hint"@ {
        DiagnosticSeverity::Hint
    } else if s == "note"@ || s == "info"@ || s == "information"@ {
        DiagnosticSeverity::Information
    } else {
        DiagnosticSeverity::Error
    }
}

/// The severity that a severity word stands for, compared without regard to case.
/// A word that is already in ASCII lower case is taken as it is.
pub open spec fn severity_of(s: Seq<char>) -> DiagnosticSeverity {
    if is_ascii_lower_word(s) {
        severity_of_lowered(s)
    } else {
        severity_of_lowered(lower_of(s))
    }
}

/// The canonical name of a severity.
pub open spec fn name_of(sev: DiagnosticSeverity) -> Seq<char> {
    match sev {
        DiagnosticSeverity::Error => "error"@,
        DiagnosticSeverity::Warning => "warning"@,
        DiagnosticSeverity::Information => "information"@,
        DiagnosticSeverity::Hint => "hint"@,
    }
}

fn is_ascii_lower(s: &Vec<char>) -> (r: bool)
    ensures
        r == is_ascii_lower_word(s@),
{
    let mut i: usize = 0;
    while i < s.len()
        invariant
            i <= s.len(),
            forall|k: int| 0 <= k < i ==> 'a' <= #[trigger] s@[k] && s@[k] <= 'z',
        decreases s.len() - i,
    {
        if !('a' <= s[i] && s[i] <= 'z') {
            return false;
        }
        i = i + 1;
    }
    true
}

fn is_word(s: &String, word: &str) -> (r: bool)
    ensures
        r == (s@ == word@),
{
    *s == String::from_str(word)
}

/// Maps a severity word to a severity, without regard to case.
pub fn normalise_severity(s: &str) -> (r: DiagnosticSeverity)
    ensures
        r == severity_of(s@),
{
    let l = if is_ascii_lower(&crate::text::chars_of(s)) {
        String::from_str(s)
    } else {
        lowercase(s)
    };
    if is_word(&l, "error") {
        DiagnosticSeverity::Error
    } else if is_word(&l, "warn") || is_word(&l, "warning") {
        DiagnosticSeverity::Warning
    } else if is_word(&l, "hint") {
        DiagnosticSeverity::Hint
    } else if is_word(&l, "note") || is_word(&l, "info") || is_word(&l, "information") {
        DiagnosticSeverity::Information
    } else {
        DiagnosticSeverity::Error
    }
}

impl DiagnosticSeverity {
    /// The canonical name of this severity.
    pub fn name(&self) -> (r: String)
        ensures
            r@ == name_of(*self),
    {
        proof {
            reveal_strlit("error");
            reveal_strlit("warning");
            reveal_strlit("information");
            reveal_strlit("hint");
        }
        match self {
            DiagnosticSeverity::Error => String::from_str("error"),
            DiagnosticSeverity::Warning => String::from_str("warning"),
            DiagnosticSeverity::Information => String::from_str("information"),
            DiagnosticSeverity::Hint => String::from_str("hint"),
        }
    }
}

impl From<PicklsDiagnosticSeverity> for DiagnosticSeverity {
    fn from(diag_sev: PicklsDiagnosticSeverity) -> (r: DiagnosticSeverity) {
        normalise_severity(diag_sev.severity.as_str())
    }
}

impl vstd::std_specs::convert::FromSpecImpl<PicklsDiagnosticSeverity> for DiagnosticSeverity {
    open spec fn obeys_from_spec() -> bool {
        true
    }

    open spec fn from_spec(v: PicklsDiagnosticSeverity) -> DiagnosticSeverity {
        severity_of(v.severity@)
    }
}

/// Normalising a severity word and then normalising the canonical name of the
/// result gives the same severity: normalisation is idempotent.
pub proof fn lemma_normalise_idempotent(s: Seq<char>)
    ensures
        severity_of(name_of(severity_of(s))) == severity_of(s),
{
    reveal_strlit("error");
    reveal_strlit("warn");
    reveal_strlit("warning");
    reveal_strlit("hint");
    reveal_strlit("note");
    reveal_strlit("info");
    reveal_strlit("information");
    let n = name_of(severity_of(s));
    assert(is_ascii_lower_word(n));
    assert("error"@.len() == 5 && "warn"@.len() == 4 && "warning"@.len() == 7);
    assert("hint"@.len() == 4 && "note"@.len() == 4 && "info"@.len() == 4);
    assert("information"@.len() == 11);
    assert("hint"@[0] != "warn"@[0]);
    assert("hint"@[0] != "note"@[0]);
    assert("hint"@[1] != "info"@[1]);
    assert("warning"@ != "error"@);
    assert("information"@ != "error"@ && "information"@ != "warning"@ && "information"@
        != "hint"@);
}

} // verus!
