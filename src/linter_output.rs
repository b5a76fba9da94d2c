//! Reading a linter's output: each line that the linter's pattern matches becomes
//! a diagnostic, and only diagnostics for the linted document are kept.

use vstd::prelude::*;
use crate::config::PicklsLinterConfig;
use crate::diagnostic::{Diagnostic, PicklsDiagnostic, converts_to};
use crate::diagnostic_severity::PicklsDiagnosticSeverity;
use crate::pattern::{LinePattern, captures, captures_view, opt_view, regex_captures};
use crate::text::{chars_of, parse_u32, parse_u32_of, trim, trim_of};

verus! {

/// A diagnostic read from a linter's output, as a value.
pub struct DiagnosticRecord {
    pub linter: Seq<char>,
    pub filename: Seq<char>,
    pub line: u32,
    pub start_column: Option<u32>,
    pub end_column: Option<u32>,
    pub severity: Option<Seq<char>>,
    pub description: Option<Seq<char>>,
}

impl PicklsDiagnostic {
    pub open spec fn record(&self) -> DiagnosticRecord {
        DiagnosticRecord {
            linter: self.linter@,
            filename: self.filename@,
            line: self.line,
            start_column: self.start_column,
            end_column: self.end_column,
            severity: match self.severity {
                Some(s) => Some(s.severity@),
                None => None,
            },
            description: opt_view(self.description),
        }
    }
}

pub open spec fn records_of(v: Seq<PicklsDiagnostic>) -> Seq<DiagnosticRecord> {
    v.map_values(|d: PicklsDiagnostic| d.record())
}

/// Capture group `i`, if the pattern has it and it took part in the match.
pub open spec fn group(caps: Seq<Option<Seq<char>>>, i: int) -> Option<Seq<char>> {
    if 0 <= i < caps.len() {
        caps[i]
    } else {
        None
    }
}

/// The number in capture group `i`, if there is one.
pub open spec fn number_in(caps: Seq<Option<Seq<char>>>, i: Option<usize>) -> Option<u32> {
    match i {
        Some(i) => match group(caps, i as int) {
            Some(t) => parse_u32_of(t),
            None => None,
        },
        None => None,
    }
}

/// The description: none if not configured, the trimmed previous line for -1, a
/// capture group for a positive index; any other index makes the line unusable
/// (the outer `None`).
pub open spec fn description_in(
    index: Option<isize>,
    caps: Seq<Option<Seq<char>>>,
    prior: Option<Seq<char>>,
) -> Option<Option<Seq<char>>> {
    match index {
        None => Some(None),
        Some(i) => if i == -1 {
            Some(
                match prior {
                    Some(p) => Some(trim_of(p)),
                    None => None,
                },
            )
        } else if i > 0 {
            Some(group(caps, i as int))
        } else {
            None
        },
    }
}

/// The diagnostic that a matched line gives, if it gives one. The line number is
/// required; a missing file name means the linted document.
pub open spec fn record_from(
    cfg: PicklsLinterConfig,
    document: Seq<char>,
    caps: Seq<Option<Seq<char>>>,
    prior: Option<Seq<char>>,
) -> Option<DiagnosticRecord> {
    let description = description_in(cfg.description_match, caps, prior);
    let line = if cfg.line_match < caps.len() {
        match group(caps, cfg.line_match as int) {
            Some(t) => parse_u32_of(t),
            None => None,
        }
    } else {
        None
    };
    if description is None || line is None {
        None
    } else {
        Some(
            DiagnosticRecord {
                linter: cfg.program@,
                filename: match cfg.filename_match {
                    Some(i) => match group(caps, i as int) {
                        Some(f) => f,
                        None => document,
                    },
                    None => document,
                },
                line: line->Some_0,
                start_column: number_in(caps, cfg.start_col_match),
                end_column: number_in(caps, cfg.end_col_match),
                severity: match cfg.severity_match {
                    Some(i) => group(caps, i as int),
                    None => None,
                },
                description: description->Some_0,
            },
        )
    }
}

/// What the previous line of `lines[k]` is.
pub open spec fn prior_line(lines: Seq<Seq<char>>, k: int) -> Option<Seq<char>> {
    if k >= 1 {
        Some(lines[k - 1])
    } else {
        None
    }
}

/// What line `k` of a linter's output gives.
pub open spec fn record_at(
    cfg: PicklsLinterConfig,
    pattern: Seq<char>,
    document: Seq<char>,
    lines: Seq<Seq<char>>,
    k: int,
) -> Seq<DiagnosticRecord> {
    match regex_captures(pattern, lines[k]) {
        Some(caps) => match record_from(cfg, document, caps, prior_line(lines, k)) {
            Some(d) => seq![d],
            None => seq![],
        },
        None => seq![],
    }
}

/// The diagnostics that the first `n` lines of a linter's output give, in order.
pub open spec fn records_in(
    cfg: PicklsLinterConfig,
    pattern: Seq<char>,
    document: Seq<char>,
    lines: Seq<Seq<char>>,
    n: int,
) -> Seq<DiagnosticRecord>
    decreases n,
{
    if n <= 0 {
        seq![]
    } else {
        records_in(cfg, pattern, document, lines, n - 1) + record_at(
            cfg,
            pattern,
            document,
            lines,
            n - 1,
        )
    }
}

pub open spec fn lines_view(lines: Seq<String>) -> Seq<Seq<char>> {
    lines.map_values(|l: String| l@)
}

fn group_at(caps: &Vec<Option<String>>, i: usize) -> (r: Option<String>)
    ensures
        opt_view(r) == group(captures_view(caps@), i as int),
{
    if i < caps.len() {
        match &caps[i] {
            Some(s) => Some(s.clone()),
            None => None,
        }
    } else {
        None
    }
}

fn number_at(caps: &Vec<Option<String>>, i: Option<usize>) -> (r: Option<u32>)
    ensures
        r == number_in(captures_view(caps@), i),
{
    match i {
        Some(i) => match group_at(caps, i) {
            Some(t) => {
                let v = chars_of(t.as_str());
                assert(v@.subrange(0, v@.len() as int) == v@);
                parse_u32(&v, 0, v.len())
            },
            None => None,
        },
        None => None,
    }
}

/// The diagnostic that a matched output line gives, if it gives one (see [`record_from`]).
pub fn convert_capture_to_diagnostic(
    absolute_filename: &str,
    linter_config: &PicklsLinterConfig,
    caps: &Vec<Option<String>>,
    prior_line: &Option<String>,
) -> (r: Option<PicklsDiagnostic>)
    ensures
        match r {
            Some(d) => record_from(*linter_config, absolute_filename@, captures_view(caps@), opt_view(*prior_line)) == Some(d.record()),
            None => record_from(*linter_config, absolute_filename@, captures_view(caps@), opt_view(*prior_line)) is None,
        },
{
    let ghost cv = captures_view(caps@);
    let description: Option<String> = match linter_config.description_match {
        None => None,
        Some(i) => {
            if i == -1 {
                match prior_line {
                    Some(p) => Some(trim(p.as_str())),
                    None => None,
                }
            } else if i > 0 {
                group_at(caps, i as usize)
            } else {
                return None;
            }
        },
    };
    if linter_config.line_match >= caps.len() {
        return None;
    }
    let line = match number_at(caps, Some(linter_config.line_match)) {
        Some(n) => n,
        None => return None,
    };
    let filename = match linter_config.filename_match {
        Some(i) => match group_at(caps, i) {
            Some(f) => f,
            None => String::from_str(absolute_filename),
        },
        None => String::from_str(absolute_filename),
    };
    let start_column = number_at(caps, linter_config.start_col_match);
    let end_column = number_at(caps, linter_config.end_col_match);
    let severity = match linter_config.severity_match {
        Some(i) => match group_at(caps, i) {
            Some(s) => Some(PicklsDiagnosticSeverity { severity: s }),
            None => None,
        },
        None => None,
    };
    let d = PicklsDiagnostic {
        linter: linter_config.program.clone(),
        filename,
        line,
        start_column,
        end_column,
        severity,
        description,
    };
    assert(record_from(*linter_config, absolute_filename@, cv, opt_view(*prior_line)) == Some(d.record()));
    Some(d)
}

/// The diagnostics that a linter's output lines give, in order (see [`records_in`]).
/// A line matched with description index -1 takes the line before it, matched or
/// not, as its description.
pub fn parse_linter_output(
    linter_config: &PicklsLinterConfig,
    pattern: &LinePattern,
    absolute_filename: &str,
    lines: &Vec<String>,
) -> (r: Vec<PicklsDiagnostic>)
    ensures
        records_of(r@) == records_in(
            *linter_config,
            pattern.text(),
            absolute_filename@,
            lines_view(lines@),
            lines@.len() as int,
        ),
{
    let ghost lv = lines_view(lines@);
    let mut r: Vec<PicklsDiagnostic> = Vec::new();
    let mut prior: Option<String> = None;
    let mut k: usize = 0;
    while k < lines.len()
        invariant
            k <= lines.len(),
            lv == lines_view(lines@),
            opt_view(prior) == prior_line(lv, k as int),
            records_of(r@) == records_in(
                *linter_config,
                pattern.text(),
                absolute_filename@,
                lv,
                k as int,
            ),
        decreases lines.len() - k,
    {
        let line = &lines[k];
        let ghost before = r@;
        match captures(pattern, line.as_str()) {
            Some(caps) => {
                match convert_capture_to_diagnostic(absolute_filename, linter_config, &caps, &prior) {
                    Some(d) => {
                        r.push(d);
                        assert(records_of(r@) == records_of(before) + seq![d.record()]);
                    },
                    None => {},
                }
            },
            None => {},
        }
        assert(records_of(r@) == records_in(
            *linter_config,
            pattern.text(),
            absolute_filename@,
            lv,
            k + 1,
        ));
        prior = Some(line.clone());
        k = k + 1;
    }
    r
}

/// `p` taken relative to `base`, as `Path::join` takes it: a path that begins with
/// `/` stands alone; else it follows `base`, with a `/` between unless `base` is
/// empty or ends with one.
pub open spec fn join_path(base: Seq<char>, p: Seq<char>) -> Seq<char> {
    if p.len() > 0 && p[0] == '/' {
        p
    } else if base.len() == 0 || base.last() == '/' {
        base + p
    } else {
        base + seq!['/'] + p
    }
}

/// The path of a diagnostic's file: relative names are taken from the root directory.
pub fn resolve_against(root_dir: &str, filename: &str) -> (r: String)
    ensures
        r@ == join_path(root_dir@, filename@),
{
    let f = chars_of(filename);
    if f.len() > 0 && f[0] == '/' {
        return String::from_str(filename);
    }
    let b = chars_of(root_dir);
    let mut r = String::from_str(root_dir);
    if !(b.len() == 0 || b[b.len() - 1] == '/') {
        r.append("/");
        proof {
            reveal_strlit("/");
        }
    }
    r.append(filename);
    r
}

/// The path of each diagnostic's file, taken from the root directory when relative.
pub fn diagnostic_paths(root_dir: &str, diagnostics: &Vec<PicklsDiagnostic>) -> (r: Vec<String>)
    ensures
        r.len() == diagnostics.len(),
        forall|i: int|
            0 <= i < r.len() ==> (#[trigger] r@[i])@ == join_path(root_dir@, diagnostics@[i].filename@),
{
    let mut r: Vec<String> = Vec::new();
    let mut i: usize = 0;
    while i < diagnostics.len()
        invariant
            i <= diagnostics.len(),
            r.len() == i,
            forall|k: int|
                0 <= k < i ==> (#[trigger] r@[k])@ == join_path(root_dir@, diagnostics@[k].filename@),
        decreases diagnostics.len() - i,
    {
        r.push(resolve_against(root_dir, diagnostics[i].filename.as_str()));
        i = i + 1;
    }
    r
}

/// Positions, among the first `n`, of the paths equal to `document`, in order.
pub open spec fn kept_indices(paths: Seq<Seq<char>>, document: Seq<char>, n: int) -> Seq<int>
    decreases n,
{
    if n <= 0 {
        seq![]
    } else {
        kept_indices(paths, document, n - 1) + if paths[n - 1] == document {
            seq![n - 1]
        } else {
            seq![]
        }
    }
}

/// Turns the diagnostics whose file, on disk, is the linted document into the
/// editor's diagnostics, in order; `canonical_paths[i]` is where the file of
/// `diagnostics[i]` resolves to on disk.
pub fn select_document_diagnostics(
    diagnostics: &Vec<PicklsDiagnostic>,
    canonical_paths: &Vec<String>,
    document_path: &str,
) -> (r: Vec<Diagnostic>)
    requires
        diagnostics.len() == canonical_paths.len(),
    ensures
        ({
            let ks = kept_indices(lines_view(canonical_paths@), document_path@, diagnostics.len() as int);
            &&& r.len() == ks.len()
            &&& forall|k: int| 0 <= k < ks.len() ==> converts_to(diagnostics@[ks[k]], #[trigger] r@[k])
        }),
{
    let ghost pv = lines_view(canonical_paths@);
    let document = String::from_str(document_path);
    let mut r: Vec<Diagnostic> = Vec::new();
    let mut i: usize = 0;
    while i < diagnostics.len()
        invariant
            i <= diagnostics.len() == canonical_paths.len(),
            pv == lines_view(canonical_paths@),
            document@ == document_path@,
            r.len() == kept_indices(pv, document_path@, i as int).len(),
            forall|k: int|
                0 <= k < r.len() ==> converts_to(
                    diagnostics@[kept_indices(pv, document_path@, i as int)[k]],
                    #[trigger] r@[k],
                ),
        decreases diagnostics.len() - i,
    {
        let ghost before = kept_indices(pv, document_path@, i as int);
        if canonical_paths[i] == document {
            let d = Diagnostic::from(diagnostics[i].duplicate());
            r.push(d);
            assert(kept_indices(pv, document_path@, i + 1) == before.push(i as int));
        } else {
            assert(kept_indices(pv, document_path@, i + 1) == before);
        }
        i = i + 1;
    }
    r
}

/// The diagnostics kept are exactly those whose file is the document, in order.
pub proof fn lemma_kept_are_document(paths: Seq<Seq<char>>, document: Seq<char>, n: int)
    requires
        0 <= n <= paths.len(),
    ensures
        forall|k: int|
            0 <= k < kept_indices(paths, document, n).len() ==> {
                let i = #[trigger] kept_indices(paths, document, n)[k];
                0 <= i < n && paths[i] == document
            },
        forall|i: int|
            0 <= i < n && paths[i] == document ==> kept_indices(paths, document, n).contains(i),
    decreases n,
{
    if n > 0 {
        lemma_kept_are_document(paths, document, n - 1);
        let prev = kept_indices(paths, document, n - 1);
        let cur = kept_indices(paths, document, n);
        assert forall|i: int| 0 <= i < n && paths[i] == document implies cur.contains(i) by {
            if i < n - 1 {
                let k = choose|k: int| 0 <= k < prev.len() && prev[k] == i;
                assert(cur[k] == i);
            } else {
                assert(cur[cur.len() - 1] == i);
            }
        }
    }
}

/// A linter whose pattern matches none of its output lines gives no diagnostic.
pub proof fn lemma_no_match_no_diagnostic(
    cfg: PicklsLinterConfig,
    pattern: Seq<char>,
    document: Seq<char>,
    lines: Seq<Seq<char>>,
    n: int,
)
    requires
        0 <= n <= lines.len(),
        forall|k: int| 0 <= k < lines.len() ==> regex_captures(pattern, #[trigger] lines[k]) is None,
    ensures
        records_in(cfg, pattern, document, lines, n) == Seq::<DiagnosticRecord>::empty(),
    decreases n,
{
    if n > 0 {
        lemma_no_match_no_diagnostic(cfg, pattern, document, lines, n - 1);
        assert(regex_captures(pattern, lines[n - 1]) is None);
    }
}

/// With description index -1, a diagnostic read from the first output line has no
/// description, whatever the line holds.
pub proof fn lemma_first_line_has_no_prior(
    cfg: PicklsLinterConfig,
    document: Seq<char>,
    caps: Seq<Option<Seq<char>>>,
)
    requires
        cfg.description_match == Some(-1isize),
        record_from(cfg, document, caps, None) is Some,
    ensures
        record_from(cfg, document, caps, None)->Some_0.description is None,
{
}

} // verus!
