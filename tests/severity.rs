use pickls::diagnostic::{Diagnostic, PicklsDiagnostic, Position, Range};
use pickls::diagnostic_severity::{normalise_severity, DiagnosticSeverity, PicklsDiagnosticSeverity};
use pickls::document_version::DocumentVersion;
use pickls::text::trim;

#[test]
fn severity_words_map_case_insensitively() {
    assert_eq!(normalise_severity("WARNING"), DiagnosticSeverity::Warning);
    assert_eq!(normalise_severity("warn"), DiagnosticSeverity::Warning);
    assert_eq!(normalise_severity("info"), DiagnosticSeverity::Information);
    assert_eq!(normalise_severity("bogus"), DiagnosticSeverity::Error);
    assert_eq!(normalise_severity("Error"), DiagnosticSeverity::Error);
    assert_eq!(normalise_severity("HINT"), DiagnosticSeverity::Hint);
    assert_eq!(normalise_severity("Note"), DiagnosticSeverity::Information);
    assert_eq!(normalise_severity("INFORMATION"), DiagnosticSeverity::Information);
}

#[test]
fn severity_from_captured_word() {
    let s = PicklsDiagnosticSeverity { severity: "Warning".to_string() };
    assert_eq!(DiagnosticSeverity::from(s), DiagnosticSeverity::Warning);
}

#[test]
fn severity_normalisation_is_idempotent() {
    for word in ["WARNING", "warn", "info", "bogus", "note", "Hint", "error", ""] {
        let once = normalise_severity(word);
        let twice = normalise_severity(&once.name());
        assert_eq!(once, twice);
    }
}

fn pickls_diag(line: u32, start: Option<u32>, end: Option<u32>) -> PicklsDiagnostic {
    PicklsDiagnostic {
        linter: "ruff".to_string(),
        filename: "/x.py".to_string(),
        line,
        start_column: start,
        end_column: end,
        severity: None,
        description: None,
    }
}

#[test]
fn line_one_column_one_covers_first_column() {
    let d = Diagnostic::from(pickls_diag(1, Some(1), None));
    assert_eq!(
        d.range,
        Range { start: Position { line: 0, character: 0 }, end: Position { line: 0, character: 1 } }
    );
}

#[test]
fn line_without_columns_covers_first_column() {
    let d = Diagnostic::from(pickls_diag(42, None, None));
    assert_eq!(
        d.range,
        Range { start: Position { line: 41, character: 0 }, end: Position { line: 41, character: 1 } }
    );
}

#[test]
fn explicit_columns_and_messages() {
    let mut p = pickls_diag(3, Some(5), Some(9));
    p.severity = Some(PicklsDiagnosticSeverity { severity: "warning".to_string() });
    p.description = Some("unused import".to_string());
    let d = Diagnostic::from(p);
    assert_eq!(
        d.range,
        Range { start: Position { line: 2, character: 4 }, end: Position { line: 2, character: 9 } }
    );
    assert_eq!(d.severity, Some(DiagnosticSeverity::Warning));
    assert_eq!(d.source, "[pickls/ruff]");
    assert_eq!(d.message, "unused import");
    let plain = Diagnostic::from(pickls_diag(0, Some(0), None));
    assert_eq!(plain.message, "error");
    assert_eq!(plain.severity, None);
    assert_eq!(
        plain.range,
        Range { start: Position { line: 0, character: 0 }, end: Position { line: 0, character: 1 } }
    );
}

#[test]
fn version_text_is_decimal() {
    assert_eq!(DocumentVersion(42).to_text(), "42");
    assert_eq!(DocumentVersion(-7).to_text(), "-7");
    assert_eq!(DocumentVersion(0).to_text(), "0");
    assert_eq!(DocumentVersion(i32::MIN).to_text(), i32::MIN.to_string());
    assert_eq!(DocumentVersion::from(5), DocumentVersion(5));
}

#[test]
fn trim_removes_unicode_white_space() {
    assert_eq!(trim("   E501 line too long  "), "E501 line too long");
    assert_eq!(trim("\u{3000}x\t"), "x");
    assert_eq!(trim("   "), "");
}
