use pickls::config::PicklsLinterConfig;
use pickls::diagnostic::{Diagnostic, PicklsDiagnostic, Position, Range};
use pickls::diagnostic_severity::DiagnosticSeverity;
use pickls::linter_output::{
    convert_capture_to_diagnostic, diagnostic_paths, parse_linter_output, resolve_against,
    select_document_diagnostics,
};
use pickls::pattern::{captures, compile_pattern, is_match};

fn config(pattern: &str) -> PicklsLinterConfig {
    PicklsLinterConfig {
        program: "lint".to_string(),
        args: vec![],
        use_stdin: false,
        pattern: pattern.to_string(),
        filename_match: Some(1),
        line_match: 2,
        start_col_match: None,
        end_col_match: None,
        severity_match: None,
        description_match: None,
        use_stderr: false,
    }
}

fn lines(ls: &[&str]) -> Vec<String> {
    ls.iter().map(|s| s.to_string()).collect()
}

fn to_editor(ds: Vec<PicklsDiagnostic>) -> Vec<Diagnostic> {
    ds.into_iter().map(Diagnostic::from).collect()
}

#[test]
fn captures_hold_the_groups() {
    let p = compile_pattern(r"^(\w+):(\d+)(x)?").ok().unwrap();
    let c = captures(&p, "abc:12 rest").unwrap();
    assert_eq!(c, vec![Some("abc:12".to_string()), Some("abc".to_string()), Some("12".to_string()), None]);
    assert!(captures(&p, "::").is_none());
    assert!(is_match(&p, "k:1"));
    assert!(compile_pattern("foo(bar").is_err());
}

#[test]
fn description_from_previous_line() {
    let mut cfg = config(r"^(\S+):(\d+):$");
    cfg.description_match = Some(-1);
    let p = compile_pattern(&cfg.pattern).ok().unwrap();
    let out = parse_linter_output(&cfg, &p, "/w/src/x.py", &lines(&["    E501 line too long", "src/x.py:42:"]));
    assert_eq!(out.len(), 1);
    assert_eq!(out[0].filename, "src/x.py");
    let d = to_editor(out);
    assert_eq!(
        d[0].range,
        Range { start: Position { line: 41, character: 0 }, end: Position { line: 41, character: 1 } }
    );
    assert_eq!(d[0].message, "E501 line too long");
}

#[test]
fn description_index_minus_one_on_the_first_line() {
    let mut cfg = config(r"^(\S+):(\d+):$");
    cfg.description_match = Some(-1);
    let p = compile_pattern(&cfg.pattern).ok().unwrap();
    let out = parse_linter_output(&cfg, &p, "/w/src/x.py", &lines(&["src/x.py:42:", "    E501 line too long"]));
    assert_eq!(out.len(), 1);
    assert_eq!(out[0].description, None);
    let d = to_editor(out);
    assert_eq!(d[0].message, "error");
    assert_eq!(d[0].range.start.line, 41);
}

#[test]
fn no_match_gives_no_diagnostics() {
    let cfg = config(r"^(\S+):(\d+): (.*)$");
    let p = compile_pattern(&cfg.pattern).ok().unwrap();
    let out = parse_linter_output(&cfg, &p, "/w/x.py", &lines(&["all good", "nothing to see"]));
    assert!(out.is_empty());
    let selected = select_document_diagnostics(&out, &vec![], "/w/x.py");
    assert!(selected.is_empty());
}

#[test]
fn all_captures_projected() {
    let mut cfg = config(r"^(\S+):(\d+):(\d+):(\d+): (\w+): (.*)$");
    cfg.start_col_match = Some(3);
    cfg.end_col_match = Some(4);
    cfg.severity_match = Some(5);
    cfg.description_match = Some(6);
    let p = compile_pattern(&cfg.pattern).ok().unwrap();
    let out = parse_linter_output(&cfg, &p, "/w/x.py", &lines(&["x.py:3:5:9: WARN: bad thing", "x.py:notanumber:1:1: e: y"]));
    assert_eq!(out.len(), 1);
    let d = to_editor(out);
    assert_eq!(
        d[0].range,
        Range { start: Position { line: 2, character: 4 }, end: Position { line: 2, character: 9 } }
    );
    assert_eq!(d[0].severity, Some(DiagnosticSeverity::Warning));
    assert_eq!(d[0].message, "bad thing");
    assert_eq!(d[0].source, "[pickls/lint]");
}

#[test]
fn unusable_description_index_skips_the_line() {
    let mut cfg = config(r"^(\S+):(\d+)$");
    cfg.description_match = Some(0);
    let caps = vec![Some("a:1".to_string()), Some("a".to_string()), Some("1".to_string())];
    assert!(convert_capture_to_diagnostic("/w/a", &cfg, &caps, &None).is_none());
    cfg.description_match = Some(-2);
    assert!(convert_capture_to_diagnostic("/w/a", &cfg, &caps, &None).is_none());
    cfg.description_match = None;
    cfg.line_match = 5;
    assert!(convert_capture_to_diagnostic("/w/a", &cfg, &caps, &None).is_none());
}

#[test]
fn missing_filename_group_means_the_document() {
    let mut cfg = config(r"^(\d+)$");
    cfg.filename_match = None;
    cfg.line_match = 1;
    let caps = vec![Some("7".to_string()), Some("7".to_string())];
    let d = convert_capture_to_diagnostic("/w/doc.py", &cfg, &caps, &Some("  prior ".to_string())).unwrap();
    assert_eq!(d.filename, "/w/doc.py");
    assert_eq!(d.line, 7);
}

#[test]
fn other_files_are_filtered_out() {
    let cfg = config(r"^(\S+):(\d+): (.*)$");
    let p = compile_pattern(&cfg.pattern).ok().unwrap();
    let out = parse_linter_output(&cfg, &p, "/w/x.py", &lines(&["other.py:3: error", "x.py:4: error"]));
    assert_eq!(out.len(), 2);
    let paths = diagnostic_paths("/w", &out);
    assert_eq!(paths, vec!["/w/other.py".to_string(), "/w/x.py".to_string()]);
    let selected = select_document_diagnostics(&out, &paths, "/w/x.py");
    assert_eq!(selected.len(), 1);
    assert_eq!(selected[0].range.start.line, 3);
}

#[test]
fn relative_paths_resolve_against_the_root() {
    assert_eq!(resolve_against("/w", "a/b.py"), "/w/a/b.py");
    assert_eq!(resolve_against("/w/", "b.py"), "/w/b.py");
    assert_eq!(resolve_against("/w", "/abs/b.py"), "/abs/b.py");
    assert_eq!(resolve_against("", "b.py"), "b.py");
}
