use pickls::diagnostic::{Diagnostic, Position, Range};
use pickls::diagnostics_manager::DiagnosticsManager;
use pickls::document_version::DocumentVersion;
use pickls::progress::{make_progress_params, progress_token, ProgressNotifier, WorkDoneProgress};

fn diag(msg: &str) -> Diagnostic {
    Diagnostic {
        range: Range { start: Position { line: 0, character: 0 }, end: Position { line: 0, character: 1 } },
        severity: None,
        source: "[pickls/a]".to_string(),
        message: msg.to_string(),
    }
}

fn is_end(p: &pickls::progress::ProgressParams) -> bool {
    matches!(p.value, WorkDoneProgress::End)
}

#[test]
fn progress_tokens_and_percentages() {
    assert_eq!(progress_token("file:///x.py", DocumentVersion(3)), "file:///x.py:3");
    let p = make_progress_params("job finished", "u", DocumentVersion(1), 1, 3);
    assert_eq!(p.token, "u:1");
    match p.value {
        WorkDoneProgress::Report { message, percentage } => {
            assert_eq!(message, "job finished");
            assert_eq!(percentage, Some(33));
        }
        WorkDoneProgress::End => panic!("expected a report"),
    }
    assert!(is_end(&make_progress_params("m", "u", DocumentVersion(1), 2, 2)));
    match make_progress_params("m", "u", DocumentVersion(1), 0, 0).value {
        WorkDoneProgress::Report { percentage, .. } => assert_eq!(percentage, None),
        WorkDoneProgress::End => panic!("expected a report"),
    }
    match make_progress_params("m", "u", DocumentVersion(1), 29, 100).value {
        WorkDoneProgress::Report { percentage, .. } => assert_eq!(percentage, Some(29)),
        WorkDoneProgress::End => panic!("expected a report"),
    }
}

#[test]
fn progress_notifier_counts() {
    let mut n = ProgressNotifier::new("u".to_string(), DocumentVersion(2), 2);
    let a = n.notify();
    assert_eq!(a.token, "u:2");
    assert!(!is_end(&a));
    let b = n.notify();
    assert!(is_end(&b));
    assert_eq!(n.counter, 2);
}

#[test]
fn version_supersession() {
    let mut m = DiagnosticsManager::new();
    let uri = "file:///x.py".to_string();
    // Linter B reports for version 1 while A is still running.
    let p1 = m
        .update_diagnostics(uri.clone(), "b".to_string(), 2, DocumentVersion(1), vec![diag("b1")])
        .unwrap();
    assert_eq!(p1.version, DocumentVersion(1));
    assert_eq!(p1.progress.len(), 1);
    assert_eq!(p1.progress[0].token, "file:///x.py:1");
    assert!(!is_end(&p1.progress[0]));
    // The document changes; A reports for version 2 first.
    let p2 = m
        .update_diagnostics(uri.clone(), "a".to_string(), 2, DocumentVersion(2), vec![diag("a2")])
        .unwrap();
    assert_eq!(p2.version, DocumentVersion(2));
    assert_eq!(p2.diagnostics.len(), 1);
    assert_eq!(p2.diagnostics[0].message, "a2");
    assert_eq!(p2.progress.len(), 2);
    assert_eq!(p2.progress[1].token, "file:///x.py:1");
    assert!(is_end(&p2.progress[1]));
    // A's late output for version 1 is dropped.
    let late = m.update_diagnostics(uri.clone(), "a".to_string(), 2, DocumentVersion(1), vec![diag("a1")]);
    assert!(late.is_none());
    // B finishes version 2: everything is in, the progress of version 2 ends.
    let p3 = m
        .update_diagnostics(uri.clone(), "b".to_string(), 2, DocumentVersion(2), vec![diag("b2")])
        .unwrap();
    assert_eq!(p3.version, DocumentVersion(2));
    let mut msgs: Vec<String> = p3.diagnostics.iter().map(|d| d.message.clone()).collect();
    msgs.sort();
    assert_eq!(msgs, vec!["a2".to_string(), "b2".to_string()]);
    assert_eq!(p3.progress.len(), 1);
    assert_eq!(p3.progress[0].token, "file:///x.py:2");
    assert!(is_end(&p3.progress[0]));
}

#[test]
fn published_versions_never_go_down() {
    let mut m = DiagnosticsManager::new();
    let uri = "u".to_string();
    let mut last = i32::MIN;
    for v in [1, 3, 2, 3, 5, 4, 5] {
        if let Some(p) = m.update_diagnostics(uri.clone(), "a".to_string(), 1, DocumentVersion(v), vec![]) {
            assert!(p.version.0 >= last);
            last = p.version.0;
        }
    }
    assert_eq!(last, 5);
}

#[test]
fn same_version_is_taken_again() {
    let mut m = DiagnosticsManager::new();
    let uri = "u".to_string();
    m.update_diagnostics(uri.clone(), "a".to_string(), 1, DocumentVersion(4), vec![diag("old")]).unwrap();
    let p = m
        .update_diagnostics(uri.clone(), "a".to_string(), 1, DocumentVersion(4), vec![diag("new")])
        .unwrap();
    assert_eq!(p.diagnostics.len(), 1);
    assert_eq!(p.diagnostics[0].message, "new");
}

#[test]
fn empty_report_clears_the_linter() {
    let mut m = DiagnosticsManager::new();
    let uri = "u".to_string();
    m.update_diagnostics(uri.clone(), "a".to_string(), 2, DocumentVersion(1), vec![diag("x")]).unwrap();
    m.update_diagnostics(uri.clone(), "b".to_string(), 2, DocumentVersion(1), vec![diag("y")]).unwrap();
    let p = m.update_diagnostics(uri.clone(), "a".to_string(), 2, DocumentVersion(1), vec![]).unwrap();
    assert_eq!(p.diagnostics.len(), 1);
    assert_eq!(p.diagnostics[0].message, "y");
}

#[test]
fn documents_are_independent() {
    let mut m = DiagnosticsManager::new();
    m.update_diagnostics("u1".to_string(), "a".to_string(), 1, DocumentVersion(9), vec![]).unwrap();
    let p = m.update_diagnostics("u2".to_string(), "a".to_string(), 1, DocumentVersion(1), vec![diag("z")]);
    assert_eq!(p.unwrap().version, DocumentVersion(1));
}

#[test]
fn progress_of_a_version_ends_once() {
    let mut m = DiagnosticsManager::new();
    let uri = "u".to_string();
    // One linter: its report for version 1 completes it, which ends its progress.
    let p1 = m.update_diagnostics(uri.clone(), "a".to_string(), 1, DocumentVersion(1), vec![]).unwrap();
    assert_eq!(p1.progress.len(), 1);
    assert_eq!(p1.progress[0].token, "u:1");
    assert!(is_end(&p1.progress[0]));
    // Version 2 arrives: its progress ends too, and version 1 is not ended again.
    let p2 = m.update_diagnostics(uri.clone(), "a".to_string(), 1, DocumentVersion(2), vec![]).unwrap();
    assert_eq!(p2.progress.len(), 1);
    assert_eq!(p2.progress[0].token, "u:2");
    assert!(is_end(&p2.progress[0]));
    // A re-lint of version 2 publishes again, with no further progress notice.
    let p3 = m.update_diagnostics(uri.clone(), "a".to_string(), 1, DocumentVersion(2), vec![diag("x")]).unwrap();
    assert_eq!(p3.diagnostics.len(), 1);
    assert!(p3.progress.is_empty());
}
