use pickls::backend::{ClientInfo, PicklsBackend};
use pickls::client::{MessageType, OutgoingMessage};
use pickls::config::{PicklsConfig, PicklsLanguageConfig, PicklsLinterConfig, PicklsFormatterConfig};
use pickls::diagnostic::{Diagnostic, Position, Range};
use pickls::document_version::DocumentVersion;
use pickls::job::{Job, JobId, JobSpec};
use pickls::workspace::FolderUri;

fn linter(name: &str) -> PicklsLinterConfig {
    PicklsLinterConfig {
        program: name.to_string(),
        args: vec!["$filename".to_string()],
        use_stdin: false,
        pattern: r"^(\S+):(\d+): (.*)$".to_string(),
        filename_match: Some(1),
        line_match: 2,
        start_col_match: None,
        end_col_match: None,
        severity_match: None,
        description_match: Some(3),
        use_stderr: false,
    }
}

fn config() -> PicklsConfig {
    let mut c = PicklsConfig::new();
    c.languages.push((
        "python".to_string(),
        PicklsLanguageConfig {
            root_markers: vec![],
            linters: vec![linter("ruff"), linter("mypy")],
            formatters: vec![PicklsFormatterConfig {
                program: "black".to_string(),
                args: vec![],
                use_stdin: true,
                stderr_indicates_error: false,
            }],
        },
    ));
    c
}

fn diag(msg: &str) -> Diagnostic {
    Diagnostic {
        range: Range { start: Position { line: 0, character: 0 }, end: Position { line: 0, character: 1 } },
        severity: None,
        source: "[pickls/ruff]".to_string(),
        message: msg.to_string(),
    }
}

#[test]
fn open_change_close() {
    let mut b = PicklsBackend::new(config());
    let uri = "file:///w/x.py".to_string();
    let plan = b.did_open(uri.clone(), "python".to_string(), "a".to_string(), DocumentVersion(1)).unwrap();
    assert_eq!(plan.language, Some(0));
    assert_eq!(plan.max_linter_count, 2);
    assert!(plan.stop.is_empty());
    b.jobs_started(uri.clone(), vec![Job { pid: 10 }, Job { pid: 11 }]);
    assert!(b.did_open(uri.clone(), "python".to_string(), "b".to_string(), DocumentVersion(1)).is_none());
    let plan = b.did_change(uri.clone(), DocumentVersion(1), "b".to_string()).unwrap();
    assert_eq!(plan.stop, vec![Job { pid: 10 }, Job { pid: 11 }]);
    assert_eq!(plan.job.text, "b");
    assert_eq!(b.get_document(&uri).ok().unwrap().file_contents, "b");
    assert!(b.did_change(uri.clone(), DocumentVersion(0), "old".to_string()).is_none());
    assert_eq!(b.get_document(&uri).ok().unwrap().version, DocumentVersion(1));
    b.did_close(&uri);
    assert!(b.get_document(&uri).is_err());
    assert!(b.did_change(uri.clone(), DocumentVersion(2), "c".to_string()).is_none());
}

#[test]
fn unconfigured_language_is_not_linted() {
    let mut b = PicklsBackend::new(config());
    let plan = b.did_open("u".to_string(), "rust".to_string(), "fn".to_string(), DocumentVersion(1)).unwrap();
    assert_eq!(plan.language, None);
    assert!(b.fetch_language_config("rust").is_none());
    assert_eq!(b.fetch_language_config("python").unwrap().linters.len(), 2);
    let spec = JobSpec { uri: "u".to_string(), version: DocumentVersion(1), language_id: "rust".to_string(), text: String::new() };
    assert_eq!(JobId::from(&spec).0, "u");
}

#[test]
fn diagnostics_after_close_are_dropped() {
    let mut b = PicklsBackend::new(config());
    let uri = "file:///w/x.py".to_string();
    b.did_open(uri.clone(), "python".to_string(), "a".to_string(), DocumentVersion(1));
    let p = b.submit_diagnostics(uri.clone(), "ruff".to_string(), 2, DocumentVersion(1), vec![diag("x")]);
    assert_eq!(p.unwrap().diagnostics.len(), 1);
    b.did_close(&uri);
    assert!(b.submit_diagnostics(uri.clone(), "ruff".to_string(), 2, DocumentVersion(1), vec![diag("y")]).is_none());
}

#[test]
fn names_for_logs() {
    let mut b = PicklsBackend::new(config());
    assert_eq!(b.get_client_name(), "Client?");
    assert_eq!(b.get_workspace_name(), "Client?(<unknown>)");
    let folders = vec![
        FolderUri { scheme: Some("file".to_string()), path: "/home/u/alpha".to_string(), text: "file:///home/u/alpha".to_string() },
        FolderUri { scheme: Some("file".to_string()), path: "/home/u/beta".to_string(), text: "file:///home/u/beta".to_string() },
        FolderUri { scheme: Some("http".to_string()), path: "/x".to_string(), text: "http://h/x".to_string() },
    ];
    let symbols = b.initialize(Some(ClientInfo { name: "nvim".to_string(), version: Some("0.10".to_string()) }), folders);
    assert!(!symbols);
    assert_eq!(b.get_client_name(), "nvim@0.10");
    assert_eq!(b.get_workspace_name(), "nvim@0.10(alpha, beta)");
    assert_eq!(b.workspace.folders().len(), 2);
}

#[test]
fn formatting_and_selection() {
    let mut b = PicklsBackend::new(config());
    let uri = "file:///w/x.py".to_string();
    assert!(b.formatting(&uri).is_err());
    b.did_open(uri.clone(), "python".to_string(), "ab\ncd".to_string(), DocumentVersion(3));
    let (i, chain) = b.formatting(&uri).ok().unwrap().unwrap();
    assert_eq!(i, 0);
    assert_eq!(chain.input(), "ab\ncd");
    let r = Range { start: Position { line: 0, character: 1 }, end: Position { line: 1, character: 1 } };
    let (lang, text, v) = b.inline_assist_selection(&uri, r).ok().unwrap().unwrap();
    assert_eq!(lang, "python");
    assert_eq!(text, "b\nc");
    assert_eq!(v, DocumentVersion(3));
    let empty = Range { start: Position { line: 0, character: 1 }, end: Position { line: 0, character: 1 } };
    assert!(b.inline_assist_selection(&uri, empty).ok().unwrap().is_none());
    assert!(b.symbol_search_settings().is_none());
}

#[test]
fn configuration_updates_are_logged() {
    let mut b = PicklsBackend::new(PicklsConfig::new());
    b.update_configuration(Ok(config()));
    assert!(b.fetch_language_config("python").is_some());
    b.update_configuration(Err("bad yaml".to_string()));
    assert!(b.fetch_language_config("python").is_some());
    let msgs = b.client.take_messages();
    assert_eq!(msgs.len(), 2);
    match &msgs[1] {
        OutgoingMessage::LogMessage { message_type, message } => {
            assert_eq!(*message_type, MessageType::Warning);
            assert!(message.contains("bad yaml"));
        }
        _ => panic!("expected a log message"),
    }
    assert!(b.client.take_messages().is_empty());
}
