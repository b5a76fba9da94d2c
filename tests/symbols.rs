use pickls::diagnostic::{Position, Range};
use pickls::tags::{
    convert_kind, parse_ctags_line, parse_multi_regex_query, select_tag, symbol_for, SymbolCollector,
    SymbolKind,
};

#[test]
fn tag_lines_are_read() {
    let t = parse_ctags_line("main\tsrc/main.rs\t12;\"\tfunction\tline:12").unwrap();
    assert_eq!(t.name, "main");
    assert_eq!(t.path, "src/main.rs");
    assert_eq!(t.line, 12);
    assert_eq!(t.kind, SymbolKind::Function);
    assert!(parse_ctags_line("main\tsrc/main.rs\t12").is_none());
    assert!(parse_ctags_line("main\tsrc/main.rs\t12\tfunction").is_none());
    assert!(parse_ctags_line("main\tsrc/main.rs\tx;\"\tfunction").is_none());
    assert!(parse_ctags_line("").is_none());
}

#[test]
fn kinds_are_mapped() {
    assert_eq!(convert_kind("class"), SymbolKind::Class);
    assert_eq!(convert_kind("method:Foo"), SymbolKind::Method);
    assert_eq!(convert_kind("module"), SymbolKind::Module);
    assert_eq!(convert_kind("variable"), SymbolKind::Variable);
    assert_eq!(convert_kind("struct"), SymbolKind::Variable);
}

#[test]
fn every_query_word_must_match() {
    let q = parse_multi_regex_query("  par  line ").ok().unwrap();
    assert_eq!(q.len(), 2);
    assert!(select_tag(&q, "parse_line\tf.rs\t3;\"\tfunction").is_some());
    assert!(select_tag(&q, "parse_word\tf.rs\t3;\"\tfunction").is_none());
    assert!(parse_multi_regex_query("ok (bad").is_err());
    let all = parse_multi_regex_query("").ok().unwrap();
    assert!(select_tag(&all, "anything\tf.rs\t1;\"\tvariable").is_some());
}

#[test]
fn symbol_spans_its_line() {
    let t = parse_ctags_line("Foo\ta.py\t7;\"\tclass").unwrap();
    let s = symbol_for(t, "file:///a.py".to_string());
    assert_eq!(s.kind, SymbolKind::Class);
    assert_eq!(
        s.range,
        Range { start: Position { line: 6, character: 0 }, end: Position { line: 7, character: 0 } }
    );
}

#[test]
fn search_is_capped() {
    let q = parse_multi_regex_query("sym").ok().unwrap();
    let mut c = SymbolCollector::new(250);
    let mut offered = 0;
    for i in 0..1000 {
        let line = format!("sym{i}\tf.rs\t{};\"\tfunction", i + 1);
        let t = select_tag(&q, &line).unwrap();
        offered += 1;
        if !c.offer(symbol_for(t, "file:///f.rs".to_string())) {
            break;
        }
    }
    assert!(!c.wants_more());
    assert_eq!(offered, 250);
    let found = c.into_symbols();
    assert_eq!(found.len(), 250);
    assert_eq!(found[0].name, "sym0");
    assert_eq!(found[249].name, "sym249");
}
