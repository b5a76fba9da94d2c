use pickls::config::PicklsFormatterConfig;
use pickls::text::replace_text;
use pickls::tool::{ancestors, formatter_result, get_root_dir, substitute_args, FormatChain, FormatterRun};

fn formatter(stderr_indicates_error: bool) -> PicklsFormatterConfig {
    PicklsFormatterConfig {
        program: "fmt".to_string(),
        args: vec![],
        use_stdin: true,
        stderr_indicates_error,
    }
}

fn run(out: &str, stderr_len: usize, ok: bool) -> FormatterRun {
    FormatterRun { stdout: out.to_string(), stderr_len, read_ok: true, exit_success: ok }
}

#[test]
fn formatter_chain_feeds_each_output_to_the_next() {
    let fs = vec![formatter(true), formatter(true)];
    let mut chain = FormatChain::new(2, "a".to_string());
    let i = chain.next_formatter().unwrap();
    assert_eq!(chain.input(), "a");
    chain.record(&fs[i], run("b", 0, true));
    let j = chain.next_formatter().unwrap();
    assert_eq!(j, 1);
    assert_eq!(chain.input(), "b");
    chain.record(&fs[j], run("c", 0, true));
    assert!(chain.next_formatter().is_none());
    let edits = chain.finish().ok().unwrap();
    assert_eq!(edits.len(), 1);
    assert_eq!(edits[0].new_text, "c");
    assert_eq!(edits[0].range.start.line, 0);
    assert_eq!(edits[0].range.start.character, 0);
    assert_eq!(edits[0].range.end.line, u32::MAX);
    assert_eq!(edits[0].range.end.character, u32::MAX);
}

#[test]
fn formatter_chain_stops_at_error_output() {
    let fs = vec![formatter(true), formatter(true)];
    let mut chain = FormatChain::new(2, "a".to_string());
    chain.record(&fs[0], run("b", 0, true));
    chain.record(&fs[1], run("c", 5, true));
    assert!(chain.next_formatter().is_none());
    assert!(chain.finish().is_err());
}

#[test]
fn formatter_outcomes() {
    assert_eq!(formatter_result(&formatter(false), run("x", 3, true)).ok().unwrap(), "x");
    assert!(formatter_result(&formatter(true), run("x", 3, true)).is_err());
    assert!(formatter_result(&formatter(false), run("x", 0, false)).is_err());
    let unread = FormatterRun { stdout: String::new(), stderr_len: 0, read_ok: false, exit_success: true };
    assert!(formatter_result(&formatter(false), unread).is_err());
}

#[test]
fn no_formatters_keep_the_text() {
    let chain = FormatChain::new(0, "same".to_string());
    assert!(chain.next_formatter().is_none());
    assert_eq!(chain.finish().ok().unwrap()[0].new_text, "same");
}

#[test]
fn root_directory_choice() {
    let file = "/home/u/proj/src/x.py";
    let a = ancestors(file);
    assert_eq!(a, vec!["/home/u/proj/src", "/home/u/proj", "/home/u", "/home", "/"]);
    let folders = vec!["/home/u".to_string()];
    let markers = vec!["pyproject.toml".to_string()];
    let none = vec![false; a.len()];
    assert_eq!(get_root_dir(file, &folders, &markers, &none).ok().unwrap(), "/home/u");
    let mut at_proj = none.clone();
    at_proj[1] = true;
    assert_eq!(get_root_dir(file, &folders, &markers, &at_proj).ok().unwrap(), "/home/u/proj");
    assert_eq!(get_root_dir(file, &folders, &vec![], &at_proj).ok().unwrap(), "/home/u/proj/src");
    assert_eq!(get_root_dir(file, &vec![], &markers, &none).ok().unwrap(), "/home/u/proj/src");
    let empty = ancestors("");
    assert!(empty.is_empty());
    assert!(get_root_dir("", &vec![], &vec![], &vec![]).is_err());
    assert!(get_root_dir(file, &folders, &markers, &vec![true]).is_err());
}

#[test]
fn arguments_are_filled_in() {
    let args = vec!["--file=$filename".to_string(), "$tmpfilename".to_string(), "-q".to_string()];
    let r = substitute_args(&args, "/w/x.py", &Some("/tmp/t".to_string()));
    assert_eq!(r, vec!["--file=/w/x.py".to_string(), "/tmp/t".to_string(), "-q".to_string()]);
    let r = substitute_args(&args, "/w/x.py", &None);
    assert_eq!(r[1], "$tmpfilename");
    assert_eq!(replace_text("aXbXXc", "X", "yy"), "ayybyyyyc");
    assert_eq!(replace_text("aaa", "aa", "b"), "ba");
}
