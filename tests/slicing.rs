use pickls::diagnostic::{Position, Range};
use pickls::utils::{outdent_text, slice_range};

#[test]
fn test_slice_range() {
    assert_eq!(
        "bcdef\ndh",
        slice_range(
            "abcdef\ndhi",
            Range { start: Position { line: 0, character: 1 }, end: Position { line: 1, character: 2 } }
        )
    );
    let source = "fn main() {\n    println!(\"Hello, world!\");\n}\n";
    let range = Range { start: Position { line: 1, character: 4 }, end: Position { line: 1, character: 12 } };
    assert_eq!(slice_range(source, range), "println!");
}

#[test]
fn slice_from_start_then_rest_is_source() {
    let source = "ab\u{1F600}c\ndef\ng";
    for (l, c) in [(0u32, 0u32), (0, 2), (0, 3), (0, 4), (1, 1), (2, 0), (5, 5)] {
        let head = slice_range(
            source,
            Range { start: Position { line: 0, character: 0 }, end: Position { line: l, character: c } },
        );
        assert!(source.starts_with(head.as_str()));
        let rest = &source[head.len()..];
        assert_eq!(format!("{head}{rest}"), source);
        let tail = slice_range(
            source,
            Range {
                start: Position { line: l, character: c },
                end: Position { line: u32::MAX, character: u32::MAX },
            },
        );
        assert_eq!(tail, rest);
    }
}

#[test]
fn slice_counts_utf16_units() {
    let source = "a\u{1F600}b";
    let r = Range { start: Position { line: 0, character: 3 }, end: Position { line: 0, character: 4 } };
    assert_eq!(slice_range(source, r), "b");
}

#[test]
fn outdent_removes_common_indentation() {
    assert_eq!(outdent_text("    a\n      b\n\n    c\n"), "a\n  b\n\nc");
    assert_eq!(outdent_text("x\r\n  y"), "x\n  y");
    assert_eq!(outdent_text(""), "");
    assert_eq!(outdent_text("  \n  "), "  \n  ");
}
