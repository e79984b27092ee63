use sai::diagnostics::{render_diagnostic, render_diagnostics, Diagnostic};
use sai::position::Position;

fn at(line: usize, col: usize, msg: &str) -> Diagnostic {
    Diagnostic::new(Position { file: "t.sai".to_string(), line, col }, msg)
}

#[test]
fn renders_without_source() {
    let d = at(1, 7, "the variable 'name' cannot be modified");
    assert_eq!(render_diagnostic(None, &d, false), "error: t.sai:1:7\nthe variable 'name' cannot be modified");
}

#[test]
fn renders_with_colors() {
    let d = at(2, 3, "oops");
    assert_eq!(
        render_diagnostic(None, &d, true),
        "\x1b[1m\x1b[31merror\x1b[0m\x1b[1m:\x1b[0m\x1b[0m t.sai:2:3\n\x1b[1moops\x1b[0m"
    );
}

#[test]
fn renders_the_source_line_with_a_caret() {
    let d = at(1, 7, "the variable 'name' cannot be modified");
    let source = "(set! name \"Bill\")\n";
    assert_eq!(
        render_diagnostic(Some(source), &d, false),
        "error: t.sai:1:7\nthe variable 'name' cannot be modified\n 1 | (set! name \"Bill\")\n   |       ^"
    );
}

#[test]
fn caret_padding_keeps_tabs_and_gutter_grows_with_the_line_number() {
    let mut source = String::new();
    for _ in 0..9 {
        source.push_str("\n");
    }
    source.push_str("\tab c\r\n");
    let d = at(10, 4, "m");
    assert_eq!(
        render_diagnostic(Some(&source), &d, false),
        "error: t.sai:10:4\nm\n 10 | \tab c\n    | \t  ^"
    );
}

#[test]
fn a_missing_line_shows_no_source() {
    let d = at(3, 1, "m");
    assert_eq!(render_diagnostic(Some("a\nb\n"), &d, false), "error: t.sai:3:1\nm");
    let d = at(0, 0, "m");
    assert_eq!(render_diagnostic(Some("x"), &d, false), "error: t.sai:0:0\nm\n 0 | x\n   | ^");
}

#[test]
fn renders_each_diagnostic_in_order() {
    let ds = vec![at(1, 1, "first"), at(1, 2, "second")];
    let out = render_diagnostics(None, &ds, false);
    assert_eq!(out, vec!["error: t.sai:1:1\nfirst".to_string(), "error: t.sai:1:2\nsecond".to_string()]);
    assert!(render_diagnostics(None, &[], true).is_empty());
}

#[test]
fn plain_text_of_a_diagnostic() {
    assert_eq!(at(4, 2, "bad").to_string(), "t.sai:4:2\nbad");
}

fn strip_codes(s: &str) -> String {
    let cs: Vec<char> = s.chars().collect();
    let mut out = String::new();
    let mut i = 0;
    while i < cs.len() {
        if cs[i] == '\x1b' && i + 1 < cs.len() && cs[i + 1] == '[' {
            let mut j = i + 2;
            while j < cs.len() && cs[j].is_ascii_digit() {
                j += 1;
            }
            if j < cs.len() && cs[j] == 'm' {
                i = j + 1;
                continue;
            }
        }
        out.push(cs[i]);
        i += 1;
    }
    out
}

#[test]
fn colors_only_add_terminal_codes() {
    let d = at(2, 3, "unmatched type");
    let source = "(let [int x] 1)\n(set! x \"a\")\n";
    for src in [None, Some(source)] {
        let colored = render_diagnostic(src, &d, true);
        let plain = render_diagnostic(src, &d, false);
        assert_eq!(strip_codes(&colored), plain);
        assert!(!plain.contains('\x1b'));
    }
}
