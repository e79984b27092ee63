use sai::text::{decimal_string, nth_line, text_is};

fn line(s: &str, n: usize) -> Option<String> {
    let chars: Vec<char> = s.chars().collect();
    nth_line(&chars, n).map(|cs| cs.iter().collect())
}

#[test]
fn decimal_strings() {
    assert_eq!(decimal_string(0), "0");
    assert_eq!(decimal_string(7), "7");
    assert_eq!(decimal_string(1234), "1234");
    assert_eq!(decimal_string(usize::MAX), usize::MAX.to_string());
}

#[test]
fn lines_as_str_lines_gives_them() {
    let s = "a\r\nb\n\nc\r";
    let expected: Vec<&str> = s.lines().collect();
    for (i, l) in expected.iter().enumerate() {
        assert_eq!(line(s, i).as_deref(), Some(*l));
    }
    assert_eq!(line(s, expected.len()), None);
    assert_eq!(line(s, 3).as_deref(), Some("c\r"));
    assert_eq!(line("x\n", 1), None);
    assert_eq!(line("", 0), None);
    assert_eq!(line("\n", 0).as_deref(), Some(""));
}

#[test]
fn text_comparison() {
    assert!(text_is(&"int".to_string(), "int"));
    assert!(!text_is(&"in".to_string(), "int"));
    assert!(text_is(&"héllo".to_string(), "héllo"));
    assert!(!text_is(&"héllo".to_string(), "hello"));
}
