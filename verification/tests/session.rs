use sai::cli::{check_source, is_blank, read_outcome, ReadEvent, ReadOutcome};
use sai::types::type_checker::TypeChecker;

fn messages(r: Option<Result<sai::ast::Program, Vec<sai::diagnostics::Diagnostic>>>) -> Vec<String> {
    r.unwrap().unwrap_err().iter().map(|d| d.msg.clone()).collect()
}

#[test]
fn a_line_is_submitted_with_a_line_ending() {
    assert!(matches!(read_outcome(ReadEvent::Line("(+ 1 2)".to_string())), ReadOutcome::Submission(s) if s == "(+ 1 2)\n"));
}

#[test]
fn a_blank_line_is_submitted_as_nothing() {
    assert!(matches!(read_outcome(ReadEvent::Line(" \t ".to_string())), ReadOutcome::Submission(s) if s.is_empty()));
    assert!(matches!(read_outcome(ReadEvent::Line(String::new())), ReadOutcome::Submission(s) if s.is_empty()));
}

#[test]
fn interrupts_end_of_input_and_failures() {
    assert!(matches!(read_outcome(ReadEvent::Interrupted), ReadOutcome::Cancelled));
    assert!(matches!(read_outcome(ReadEvent::Eof), ReadOutcome::Exit));
    assert!(matches!(read_outcome(ReadEvent::Failed), ReadOutcome::Exit));
}

#[test]
fn blankness_follows_unicode_white_space() {
    assert!(is_blank(""));
    assert!(is_blank(" \t\r\n\u{3000}\u{2028}"));
    assert!(!is_blank(" a "));
    assert!(!is_blank("\u{200b}"));
}

#[test]
fn an_accepted_submission_gives_its_program() {
    let mut checker = TypeChecker::new();
    let program = check_source("<stdin>", "(+ 1 2)\n", &mut checker).unwrap().unwrap();
    assert_eq!(program.name, "<stdin>");
    assert_eq!(program.expressions.len(), 1);
}

#[test]
fn the_first_stage_that_reports_stops_the_others() {
    let mut checker = TypeChecker::new();
    assert_eq!(messages(check_source("<stdin>", "\"abc", &mut checker)), vec!["Unterminated string literal"]);
    assert_eq!(messages(check_source("<stdin>", "(+ 1", &mut checker)), vec!["'(' was never closed"]);
    assert_eq!(messages(check_source("<stdin>", "(set! q 1)", &mut checker)), vec!["variable 'q' doesn't exist"]);
}

#[test]
fn a_session_remembers_its_declarations() {
    let mut checker = TypeChecker::new();
    assert!(check_source("<stdin>", "(let (int x) 1)", &mut checker).unwrap().is_ok());
    assert_eq!(
        messages(check_source("<stdin>", "(set! x 2)", &mut checker)),
        vec!["the variable 'x' cannot be modified"]
    );
    assert!(check_source("<stdin>", "(* x 3)", &mut checker).unwrap().is_ok());
}

#[test]
fn a_submission_the_checker_cannot_handle() {
    let mut checker = TypeChecker::new();
    assert!(check_source("<stdin>", "(len 1)", &mut checker).is_none());
    assert!(check_source("<stdin>", "(if 1 2 :elif)", &mut checker).is_none());
}

#[test]
fn readme_declarations_with_comments() {
    let mut checker = TypeChecker::new();
    let source = "(let [string name] \"Yubai\") ;; This line creates a string constant named 'name'\n;; Variables are immutable by default.\n(set! name \"Bill\") ;; This will raise an exception!!\n";
    assert_eq!(messages(check_source("<stdin>", source, &mut checker)), vec!["the variable 'name' cannot be modified"]);
    let mut checker = TypeChecker::new();
    let source = "(mut [int age] 18) ;; Use 'mut' to create mutable variables\n(set! age 19) ;; This is legal.\n";
    assert!(check_source("<stdin>", source, &mut checker).unwrap().is_ok());
}
