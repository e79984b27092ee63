use sai::diagnostics::Diagnostic;
use sai::parser::lexer::Lexer;
use sai::parser::parser::Parser;
use sai::types::type_checker::TypeChecker;

fn parse_messages(source: &str) -> Vec<String> {
    let mut lexer = Lexer::new("e.sai".to_string(), source);
    let tokens = lexer.tokenize();
    let mut parser = Parser::new("e.sai", tokens);
    let errors: Vec<Diagnostic> = parser.parse().unwrap_err();
    errors.iter().map(|d| d.msg.clone()).collect()
}

#[test]
fn keywords_out_of_place() {
    assert_eq!(parse_messages("(:else 1)"), vec!["Unexpected keyword"]);
    assert_eq!(parse_messages("let"), vec!["Unexpected keyword"]);
}

#[test]
fn malformed_definitions() {
    assert_eq!(parse_messages("(def f x)"), vec!["improper form of defing a function"]);
    assert_eq!(parse_messages("(set! x)"), vec!["bad syntax for assignment"]);
    assert_eq!(parse_messages("(set! 1 2)"), vec!["expected a variable"]);
    assert_eq!(parse_messages("(let (int) 1)"), vec!["improper form of variable signature"]);
    assert_eq!(parse_messages("(let ((int) x) 1)"), vec!["improper form of type"]);
    assert_eq!(parse_messages("(let (int x))"), vec!["bad syntax for declaration"]);
}

#[test]
fn malformed_closures() {
    assert_eq!(parse_messages("(fn (int))"), vec!["improper form of defining a closure"]);
    assert_eq!(parse_messages("(fn () 1)"), vec!["expected type"]);
    assert_eq!(parse_messages("(fn int 1)"), vec!["unexpected token"]);
    assert_eq!(parse_messages("(fn (x int) 1)"), vec!["expected parameter"]);
    assert_eq!(parse_messages("(fn ((int a b) int) 1)"), vec!["improper form of a parameter"]);
    assert_eq!(parse_messages("(fn ((int 1) int) 1)"), vec!["expected name"]);
}

#[test]
fn malformed_conditionals() {
    assert_eq!(parse_messages("(if true)"), vec!["bad syntax for if"]);
    assert_eq!(
        parse_messages("(if true 1 :else)"),
        vec!["Unexpected keyword", "'else' requires at least 1 body expression"]
    );
    assert_eq!(
        parse_messages("(if true :elif 1)"),
        vec![
            "branch requires a condition and at least one body expression",
            "branch requires a condition and at least one body expression"
        ]
    );
}

#[test]
fn malformed_logic() {
    assert_eq!(parse_messages("(or true)"), vec!["'or' requires at least 2 argument"]);
    assert_eq!(parse_messages("(and true)"), vec!["'and' requires at least 2 arguments"]);
    assert_eq!(parse_messages("(not)"), vec!["'not' requires only 1 argument."]);
}

#[test]
fn values_that_are_not_values() {
    assert_eq!(parse_messages("(f (set! x 1))"), vec!["unexpected assignment"]);
    assert_eq!(parse_messages("(f (def g ((int n) int) n))"), vec!["unexpected function declaration"]);
    assert_eq!(parse_messages("((or true false) 1)"), vec!["unexpected 'or'"]);
    assert_eq!(parse_messages("((and true false) 1)"), vec!["unexpected 'and'"]);
}

#[test]
fn functions_cannot_be_compared() {
    let mut lexer = Lexer::new("e.sai".to_string(), "(def f ((int n) int) n) (= f f)");
    let tokens = lexer.tokenize();
    let mut parser = Parser::new("e.sai", tokens);
    let program = parser.parse().unwrap();
    let mut checker = TypeChecker::new();
    let errors = checker.check_program(&program).unwrap_err();
    let messages: Vec<String> = errors.iter().map(|d| d.msg.clone()).collect();
    assert_eq!(messages, vec!["'=' does not support functions"]);
}
