use sai::ast::Program;
use sai::diagnostics::Diagnostic;
use sai::parser::lexer::Lexer;
use sai::parser::parser::Parser;
use sai::types::type_checker::TypeChecker;

fn program(source: &str) -> Program {
    let mut lexer = Lexer::new("c.sai".to_string(), source);
    let tokens = lexer.tokenize();
    let mut parser = Parser::new("c.sai", tokens);
    parser.parse().unwrap()
}

fn check(checker: &mut TypeChecker, source: &str) -> Result<(), Vec<Diagnostic>> {
    checker.check_program(&program(source))
}

fn messages(r: Result<(), Vec<Diagnostic>>) -> Vec<String> {
    r.unwrap_err().iter().map(|d| d.msg.clone()).collect()
}

#[test]
fn let_variables_cannot_be_set() {
    let mut checker = TypeChecker::new();
    assert!(check(&mut checker, "(let (string name) \"Yubai\")").is_ok());
    let errors = check(&mut checker, "(set! name \"Bill\")").unwrap_err();
    assert_eq!(errors.len(), 1);
    assert_eq!(errors[0].msg, "the variable 'name' cannot be modified");
    assert_eq!((errors[0].position.line, errors[0].position.col), (1, 7));
}

#[test]
fn mut_variables_can_be_set() {
    let mut checker = TypeChecker::new();
    assert!(check(&mut checker, "(mut (int age) 18)").is_ok());
    assert!(check(&mut checker, "(set! age 19)").is_ok());
    assert_eq!(messages(check(&mut checker, "(set! age \"old\")")), vec!["unmatched type"]);
}

#[test]
fn names_stay_known_across_programs() {
    let mut checker = TypeChecker::new();
    assert!(check(&mut checker, "(let (int x) 1)").is_ok());
    assert!(check(&mut checker, "(+ x 2)").is_ok());
    assert_eq!(messages(check(&mut checker, "(let (int x) 3)")), vec!["variable already exists"]);
    assert!(check(&mut checker, "(+ x 2)").is_ok());
}

#[test]
fn unknown_names_and_types() {
    let mut checker = TypeChecker::new();
    assert_eq!(messages(check(&mut checker, "y")), vec!["the variable y doesn't exist"]);
    assert_eq!(messages(check(&mut checker, "(set! y 1)")), vec!["variable 'y' doesn't exist"]);
    assert_eq!(messages(check(&mut checker, "(let (number z) 1)")), vec!["unknown type", "unmatched type"]);
}

#[test]
fn arithmetic_rules() {
    let mut checker = TypeChecker::new();
    assert!(check(&mut checker, "(+ 1 2 3)").is_ok());
    assert!(check(&mut checker, "(* 1.5 2.0)").is_ok());
    assert_eq!(messages(check(&mut checker, "(- 1)")), vec!["arithmetic operators require at least 2 arguments"]);
    assert_eq!(
        messages(check(&mut checker, "(+ 1 2.0)")),
        vec!["arithmetic operators require all arguments to have the same numeric type"]
    );
    assert_eq!(
        messages(check(&mut checker, "(/ 1 \"a\")")),
        vec!["arithmetic operators require all arguments to be ints or all arguments to be floats"]
    );
}

#[test]
fn comparison_and_equality_rules() {
    let mut checker = TypeChecker::new();
    assert!(check(&mut checker, "(< 1 2)").is_ok());
    assert!(check(&mut checker, "(= \"a\" \"b\")").is_ok());
    assert_eq!(messages(check(&mut checker, "(>= 1 2.0)")), vec!["comparison operators require two ints or two floats"]);
    assert_eq!(messages(check(&mut checker, "(= 1 true)")), vec!["'=' requires both arguments to have the same type"]);
    assert_eq!(messages(check(&mut checker, "(< 1 2 3)")), vec!["wrong number of arguments"]);
}

#[test]
fn conditionals_and_logic() {
    let mut checker = TypeChecker::new();
    assert!(check(&mut checker, "(if (> 2 1) 2 :else 1)").is_ok());
    assert_eq!(messages(check(&mut checker, "(if true 2 :else \"one\")")), vec!["unmatched type"]);
    assert!(check(&mut checker, "(or (> 2 1) (< 2 1))").is_ok());
    assert_eq!(messages(check(&mut checker, "(and true 1)")), vec!["'and' requires booleans"]);
    assert_eq!(messages(check(&mut checker, "(not 1)")), vec!["'not' requires a boolean"]);
}

#[test]
fn readme_name_conditional() {
    let mut checker = TypeChecker::new();
    let source = "(let (string name) \"Donald\") (if (= name \"Jack\") \"Jack\" :elif (= name \"William\") \"William\" :elif (= name \"Truls\") \"Truls\" :else \"Aaron\")";
    assert!(check(&mut checker, source).is_ok());
}

#[test]
fn functions_declared_with_def() {
    let mut checker = TypeChecker::new();
    assert!(check(&mut checker, "(def twice ((int n) int) (+ n n))").is_ok());
    assert!(check(&mut checker, "(+ (twice 2) 1)").is_ok());
    assert_eq!(messages(check(&mut checker, "(twice 1 2)")), vec!["wrong number of arguments"]);
    assert_eq!(messages(check(&mut checker, "(twice 1.0)")), vec!["unmatched type"]);
}

#[test]
fn a_closure_called_in_place_has_a_function_type() {
    let mut checker = TypeChecker::new();
    assert!(check(&mut checker, "((fn ([int a] int) a) 2)").is_ok());
    assert_eq!(messages(check(&mut checker, "((fn ([int a] int) a) true)")), vec!["unmatched type"]);
    assert_eq!(messages(check(&mut checker, "((fn ([int a] int) a))")), vec!["wrong number of arguments"]);
}

#[test]
fn closure_parameters_stay_in_the_environment() {
    let mut checker = TypeChecker::new();
    assert!(check(&mut checker, "((fn ((int z) int) z) 2)").is_ok());
    assert!(check(&mut checker, "(+ z 1)").is_ok());
    assert!(check(&mut checker, "(def id ((bool w) bool) w)").is_ok());
    assert!(check(&mut checker, "(not w)").is_ok());
}

#[test]
fn annotation_diagnostics_of_closures_and_definitions() {
    let mut checker = TypeChecker::new();
    assert!(check(&mut checker, "((fn ((int a) nothing) a) 1)").is_ok());
    assert_eq!(
        messages(check(&mut checker, "(def g ((thing b) int) 1)")),
        vec!["unknown type", "unknown type"]
    );
}

#[test]
fn readme_fib_checks() {
    let mut checker = TypeChecker::new();
    let source = "(def fib ([int n] int)\n  (if (< n 2)\n    n\n  :else\n    (+ (fib (- n 2))\n       (fib (- n 1)))\n  )\n)";
    assert!(check(&mut checker, source).is_ok());
    assert!(check(&mut checker, "(+ (fib 10) 1)").is_ok());
}

#[test]
fn len_and_nth_cannot_be_checked() {
    let mut checker = TypeChecker::new();
    let p = program("(len 1)");
    assert!(checker.try_check_program(&p).is_none());
}
