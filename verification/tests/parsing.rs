use sai::ast::{Expr, LiteralType, Program};
use sai::diagnostics::Diagnostic;
use sai::parser::lexer::Lexer;
use sai::parser::parser::Parser;
use sai::parser::validator::ASTValidator;

fn parse(source: &str) -> Result<Program, Vec<Diagnostic>> {
    let mut lexer = Lexer::new("p.sai".to_string(), source);
    let tokens = lexer.tokenize();
    assert!(lexer.into_diagnostics().is_empty());
    let mut parser = Parser::new("p.sai", tokens);
    parser.parse()
}

fn messages(ds: &[Diagnostic]) -> Vec<String> {
    ds.iter().map(|d| d.msg.clone()).collect()
}

#[test]
fn parses_literals_and_calls() {
    let program = parse("19 (+ 1 2.5)").unwrap();
    assert_eq!(program.name, "p.sai");
    assert_eq!(program.expressions.len(), 2);
    match &program.expressions[0] {
        Expr::Literal(l) => {
            assert_eq!(l.ty, LiteralType::Int);
            assert_eq!(l.value, "19");
        }
        other => panic!("unexpected {:?}", other),
    }
    match &program.expressions[1] {
        Expr::Funcall(f) => {
            assert!(matches!(&*f.callee, Expr::Variable(v) if v.value == "+"));
            assert_eq!(f.args.len(), 2);
            assert!(matches!(&f.args[1], Expr::Literal(l) if l.ty == LiteralType::Float));
            assert_eq!(f.position.col, 4);
        }
        other => panic!("unexpected {:?}", other),
    }
}

#[test]
fn parses_declarations() {
    let program = parse("(let (string name) \"Yubai\") (mut (int age) 18) (set! age 19)").unwrap();
    match &program.expressions[0] {
        Expr::Declaration(d) => {
            assert!(!d.mutable);
            assert_eq!(d.signature.name.value, "name");
            assert_eq!(d.position.col, 6);
        }
        other => panic!("unexpected {:?}", other),
    }
    assert!(matches!(&program.expressions[1], Expr::Declaration(d) if d.mutable));
    assert!(matches!(&program.expressions[2], Expr::Assignment(a) if a.variable.value == "age"));
}

#[test]
fn square_brackets_group_as_lists() {
    let program = parse("(let [string name] \"Yubai\") (mut [int age] 18)").unwrap();
    match &program.expressions[0] {
        Expr::Declaration(d) => {
            assert!(!d.mutable);
            assert_eq!(d.signature.name.value, "name");
            assert!(matches!(&*d.value, Expr::Literal(l) if l.ty == LiteralType::String && l.value == "Yubai"));
        }
        other => panic!("unexpected {:?}", other),
    }
    match &program.expressions[1] {
        Expr::Declaration(d) => {
            assert!(d.mutable);
            assert_eq!(d.signature.name.value, "age");
        }
        other => panic!("unexpected {:?}", other),
    }
}

#[test]
fn parses_if_with_elif_and_else() {
    let program = parse(
        "(if (= name \"Jack\") \"Jack\" :elif (= name \"William\") \"William\" :elif (= name \"Truls\") \"Truls\" :else \"Aaron\")",
    )
    .unwrap();
    match &program.expressions[0] {
        Expr::IfExpr(i) => {
            assert_eq!(i.branches.len(), 3);
            assert!(i.else_branch.is_some());
        }
        other => panic!("unexpected {:?}", other),
    }
}

#[test]
fn reports_misplaced_if_keywords() {
    let errors = parse("(if :else 1)").unwrap_err();
    assert_eq!(
        messages(&errors),
        vec!["missing branch before 'else'", "branch requires a condition and at least one body expression"]
    );
}

#[test]
fn parses_a_closure_call() {
    let program = parse("((fn ((int a) int) a) 2)").unwrap();
    match &program.expressions[0] {
        Expr::Funcall(f) => match &*f.callee {
            Expr::Closure(c) => {
                assert_eq!(c.params.len(), 1);
                assert_eq!(c.params[0].name.value, "a");
                assert_eq!(c.body.contents.len(), 1);
            }
            other => panic!("unexpected {:?}", other),
        },
        other => panic!("unexpected {:?}", other),
    }
}

#[test]
fn def_reads_a_signature_then_a_body() {
    let program = parse("(def fib ([int n] int) (if (< n 2) n :else (+ (fib (- n 2)) (fib (- n 1)))))").unwrap();
    match &program.expressions[0] {
        Expr::Defun(d) => {
            assert_eq!(d.name.value, "fib");
            assert_eq!(d.closure.params.len(), 1);
            assert_eq!(d.closure.params[0].name.value, "n");
            assert_eq!(d.closure.body.contents.len(), 1);
            assert!(matches!(&d.closure.body.contents[0], Expr::IfExpr(i) if i.branches.len() == 1 && i.else_branch.is_some()));
        }
        other => panic!("unexpected {:?}", other),
    }
    let program = parse("(def id ((int n) int) n n)").unwrap();
    assert!(matches!(&program.expressions[0], Expr::Defun(d) if d.closure.body.contents.len() == 2));
    let errors = parse("(def id fn ((int n) int) n)").unwrap_err();
    assert_eq!(messages(&errors), vec!["unexpected token", "expected a closure definition"]);
}

#[test]
fn reports_unbalanced_parentheses() {
    let errors = parse("(+ 1 2))").unwrap_err();
    assert_eq!(messages(&errors), vec!["unmatched ')'"]);
    assert_eq!(errors[0].position.col, 8);
    let errors = parse("(+ 1 (f 2)").unwrap_err();
    assert_eq!(messages(&errors), vec!["'(' was never closed"]);
    assert_eq!(errors[0].position.col, 1);
}

#[test]
fn reports_empty_lists_and_literal_heads() {
    let errors = parse("() (1 2)").unwrap_err();
    assert_eq!(messages(&errors), vec!["Empty list", "Unexpected literal"]);
}

#[test]
fn validation_refuses_declarations_as_values() {
    let errors = parse("(f (let (int x) 1))").unwrap_err();
    assert_eq!(messages(&errors), vec!["unexpected variable declaration"]);
    let errors = parse("(if (fn (int) 1) 2)").unwrap_err();
    assert_eq!(messages(&errors), vec!["unexpected closure"]);
    let errors = parse("((not true) 1)").unwrap_err();
    assert_eq!(messages(&errors), vec!["unexpected 'and'"]);
}

#[test]
fn validator_accepts_a_clean_program() {
    let program = parse("(block (mut (int x) 1) (set! x 2) x)").unwrap();
    let mut validator = ASTValidator::new();
    assert!(validator.validate(&program).is_ok());
}

#[test]
fn positions_of_expressions() {
    let program = parse("  (or true false)").unwrap();
    let p = program.expressions[0].get_position();
    assert_eq!((p.line, p.col), (1, 3));
}

#[test]
fn nested_lists_keep_their_order() {
    let program = parse("(f (g 1 2) 3)").unwrap();
    match &program.expressions[0] {
        Expr::Funcall(f) => {
            assert!(matches!(&*f.callee, Expr::Variable(v) if v.value == "f"));
            assert_eq!(f.args.len(), 2);
            match &f.args[0] {
                Expr::Funcall(g) => {
                    assert!(matches!(&*g.callee, Expr::Variable(v) if v.value == "g"));
                    assert!(matches!(&g.args[0], Expr::Literal(l) if l.value == "1"));
                    assert!(matches!(&g.args[1], Expr::Literal(l) if l.value == "2"));
                }
                other => panic!("unexpected {:?}", other),
            }
            assert!(matches!(&f.args[1], Expr::Literal(l) if l.value == "3"));
        }
        other => panic!("unexpected {:?}", other),
    }
}

#[test]
fn copies_of_expressions_are_equal() {
    let program = parse("(def f ((int n) int) (if (> n 1) (block n) :else (f (- n 1))))").unwrap();
    for e in &program.expressions {
        assert_eq!(format!("{:?}", e.duplicate()), format!("{:?}", e));
    }
}

#[test]
fn if_shape_follows_its_keywords() {
    let program = parse("(if a 1 :elif b 2 :elif c 3 :else 4 5) (if a 1 2)").unwrap();
    assert_eq!(program.expressions.len(), 2);
    match &program.expressions[0] {
        Expr::IfExpr(i) => {
            assert_eq!(i.branches.len(), 3);
            assert!(i.branches.iter().all(|b| !b.block.contents.is_empty()));
            match i.else_branch.as_deref() {
                Some(Expr::Block(b)) => assert_eq!(b.contents.len(), 2),
                other => panic!("unexpected {:?}", other),
            }
        }
        other => panic!("unexpected {:?}", other),
    }
    match &program.expressions[1] {
        Expr::IfExpr(i) => {
            assert_eq!(i.branches.len(), 1);
            assert_eq!(i.branches[0].block.contents.len(), 2);
            assert!(i.else_branch.is_none());
        }
        other => panic!("unexpected {:?}", other),
    }
}
