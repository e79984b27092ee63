use sai::parser::keyword::{is_keyword, parse_keyword, Keyword};
use sai::parser::lexer::{Lexer, Token, TokenType};

fn lex(source: &str) -> (Vec<Token>, Vec<sai::diagnostics::Diagnostic>) {
    let mut lexer = Lexer::new("t.sai".to_string(), source);
    let tokens = lexer.tokenize();
    (tokens, lexer.into_diagnostics())
}

#[test]
fn lexes_a_call_with_positions() {
    let (tokens, diags) = lex("(+ 1 2)");
    assert!(diags.is_empty());
    let kinds: Vec<TokenType> = tokens.iter().map(|t| t.ty).collect();
    assert_eq!(
        kinds,
        vec![TokenType::LParen, TokenType::Symbol, TokenType::IntLiteral, TokenType::IntLiteral, TokenType::RParen]
    );
    let cols: Vec<usize> = tokens.iter().map(|t| t.position.col).collect();
    assert_eq!(cols, vec![1, 2, 4, 6, 7]);
    assert_eq!(tokens[1].value, "+");
    assert_eq!(tokens[2].value, "1");
    assert_eq!(tokens[0].value, "");
    assert!(tokens.iter().all(|t| t.position.line == 1 && t.position.file == "t.sai"));
}

#[test]
fn lexes_the_literal_kinds() {
    let (tokens, diags) = lex("19 114.514 \"Hello, Sai\" true false -3 +7 1e3 inf x");
    assert!(diags.is_empty());
    let kinds: Vec<TokenType> = tokens.iter().map(|t| t.ty).collect();
    assert_eq!(
        kinds,
        vec![
            TokenType::IntLiteral,
            TokenType::FloatLiteral,
            TokenType::StringLiteral,
            TokenType::BoolLiteral,
            TokenType::BoolLiteral,
            TokenType::IntLiteral,
            TokenType::IntLiteral,
            TokenType::FloatLiteral,
            TokenType::FloatLiteral,
            TokenType::Symbol,
        ]
    );
    assert_eq!(tokens[2].value, "Hello, Sai");
    assert_eq!(tokens[2].position.col, 12);
}

#[test]
fn integers_out_of_range_read_as_floats() {
    let (tokens, _) = lex("9223372036854775807 9223372036854775808");
    assert_eq!(tokens[0].ty, TokenType::IntLiteral);
    assert_eq!(tokens[1].ty, TokenType::FloatLiteral);
}

#[test]
fn lexes_keywords() {
    let (tokens, _) = lex("let mut set! def fn if :else :elif block or and not lets");
    assert!(tokens[..12].iter().all(|t| t.ty == TokenType::Keyword));
    assert_eq!(tokens[12].ty, TokenType::Symbol);
}

#[test]
fn counts_lines_and_columns() {
    let (tokens, _) = lex("a\n  b\r\n\tc");
    let places: Vec<(usize, usize)> = tokens.iter().map(|t| (t.position.line, t.position.col)).collect();
    assert_eq!(places, vec![(1, 1), (2, 3), (3, 2)]);
}

#[test]
fn unescapes_string_literals() {
    let (tokens, diags) = lex(r#""a\nb\t\"q\"\\\z""#);
    assert!(diags.is_empty());
    assert_eq!(tokens.len(), 1);
    assert_eq!(tokens[0].value, "a\nb\t\"q\"\\z");
}

#[test]
fn reports_a_string_cut_by_the_end_of_input() {
    let (tokens, diags) = lex("\"abc");
    assert!(tokens.is_empty());
    assert_eq!(diags.len(), 1);
    assert_eq!(diags[0].msg, "Unterminated string literal");
    assert_eq!((diags[0].position.line, diags[0].position.col), (1, 5));
}

#[test]
fn reports_a_string_cut_by_a_line_break() {
    let (tokens, diags) = lex("x \"ab\ny");
    assert_eq!(diags.len(), 1);
    assert_eq!(diags[0].msg, "Unterminated string literal");
    assert_eq!((diags[0].position.line, diags[0].position.col), (1, 3));
    assert_eq!(tokens.len(), 2);
    assert_eq!(tokens[1].value, "y");
}

#[test]
fn keyword_lookup() {
    assert!(is_keyword("set!"));
    assert!(is_keyword(":elif"));
    assert!(!is_keyword("set"));
    assert_eq!(parse_keyword("fn"), Keyword::Closure);
    assert_eq!(parse_keyword("set!"), Keyword::SetBang);
    assert_eq!(parse_keyword(":else"), Keyword::Else);
}

#[test]
fn comments_run_to_the_end_of_the_line() {
    let (tokens, diags) = lex("19 ;; int");
    assert!(diags.is_empty());
    assert_eq!(tokens.len(), 1);
    assert_eq!((tokens[0].ty, tokens[0].value.as_str()), (TokenType::IntLiteral, "19"));
    let (tokens, _) = lex("(set! age 19) ;; This is legal.\n  x");
    assert_eq!(tokens.len(), 6);
    assert_eq!(tokens[5].value, "x");
    assert_eq!((tokens[5].position.line, tokens[5].position.col), (2, 3));
    let (tokens, _) = lex(";; \"not a string\n;x a;;b");
    let values: Vec<&str> = tokens.iter().map(|t| t.value.as_str()).collect();
    assert_eq!(values, vec![";x", "a;;b"]);
}

#[test]
fn square_brackets_are_parentheses() {
    let (tokens, _) = lex("[string name]");
    let kinds: Vec<TokenType> = tokens.iter().map(|t| t.ty).collect();
    assert_eq!(kinds, vec![TokenType::LParen, TokenType::Symbol, TokenType::Symbol, TokenType::RParen]);
    assert_eq!(tokens[1].value, "string");
    assert_eq!(tokens[2].value, "name");
}

#[test]
fn tokens_spell_the_source_in_order() {
    let source = "(def f ([int n] int)\n\t(+ n 1.5))";
    let (tokens, diags) = lex(source);
    assert!(diags.is_empty());
    let spelled: String = tokens
        .iter()
        .map(|t| match t.ty {
            TokenType::LParen => "(".to_string(),
            TokenType::RParen => ")".to_string(),
            _ => t.value.clone(),
        })
        .collect();
    let squeezed: String = source
        .chars()
        .filter(|c| !matches!(c, ' ' | '\t' | '\r' | '\n'))
        .map(|c| match c {
            '[' => '(',
            ']' => ')',
            c => c,
        })
        .collect();
    assert_eq!(spelled, squeezed);
    for pair in tokens.windows(2) {
        let (a, b) = (&pair[0].position, &pair[1].position);
        assert!(a.line < b.line || (a.line == b.line && a.col < b.col));
    }
}
