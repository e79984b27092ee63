//! The parser: tokens to token trees to a program.
use vstd::prelude::*;

use crate::ast::{exprs_have_error, view_exprs, Program, SpecProgram};
use crate::diagnostics::{append_diags, diag, diags_view, push_diag, Diagnostic, SpecDiagnostic};
use crate::parser::forms::{emits, exprs_opt, parse_sequence};
use crate::parser::grammar;
use crate::parser::lexer::{tokens_view, SpecToken, Token, TokenType};
use crate::parser::tree::{
    add_tree, lemma_view_trees_index, lemma_view_trees_push, read_trees, view_list, view_tree, view_trees,
    SpecTokenTreeList, TokenTree, TokenTreeList,
};
use crate::parser::validator::{copy_diags, validate_program, ASTValidator};

verus! {

broadcast use crate::text::group_seq_concat;

/// Reads tokens into a program.
#[derive(Debug)]
pub struct Parser {
    file: String,
    tokens: Vec<Token>,
    index: usize,
    diagnostics: Vec<Diagnostic>,
}

/// The state of a [`Parser`]: the file's name, the tokens, how many were read, and what
/// was reported.
pub struct SpecParser {
    pub file: Seq<char>,
    pub tokens: Seq<SpecToken>,
    pub index: usize,
    pub diagnostics: Seq<SpecDiagnostic>,
}

impl View for Parser {
    type V = SpecParser;

    closed spec fn view(&self) -> SpecParser {
        SpecParser {
            file: self.file@,
            tokens: tokens_view(self.tokens@),
            index: self.index,
            diagnostics: diags_view(self.diagnostics@),
        }
    }
}

impl SpecParser {
    /// It never reads past the last token.
    pub open spec fn wf(self) -> bool {
        self.index <= self.tokens.len()
    }
}

/// What parsing gives: the program or all the diagnostics, and the parser's state after.
pub struct ParseOutcome {
    pub result: Result<SpecProgram, Seq<SpecDiagnostic>>,
    pub index: usize,
    pub diagnostics: Seq<SpecDiagnostic>,
}

/// Parsing the tokens from `p.index` on. The tokens are grouped into trees; a parenthesis
/// that does not match is the only diagnostic added. Otherwise each tree is read as an
/// expression; when that reports nothing (and nothing was reported before), the program is
/// validated. The program comes back only when no diagnostic stands at the end.
/// `None`: the input is one on which parsing cannot go on.
pub open spec fn parse_outcome(p: SpecParser) -> Option<ParseOutcome> {
    let (trees, end) = read_trees(p.tokens, p.index as int, seq![], seq![]);
    match trees {
        Err(d) => Some(
            ParseOutcome { result: Err(p.diagnostics.push(d)), index: end as usize, diagnostics: p.diagnostics.push(d) },
        ),
        Ok(ts) => match grammar::parse_sequence(ts, 0, ts.len() as int) {
            None => None,
            Some((exprs, ds)) => {
                let diags = p.diagnostics + ds;
                let program = SpecProgram { name: p.file, expressions: exprs };
                if diags.len() == 0 {
                    match validate_program(program) {
                        None => None,
                        Some(vds) => if vds.len() == 0 {
                            Some(ParseOutcome { result: Ok(program), index: end as usize, diagnostics: vds })
                        } else {
                            Some(ParseOutcome { result: Err(vds), index: end as usize, diagnostics: vds })
                        },
                    }
                } else {
                    Some(ParseOutcome { result: Err(diags), index: end as usize, diagnostics: diags })
                }
            },
        },
    }
}

/// The value of a parse's result.
pub open spec fn parse_result_view(r: Result<Program, Vec<Diagnostic>>) -> Result<SpecProgram, Seq<SpecDiagnostic>> {
    match r {
        Ok(p) => Ok(p@),
        Err(ds) => Err(diags_view(ds@)),
    }
}

pub open spec fn lists_view(s: Seq<TokenTreeList>) -> Seq<SpecTokenTreeList> {
    s.map_values(|l: TokenTreeList| view_list(l))
}

impl Parser {
    /// A parser at the first of `tokens`, of the file named `file`.
    pub fn new(file: &str, tokens: Vec<Token>) -> (r: Self)
        ensures
            r@ == (SpecParser {
                file: file@,
                tokens: tokens_view(tokens@),
                index: 0,
                diagnostics: Seq::<SpecDiagnostic>::empty(),
            }),
    {
        let r = Parser { file: crate::text::owned(file), tokens: tokens, index: 0, diagnostics: Vec::new() };
        assert(diags_view(r.diagnostics@) =~= Seq::<SpecDiagnostic>::empty());
        r
    }

    /// Parses the remaining tokens into a program, or gives all the diagnostics. The tokens
    /// must be such that parsing can go on (see [`parse_outcome`]); [`Parser::try_parse`]
    /// tells.
    pub fn parse(&mut self) -> (r: Result<Program, Vec<Diagnostic>>)
        requires
            old(self)@.wf(),
            parse_outcome(old(self)@) is Some,
        ensures
            final(self)@.wf(),
            final(self)@.file == old(self)@.file,
            final(self)@.tokens == old(self)@.tokens,
            final(self)@.index == parse_outcome(old(self)@)->0.index,
            final(self)@.diagnostics == parse_outcome(old(self)@)->0.diagnostics,
            parse_result_view(r) == parse_outcome(old(self)@)->0.result,
    {
        match self.try_parse() {
            Some(r) => r,
            None => {
                assert(false);
                Err(Vec::new())
            },
        }
    }

    /// As [`Parser::parse`], or `None` on the tokens on which parsing cannot go on.
    pub fn try_parse(&mut self) -> (r: Option<Result<Program, Vec<Diagnostic>>>)
        requires
            old(self)@.wf(),
        ensures
            match parse_outcome(old(self)@) {
                None => r is None,
                Some(o) => {
                    &&& r is Some
                    &&& final(self)@.wf()
                    &&& final(self)@.file == old(self)@.file
                    &&& final(self)@.tokens == old(self)@.tokens
                    &&& final(self)@.index == o.index
                    &&& final(self)@.diagnostics == o.diagnostics
                    &&& parse_result_view(r->0) == o.result
                },
            },
    {
        let ghost start = self@;
        match self.read_all_tokentrees() {
            Ok(trees) => {
                proof {
                    lemma_view_trees_index(trees@);
                }
                let exprs = parse_sequence(&mut self.diagnostics, &trees, 0, trees.len())?;
                let program = Program { name: self.file.clone(), expressions: exprs };
                if self.diagnostics.len() == 0 {
                    let mut validator = ASTValidator::new();
                    match validator.try_validate(&program)? {
                        Err(e) => {
                            append_diags(&mut self.diagnostics, e);
                            Some(Err(copy_diags(&self.diagnostics)))
                        },
                        Ok(()) => Some(Ok(program)),
                    }
                } else {
                    Some(Err(copy_diags(&self.diagnostics)))
                }
            },
            Err(d) => {
                push_diag(&mut self.diagnostics, d);
                Some(Err(copy_diags(&self.diagnostics)))
            },
        }
    }

    /// Groups the remaining tokens into trees.
    fn read_all_tokentrees(&mut self) -> (r: Result<Vec<TokenTree>, Diagnostic>)
        requires
            old(self)@.wf(),
        ensures
            final(self)@.wf(),
            final(self)@.file == old(self)@.file,
            final(self)@.tokens == old(self)@.tokens,
            final(self)@.diagnostics == old(self)@.diagnostics,
            ({
                let (res, end) = read_trees(old(self)@.tokens, old(self)@.index as int, seq![], seq![]);
                &&& final(self)@.index == end
                &&& match (r, res) {
                    (Ok(ts), Ok(sts)) => view_trees(ts@) == sts,
                    (Err(d), Err(sd)) => d@ == sd,
                    _ => false,
                }
            }),
    {
        let mut stack: Vec<TokenTreeList> = Vec::new();
        let mut top: Vec<TokenTree> = Vec::new();
        assert(lists_view(stack@) =~= seq![]);
        assert(view_trees(top@) =~= seq![]);
        while self.index < self.tokens.len()
            invariant
                self@.wf(),
                self@.file == old(self)@.file,
                self@.tokens == old(self)@.tokens,
                self@.diagnostics == old(self)@.diagnostics,
                old(self)@.index <= self.index,
                read_trees(self@.tokens, old(self)@.index as int, seq![], seq![]) == read_trees(
                    self@.tokens,
                    self.index as int,
                    lists_view(stack@),
                    view_trees(top@),
                ),
            decreases self.tokens.len() - self.index,
        {
            let token = &self.tokens[self.index];
            assert(self@.tokens[self.index as int] == token@);
            if token.ty == TokenType::LParen {
                let l = TokenTreeList { position: token.position.duplicate(), items: Vec::new() };
                assert(view_list(l) == SpecTokenTreeList { position: token@.position, items: seq![] }) by {
                    assert(view_trees(l.items@) =~= seq![]);
                }
                assert(lists_view(stack@.push(l)) =~= lists_view(stack@).push(view_list(l)));
                stack.push(l);
            } else if token.ty == TokenType::RParen {
                if stack.len() == 0 {
                    return Err(Diagnostic::new(token.position.duplicate(), "unmatched ')'"));
                }
                let ghost before = stack@;
                let l = stack.pop().unwrap();
                assert(lists_view(stack@) =~= lists_view(before).drop_last());
                assert(view_tree(TokenTree::List(l)) == crate::parser::tree::SpecTokenTree::List(view_list(l)));
                add_tree_exec(&mut stack, &mut top, TokenTree::List(l));
            } else {
                let tok = token.duplicate();
                add_tree_exec(&mut stack, &mut top, TokenTree::Token(tok));
            }
            self.index = self.index + 1;
        }
        if stack.len() == 0 {
            Ok(top)
        } else {
            let last = &stack[stack.len() - 1];
            assert(lists_view(stack@).last() == view_list(*last));
            assert(view_list(*last).position == last.position@);
            Err(Diagnostic::new(last.position.duplicate(), "'(' was never closed"))
        }
    }
}

/// Adds `tree` to the innermost open list, or to the finished trees when none is open.
fn add_tree_exec(stack: &mut Vec<TokenTreeList>, top: &mut Vec<TokenTree>, tree: TokenTree)
    ensures
        (lists_view(final(stack)@), view_trees(final(top)@)) == add_tree(
            lists_view(old(stack)@),
            view_trees(old(top)@),
            view_tree(tree),
        ),
{
    if stack.len() == 0 {
        proof {
            lemma_view_trees_push(top@, tree);
        }
        top.push(tree);
        assert(lists_view(stack@) =~= lists_view(old(stack)@));
    } else {
        let ghost before = stack@;
        let mut l = stack.pop().unwrap();
        let ghost old_l = l;
        proof {
            lemma_view_trees_push(l.items@, tree);
        }
        l.items.push(tree);
        assert(view_list(l) == SpecTokenTreeList {
            position: view_list(old_l).position,
            items: view_list(old_l).items.push(view_tree(tree)),
        });
        stack.push(l);
        assert(lists_view(stack@) =~= lists_view(before).drop_last().push(view_list(l)));
        assert(lists_view(before).last() == view_list(old_l));
    }
}

/// Parsing gives a program exactly when no diagnostic is left, and that program passes
/// validation without a diagnostic; otherwise it gives all the diagnostics the parser holds
/// after, and there is at least one.
pub proof fn lemma_parse_ok_iff_clean(p: SpecParser)
    requires
        parse_outcome(p) is Some,
    ensures
        match parse_outcome(p)->0.result {
            Ok(program) => parse_outcome(p)->0.diagnostics.len() == 0 && validate_program(program) == Some(
                Seq::<SpecDiagnostic>::empty(),
            ),
            Err(ds) => ds.len() > 0 && ds == parse_outcome(p)->0.diagnostics,
        },
{
    let (trees, end) = read_trees(p.tokens, p.index as int, seq![], seq![]);
    if let Ok(ts) = trees {
        if let Some((exprs, ds)) = grammar::parse_sequence(ts, 0, ts.len() as int) {
            let program = SpecProgram { name: p.file, expressions: exprs };
            if (p.diagnostics + ds).len() == 0 {
                if let Some(vds) = validate_program(program) {
                    assert(vds.len() == 0 ==> vds =~= Seq::<SpecDiagnostic>::empty());
                }
            }
        }
    }
}

/// A parsed program is named after the file, holds one expression per top-level tree,
/// and has no `Error` at any depth.
pub proof fn lemma_parse_one_expression_per_tree(p: SpecParser)
    requires
        parse_outcome(p) is Some,
    ensures
        parse_outcome(p)->0.result matches Ok(program) ==> {
            &&& program.name == p.file
            &&& read_trees(p.tokens, p.index as int, seq![], seq![]).0 matches Ok(ts)
            &&& program.expressions.len() == ts.len()
            &&& !exprs_have_error(program.expressions)
        },
{
    let (trees, end) = read_trees(p.tokens, p.index as int, seq![], seq![]);
    if let Ok(ts) = trees {
        grammar::lemma_parse_sequence_len(ts, 0, ts.len() as int, (seq![], seq![]));
        grammar::lemma_clean_sequence(ts, 0, ts.len() as int);
    }
}

} // verus!
