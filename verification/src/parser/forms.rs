//! Reading token trees as expressions.
use vstd::prelude::*;

use crate::ast::{
    view_block, view_closure, view_exprs, view_parameters, lemma_view_exprs_push, AndExpr, Assignment, Block,
    Branch, Closure, Declaration, Defun, Expr, Funcall, IfExpr, Literal, LiteralType, NotExpr, OrExpr,
    Parameter, SpecExpr, TypeAnnotation, TypeExpr, Variable, VariableSignature, lemma_view_branches_push,
    view_branches,
};
use crate::diagnostics::{append_diags, diags_view, push_diag, report, Diagnostic, SpecDiagnostic};
use crate::parser::grammar::{self, reported, IfState, Parsed};
use crate::parser::keyword::{is_keyword, parse_keyword, Keyword};
use crate::parser::lexer::{Token, TokenType};
use crate::parser::tree::{lemma_view_trees_index, view_list, view_tree, view_trees, TokenTree, TokenTreeList};
use crate::position::Position;

verus! {

broadcast use crate::text::group_seq_concat;

/// Whether a reading gave `got` and reported the diagnostics `expected` promises, the
/// diagnostics having gone from `before` to `after`; `None` expected means none was given.
pub open spec fn emits<V>(got: Option<V>, expected: Parsed<V>, before: Seq<Diagnostic>, after: Seq<Diagnostic>) -> bool {
    match expected {
        None => got is None,
        Some((v, ds)) => got == Some(v) && diags_view(after) == diags_view(before) + ds,
    }
}

pub open spec fn expr_opt(r: Option<Expr>) -> Option<SpecExpr> {
    match r {
        Some(e) => Some(e@),
        None => None,
    }
}

pub open spec fn exprs_opt(r: Option<Vec<Expr>>) -> Option<Seq<SpecExpr>> {
    match r {
        Some(es) => Some(view_exprs(es@)),
        None => None,
    }
}

pub open spec fn result_opt<T: View, E: View>(r: Option<Result<T, E>>) -> Option<Result<T::V, E::V>> {
    match r {
        Some(Ok(t)) => Some(Ok(t@)),
        Some(Err(e)) => Some(Err(e@)),
        None => None,
    }
}

pub open spec fn list_result_opt<T: View>(r: Option<Result<T, Vec<Diagnostic>>>) -> Option<
    Result<T::V, Seq<SpecDiagnostic>>,
> {
    match r {
        Some(Ok(t)) => Some(Ok(t@)),
        Some(Err(e)) => Some(Err(diags_view(e@))),
        None => None,
    }
}

/// What a list's value is made of.
pub proof fn lemma_view_list(l: TokenTreeList)
    ensures
        view_list(l).position == l.position@,
        view_list(l).items == view_trees(l.items@),
        view_trees(l.items@).len() == l.items@.len(),
        forall|i: int| 0 <= i < l.items@.len() ==> #[trigger] view_trees(l.items@)[i] == view_tree(l.items@[i]),
{
    lemma_view_trees_index(l.items@);
}

fn one_diag(d: Diagnostic) -> (r: Vec<Diagnostic>)
    ensures
        diags_view(r@) == seq![d@],
{
    let mut v: Vec<Diagnostic> = Vec::new();
    v.push(d);
    assert(diags_view(v@) =~= seq![d@]);
    v
}

/// A token read as an expression.
pub fn parse_token(diags: &mut Vec<Diagnostic>, token: &Token) -> (r: Expr)
    ensures
        r@ == grammar::parse_token(token@).0,
        diags_view(final(diags)@) == diags_view(old(diags)@) + grammar::parse_token(token@).1,
{
    match token.ty {
        TokenType::LParen | TokenType::RParen => {
            report(diags, token.position.duplicate(), "Unexpected paren");
            Expr::Error
        },
        TokenType::Keyword => {
            report(diags, token.position.duplicate(), "Unexpected keyword");
            Expr::Error
        },
        TokenType::Symbol => {
            assert(diags_view(diags@) =~= diags_view(diags@) + seq![]);
            Expr::Variable(Variable { position: token.position.duplicate(), value: token.value.clone() })
        },
        _ => parse_literal(diags, token),
    }
}

/// A literal token read as a literal.
pub fn parse_literal(diags: &mut Vec<Diagnostic>, token: &Token) -> (r: Expr)
    ensures
        r@ == grammar::parse_literal(token@).0,
        diags_view(final(diags)@) == diags_view(old(diags)@) + grammar::parse_literal(token@).1,
{
    let ty = match token.ty {
        TokenType::IntLiteral => LiteralType::Int,
        TokenType::FloatLiteral => LiteralType::Float,
        TokenType::BoolLiteral => LiteralType::Bool,
        TokenType::StringLiteral => LiteralType::String,
        _ => {
            report(diags, token.position.duplicate(), "expeceted literal");
            return Expr::Error;
        },
    };
    assert(diags_view(diags@) =~= diags_view(diags@) + seq![]);
    Expr::Literal(Literal { position: token.position.duplicate(), ty, value: token.value.clone() })
}

/// Reads the trees `s[lo..hi]`, in order.
pub fn parse_sequence(diags: &mut Vec<Diagnostic>, s: &Vec<TokenTree>, lo: usize, hi: usize) -> (r: Option<
    Vec<Expr>,
>)
    requires
        lo <= hi <= s@.len(),
    ensures
        emits(exprs_opt(r), grammar::parse_sequence(view_trees(s@), lo as int, hi as int), old(diags)@, final(diags)@),
    decreases s, s@.len() + 1,
{
    let ghost st = view_trees(s@);
    proof {
        lemma_view_trees_index(s@);
    }
    let mut out: Vec<Expr> = Vec::new();
    let ghost mut ds: Seq<SpecDiagnostic> = seq![];
    let mut i = lo;
    assert(view_exprs(out@) =~= seq![]);
    assert(diags_view(diags@) =~= diags_view(old(diags)@) + ds);
    while i < hi
        invariant
            lo <= i <= hi <= s@.len(),
            st == view_trees(s@),
            st.len() == s@.len(),
            forall|j: int| 0 <= j < s@.len() ==> #[trigger] st[j] == view_tree(s@[j]),
            diags_view(diags@) == diags_view(old(diags)@) + ds,
            grammar::parse_sequence(st, lo as int, hi as int) == grammar::parse_sequence_from(
                st,
                i as int,
                hi as int,
                (view_exprs(out@), ds),
            ),
        decreases hi - i,
    {
        let ghost before = diags@;
        match parse_tree(diags, &s[i]) {
            None => {
                return None;
            },
            Some(e) => {
                proof {
                    lemma_view_exprs_push(out@, e);
                    let d = reported(grammar::parse_tree(st[i as int]));
                    ds = ds + d;
                    assert(diags_view(diags@) == diags_view(old(diags)@) + ds);
                }
                out.push(e);
                i = i + 1;
            },
        }
    }
    Some(out)
}

/// A token tree read as an expression.
pub fn parse_tree(diags: &mut Vec<Diagnostic>, t: &TokenTree) -> (r: Option<Expr>)
    ensures
        emits(expr_opt(r), grammar::parse_tree(t@), old(diags)@, final(diags)@),
    decreases t, 0int,
{
    match t {
        TokenTree::Token(token) => {
            let e = parse_token(diags, token);
            Some(e)
        },
        TokenTree::List(list) => {
            proof {
                lemma_view_list(*list);
            }
            if list.items.len() == 0 {
                report(diags, list.position.duplicate(), "Empty list");
                return Some(Expr::Error);
            }
            match &list.items[0] {
                TokenTree::Token(token) => match token.ty {
                    TokenType::Keyword => parse_special_form(diags, token, list),
                    TokenType::Symbol => parse_funcall(diags, list),
                    TokenType::IntLiteral | TokenType::FloatLiteral | TokenType::StringLiteral
                    | TokenType::BoolLiteral => {
                        report(diags, token.position.duplicate(), "Unexpected literal");
                        Some(Expr::Error)
                    },
                    _ => {
                        report(diags, token.position.duplicate(), "Unexpected token");
                        Some(Expr::Error)
                    },
                },
                TokenTree::List(_) => parse_funcall(diags, list),
            }
        },
    }
}

/// A list that starts with the keyword token `token`.
fn parse_special_form(diags: &mut Vec<Diagnostic>, token: &Token, list: &TokenTreeList) -> (r: Option<Expr>)
    requires
        list.items@.len() > 0,
    ensures
        emits(expr_opt(r), grammar::parse_special_form(token@, list@), old(diags)@, final(diags)@),
    decreases list, list.items@.len() + 20,
{
    proof {
        lemma_view_list(*list);
    }
    if !is_keyword(token.value.as_str()) {
        return None;
    }
    match parse_keyword(token.value.as_str()) {
        Keyword::Block => parse_block(diags, list),
        Keyword::Def => parse_defun(diags, list),
        Keyword::Let => parse_declaration(diags, list, false),
        Keyword::Mut => parse_declaration(diags, list, true),
        Keyword::SetBang => parse_assignment(diags, list),
        Keyword::If => parse_if(diags, list),
        Keyword::Closure => parse_closure_at(diags, &list.items, 0, list.items.len(), list.position.duplicate()),
        Keyword::Or => parse_conditions(diags, list, true),
        Keyword::And => parse_conditions(diags, list, false),
        Keyword::Not => parse_not(diags, list),
        Keyword::Else | Keyword::Elif => {
            report(diags, list.position.duplicate(), "Unexpected keyword");
            Some(Expr::Error)
        },
    }
}

/// A call: the first item is the callee, the others the arguments.
fn parse_funcall(diags: &mut Vec<Diagnostic>, list: &TokenTreeList) -> (r: Option<Expr>)
    requires
        list.items@.len() > 0,
    ensures
        emits(expr_opt(r), grammar::parse_funcall(list@), old(diags)@, final(diags)@),
    decreases list, 1int,
{
    proof {
        lemma_view_list(*list);
    }
    let callee = parse_tree(diags, &list.items[0])?;
    let args = parse_sequence(diags, &list.items, 1, list.items.len())?;
    proof {
        assert(diags_view(diags@) =~= diags_view(old(diags)@) + reported(grammar::parse_tree(list@.items[0]))
            + reported(grammar::parse_sequence(list@.items, 1, list@.items.len() as int)));
    }
    Some(Expr::Funcall(Funcall { position: list.position.duplicate(), callee: Box::new(callee), args }))
}

/// `(block e...)`.
fn parse_block(diags: &mut Vec<Diagnostic>, list: &TokenTreeList) -> (r: Option<Expr>)
    requires
        list.items@.len() > 0,
    ensures
        emits(expr_opt(r), grammar::parse_block(list@), old(diags)@, final(diags)@),
    decreases list, 1int,
{
    proof {
        lemma_view_list(*list);
    }
    let contents = parse_sequence(diags, &list.items, 1, list.items.len())?;
    let b = Block { position: list.position.duplicate(), contents };
    assert(view_block(b).contents == view_exprs(b.contents@));
    Some(Expr::Block(b))
}

/// A tree read as a variable.
fn parse_variable(diags: &mut Vec<Diagnostic>, t: &TokenTree) -> (r: Option<Result<Variable, Diagnostic>>)
    ensures
        emits(result_opt(r), grammar::parse_variable(t@), old(diags)@, final(diags)@),
    decreases t, 1int,
{
    match parse_tree(diags, t)? {
        Expr::Variable(var) => Some(Ok(var)),
        _ => Some(Err(Diagnostic::new(t.get_position(), "expected variable"))),
    }
}

/// A tree read as a type name.
fn parse_type(diags: &mut Vec<Diagnostic>, t: &TokenTree) -> (r: Option<Result<TypeAnnotation, Diagnostic>>)
    ensures
        emits(result_opt(r), grammar::parse_type(t@), old(diags)@, final(diags)@),
    decreases t, 2int,
{
    match parse_variable(diags, t)? {
        Ok(ty) => Some(Ok(TypeAnnotation { position: ty.position, value: TypeExpr::Named(ty.value) })),
        Err(_) => Some(Err(Diagnostic::new(t.get_position(), "improper form of type"))),
    }
}

/// `(def name signature body...)`.
fn parse_defun(diags: &mut Vec<Diagnostic>, list: &TokenTreeList) -> (r: Option<Expr>)
    ensures
        emits(expr_opt(r), grammar::parse_defun(list@), old(diags)@, final(diags)@),
    decreases list, 1int,
{
    proof {
        lemma_view_list(*list);
    }
    if list.items.len() <= 3 {
        report(diags, list.position.duplicate(), "improper form of defing a function");
        return Some(Expr::Error);
    }
    let name = match parse_variable(diags, &list.items[1])? {
        Ok(name) => name,
        Err(e) => {
            push_diag(diags, e);
            return Some(Expr::Error);
        },
    };
    let ghost mid = diags@;
    let closure = parse_closure_at(diags, &list.items, 1, list.items.len(), list.items[2].get_position())?;
    if let Expr::Closure(closure) = closure {
        proof {
            assert(diags_view(diags@) =~= diags_view(old(diags)@) + reported(grammar::parse_variable(list@.items[1]))
                + (reported(grammar::parse_closure_at(list@.items, 1, list@.items.len() as int, crate::parser::tree::tree_position(list@.items[2])))));
        }
        Some(Expr::Defun(Defun { position: list.position.duplicate(), name, closure }))
    } else {
        report(diags, list.items[2].get_position(), "expected a closure definition");
        Some(Expr::Error)
    }
}

/// The items `s[lo..hi]`, at `pos`, read as a closure: the item at `lo` is passed over,
/// then come the signature and the body.
fn parse_closure_at(diags: &mut Vec<Diagnostic>, s: &Vec<TokenTree>, lo: usize, hi: usize, pos: Position) -> (r:
    Option<Expr>)
    requires
        lo <= hi <= s@.len(),
    ensures
        emits(expr_opt(r), grammar::parse_closure_at(view_trees(s@), lo as int, hi as int, pos@), old(diags)@, final(diags)@),
    decreases s, s@.len() + 2,
{
    proof {
        lemma_view_trees_index(s@);
    }
    if hi - lo <= 2 {
        report(diags, pos, "improper form of defining a closure");
        return Some(Expr::Error);
    }
    let body_exprs = parse_sequence(diags, s, lo + 2, hi)?;
    let body = Block { position: s[lo + 2].get_position(), contents: body_exprs };
    match &s[lo + 1] {
        TokenTree::Token(token) => {
            report(diags, token.position.duplicate(), "unexpected token");
            Some(Expr::Error)
        },
        TokenTree::List(signature) => {
            proof {
                lemma_view_list(*signature);
            }
            let ghost mid = diags@;
            match parse_closure_signature(diags, signature)? {
                Ok((params, return_type)) => {
                    let c = Closure { position: pos, params, return_type, body };
                    assert(view_closure(c).body == view_block(body));
                    assert(view_block(body).contents == view_exprs(body.contents@));
                    Some(Expr::Closure(c))
                },
                Err(es) => {
                    append_diags(diags, es);
                    Some(Expr::Error)
                },
            }
        },
    }
}

/// `(p... ret)`: the parameters, then the return type.
fn parse_closure_signature(diags: &mut Vec<Diagnostic>, list: &TokenTreeList) -> (r: Option<
    Result<(Vec<Parameter>, TypeAnnotation), Vec<Diagnostic>>,
>)
    ensures
        match grammar::parse_closure_signature(list@) {
            None => r is None,
            Some((res, ds)) => r is Some && diags_view(final(diags)@) == diags_view(old(diags)@) + ds
                && match (r->0, res) {
                (Ok((ps, rt)), Ok((sps, srt))) => view_parameters(ps@) == sps && rt@ == srt,
                (Err(es), Err(ses)) => diags_view(es@) == ses,
                _ => false,
            },
        },
    decreases list, 0int,
{
    proof {
        lemma_view_list(*list);
    }
    let n = list.items.len();
    if n == 0 {
        return Some(Err(one_diag(Diagnostic::new(list.position.duplicate(), "expected type"))));
    }
    if n == 1 {
        return match parse_type(diags, &list.items[0])? {
            Ok(return_ty) => {
                let ps: Vec<Parameter> = Vec::new();
                assert(view_parameters(ps@) =~= seq![]);
                Some(Ok((ps, return_ty)))
            },
            Err(e) => Some(Err(one_diag(e))),
        };
    }
    let return_ty = match parse_type(diags, &list.items[n - 1])? {
        Ok(return_ty) => return_ty,
        Err(e) => {
            return Some(Err(one_diag(e)));
        },
    };
    let ghost items = list@.items;
    let ghost d1 = reported(grammar::parse_type(items[n - 1]));
    let mut parameters: Vec<Parameter> = Vec::new();
    let mut errors: Vec<Diagnostic> = Vec::new();
    let ghost mut ds: Seq<SpecDiagnostic> = seq![];
    let mut i: usize = 0;
    assert(view_parameters(parameters@) =~= seq![]);
    assert(diags_view(errors@) =~= seq![]);
    assert(ds =~= seq![] + ds);
    while i < n - 1
        invariant
            n == list.items@.len(),
            n >= 2,
            i <= n - 1,
            items == list@.items,
            items == view_trees(list.items@),
            items.len() == n,
            forall|j: int| 0 <= j < n ==> #[trigger] items[j] == view_tree(list.items@[j]),
            diags_view(diags@) == diags_view(old(diags)@) + d1 + ds,
            grammar::parse_type(items[n - 1]) is Some,
            grammar::parse_type(items[n - 1])->0 .0 == Ok::<crate::ast::SpecTypeAnnotation, SpecDiagnostic>(return_ty@),
            grammar::parse_params(items, 0, n - 1, ((seq![], seq![]), seq![])) == grammar::parse_params(
                items,
                i as int,
                n - 1,
                ((view_parameters(parameters@), diags_view(errors@)), ds),
            ),
        decreases n - 1 - i,
    {
        let ghost before = diags@;
        match parse_param_item(diags, &list.items[i])? {
            Ok(p) => {
                assert(view_parameters(parameters@.push(p)) =~= view_parameters(parameters@).push(p@));
                parameters.push(p);
            },
            Err(e) => {
                assert(diags_view(errors@.push(e)) =~= diags_view(errors@).push(e@));
                errors.push(e);
            },
        }
        proof {
            ds = ds + reported(grammar::parse_param_item(items[i as int]));
            assert(diags_view(diags@) =~= diags_view(old(diags)@) + d1 + ds);
        }
        i = i + 1;
    }
    proof {
        assert(diags_view(diags@) =~= diags_view(old(diags)@) + (d1 + ds));
    }
    if errors.len() == 0 {
        Some(Ok((parameters, return_ty)))
    } else {
        Some(Err(errors))
    }
}

/// One item of a parameter list.
fn parse_param_item(diags: &mut Vec<Diagnostic>, t: &TokenTree) -> (r: Option<Result<Parameter, Diagnostic>>)
    ensures
        emits(result_opt(r), grammar::parse_param_item(t@), old(diags)@, final(diags)@),
    decreases t, 3int,
{
    match t {
        TokenTree::Token(token) => {
            assert(diags_view(diags@) =~= diags_view(diags@) + seq![]);
            Some(Err(Diagnostic::new(token.position.duplicate(), "expected parameter")))
        },
        TokenTree::List(list) => parse_parameter(diags, list),
    }
}

/// `(type name)`.
fn parse_parameter(diags: &mut Vec<Diagnostic>, list: &TokenTreeList) -> (r: Option<Result<Parameter, Diagnostic>>)
    ensures
        emits(result_opt(r), grammar::parse_parameter(list@), old(diags)@, final(diags)@),
    decreases list, 0int,
{
    proof {
        lemma_view_list(*list);
    }
    if list.items.len() == 2 {
        let annotation = match parse_type(diags, &list.items[0])? {
            Ok(a) => a,
            Err(e) => {
                return Some(Err(e));
            },
        };
        let ghost mid = diags@;
        match parse_tree(diags, &list.items[1])? {
            Expr::Variable(name) => {
                assert(diags_view(diags@) =~= diags_view(old(diags)@) + reported(grammar::parse_type(list@.items[0]))
                    + reported(grammar::parse_tree(list@.items[1])));
                Some(Ok(Parameter { position: list.position.duplicate(), name, ty: annotation }))
            },
            _ => {
                assert(diags_view(diags@) =~= diags_view(old(diags)@) + reported(grammar::parse_type(list@.items[0]))
                    + reported(grammar::parse_tree(list@.items[1])));
                Some(Err(Diagnostic::new(list.position.duplicate(), "expected name")))
            },
        }
    } else {
        assert(diags_view(diags@) =~= diags_view(diags@) + seq![]);
        Some(Err(Diagnostic::new(list.position.duplicate(), "improper form of a parameter")))
    }
}

/// `(let [type name] value)`, or `mut`.
fn parse_declaration(diags: &mut Vec<Diagnostic>, list: &TokenTreeList, mutable: bool) -> (r: Option<Expr>)
    ensures
        emits(expr_opt(r), grammar::parse_declaration(list@, mutable), old(diags)@, final(diags)@),
    decreases list, 1int,
{
    proof {
        lemma_view_list(*list);
    }
    if list.items.len() != 3 {
        report(diags, list.position.duplicate(), "bad syntax for declaration");
        return Some(Expr::Error);
    }
    let value = parse_tree(diags, &list.items[2])?;
    match &list.items[1] {
        TokenTree::List(signature) => {
            proof {
                lemma_view_list(*signature);
            }
            let ghost mid = diags@;
            match parse_variable_signature(diags, signature)? {
                Ok(signature_value) => {
                    assert(diags_view(diags@) =~= diags_view(old(diags)@) + reported(grammar::parse_tree(list@.items[2]))
                        + reported(grammar::parse_variable_signature(signature@)));
                    Some(
                        Expr::Declaration(
                            Declaration {
                                position: signature.position.duplicate(),
                                signature: signature_value,
                                value: Box::new(value),
                                mutable,
                            },
                        ),
                    )
                },
                Err(es) => {
                    append_diags(diags, es);
                    Some(Expr::Error)
                },
            }
        },
        TokenTree::Token(_) => {
            report(diags, list.position.duplicate(), "bad syntax for declaration");
            Some(Expr::Error)
        },
    }
}

/// `[type name]`.
fn parse_variable_signature(diags: &mut Vec<Diagnostic>, list: &TokenTreeList) -> (r: Option<
    Result<VariableSignature, Vec<Diagnostic>>,
>)
    ensures
        emits(list_result_opt(r), grammar::parse_variable_signature(list@), old(diags)@, final(diags)@),
    decreases list, 0int,
{
    proof {
        lemma_view_list(*list);
    }
    if list.items.len() == 2 {
        let tr = parse_type(diags, &list.items[0])?;
        let vr = parse_variable(diags, &list.items[1])?;
        assert(diags_view(diags@) =~= diags_view(old(diags)@) + (reported(grammar::parse_type(list@.items[0]))
            + reported(grammar::parse_variable(list@.items[1]))));
        match (tr, vr) {
            (Ok(ty), Ok(name)) => Some(Ok(VariableSignature { ty, name })),
            (Err(e1), Err(e2)) => {
                let mut v: Vec<Diagnostic> = Vec::new();
                v.push(e1);
                v.push(e2);
                assert(diags_view(v@) =~= seq![e1@, e2@]);
                Some(Err(v))
            },
            (Err(e), Ok(_)) => Some(Err(one_diag(e))),
            (Ok(_), Err(e)) => Some(Err(one_diag(e))),
        }
    } else {
        assert(diags_view(diags@) =~= diags_view(diags@) + seq![]);
        Some(Err(one_diag(Diagnostic::new(list.position.duplicate(), "improper form of variable signature"))))
    }
}

/// `(set! name value)`.
fn parse_assignment(diags: &mut Vec<Diagnostic>, list: &TokenTreeList) -> (r: Option<Expr>)
    ensures
        emits(expr_opt(r), grammar::parse_assignment(list@), old(diags)@, final(diags)@),
    decreases list, 1int,
{
    proof {
        lemma_view_list(*list);
    }
    if list.items.len() != 3 {
        report(diags, list.position.duplicate(), "bad syntax for assignment");
        return Some(Expr::Error);
    }
    match parse_tree(diags, &list.items[1])? {
        Expr::Variable(var) => {
            let value = parse_tree(diags, &list.items[2])?;
            assert(diags_view(diags@) =~= diags_view(old(diags)@) + (reported(grammar::parse_tree(list@.items[1]))
                + reported(grammar::parse_tree(list@.items[2]))));
            Some(Expr::Assignment(Assignment { position: list.position.duplicate(), variable: var, value: Box::new(value) }))
        },
        _ => {
            report(diags, list.position.duplicate(), "expected a variable");
            Some(Expr::Error)
        },
    }
}

/// `(or c...)` when `is_or`, else `(and c...)`.
fn parse_conditions(diags: &mut Vec<Diagnostic>, list: &TokenTreeList, is_or: bool) -> (r: Option<Expr>)
    ensures
        emits(expr_opt(r), grammar::parse_conditions(list@, is_or), old(diags)@, final(diags)@),
    decreases list, 1int,
{
    proof {
        lemma_view_list(*list);
    }
    if list.items.len() <= 2 {
        if is_or {
            report(diags, list.position.duplicate(), "'or' requires at least 2 argument");
        } else {
            report(diags, list.position.duplicate(), "'and' requires at least 2 arguments");
        }
        return Some(Expr::Error);
    }
    let conditions = parse_sequence(diags, &list.items, 1, list.items.len())?;
    if is_or {
        Some(Expr::Or(OrExpr { position: list.position.duplicate(), conditions }))
    } else {
        Some(Expr::And(AndExpr { position: list.position.duplicate(), conditions }))
    }
}

/// `(not c)`.
fn parse_not(diags: &mut Vec<Diagnostic>, list: &TokenTreeList) -> (r: Option<Expr>)
    ensures
        emits(expr_opt(r), grammar::parse_not(list@), old(diags)@, final(diags)@),
    decreases list, 1int,
{
    proof {
        lemma_view_list(*list);
    }
    if list.items.len() != 2 {
        report(diags, list.position.duplicate(), "'not' requires only 1 argument.");
        return Some(Expr::Error);
    }
    let condition = parse_tree(diags, &list.items[1])?;
    Some(Expr::Not(NotExpr { position: list.position.duplicate(), condition: Box::new(condition) }))
}

/// The items `s[lo..hi]` read as a branch.
fn parse_branch(diags: &mut Vec<Diagnostic>, s: &Vec<TokenTree>, lo: usize, hi: usize, pos: Position) -> (r: Option<
    Result<Branch, Diagnostic>,
>)
    requires
        lo <= hi <= s@.len(),
    ensures
        emits(result_opt(r), grammar::parse_branch(view_trees(s@), lo as int, hi as int, pos@), old(diags)@, final(diags)@),
    decreases s, s@.len() + 2,
{
    proof {
        lemma_view_trees_index(s@);
    }
    if hi - lo < 2 {
        assert(diags_view(diags@) =~= diags_view(diags@) + seq![]);
        return Some(Err(Diagnostic::new(pos, "branch requires a condition and at least one body expression")));
    }
    let condition = parse_tree(diags, &s[lo])?;
    let body = parse_sequence(diags, s, lo + 1, hi)?;
    assert(diags_view(diags@) =~= diags_view(old(diags)@) + (reported(grammar::parse_tree(view_trees(s@)[lo as int]))
        + reported(grammar::parse_sequence(view_trees(s@), lo + 1, hi as int))));
    let block = Block { position: s[lo + 1].get_position(), contents: body };
    assert(view_block(block).contents == view_exprs(block.contents@));
    Some(Ok(Branch { condition: Box::new(condition), block }))
}

/// `(if c body... :elif c body... :else body...)`.
fn parse_if(diags: &mut Vec<Diagnostic>, list: &TokenTreeList) -> (r: Option<Expr>)
    ensures
        emits(expr_opt(r), grammar::parse_if(list@), old(diags)@, final(diags)@),
    decreases list, list.items@.len() + 5,
{
    proof {
        lemma_view_list(*list);
    }
    let n = list.items.len();
    if n < 3 {
        report(diags, list.position.duplicate(), "bad syntax for if");
        return Some(Expr::Error);
    }
    let ghost l = list@;
    let mut branches: Vec<Branch> = Vec::new();
    let mut local: Vec<Diagnostic> = Vec::new();
    let ghost mut emitted: Seq<SpecDiagnostic> = seq![];
    let mut start: usize = 1;
    let mut index: usize = 1;
    assert(view_branches(branches@) =~= seq![]);
    assert(diags_view(local@) =~= seq![]);
    assert(diags_view(diags@) =~= diags_view(old(diags)@) + emitted);
    while index < n
        invariant
            n == list.items@.len(),
            n >= 3,
            l == list@,
            l.items == view_trees(list.items@),
            l.items.len() == n,
            forall|j: int| 0 <= j < n ==> #[trigger] l.items[j] == view_tree(list.items@[j]),
            1 <= start <= index <= n,
            diags_view(diags@) == diags_view(old(diags)@) + emitted,
            grammar::parse_if(l) == grammar::if_scan(
                l,
                index as int,
                start as int,
                IfState {
                    branches: view_branches(branches@),
                    else_branch: None,
                    local: diags_view(local@),
                    emitted,
                },
            ),
        decreases n - index,
    {
        let item = &list.items[index];
        let mut is_kw = false;
        if let TokenTree::Token(token) = item {
            is_kw = token.ty == TokenType::Keyword;
        }
        if is_kw {
            let token = match item {
                TokenTree::Token(token) => token,
                TokenTree::List(_) => {
                    assert(false);
                    return None;
                },
            };
            if !is_keyword(token.value.as_str()) {
                return None;
            }
            match parse_keyword(token.value.as_str()) {
                Keyword::Elif => {
                    if index == start {
                        let d = Diagnostic::new(token.position.duplicate(), "missing branch before 'elif'");
                        proof { crate::diagnostics::lemma_diags_push(local@, d); }
                        local.push(d);
                    }
                    let pos = list.items[start].get_position();
                    let ghost before = diags@;
                    match parse_branch(diags, &list.items, start, index, pos)? {
                        Ok(b) => {
                            proof { lemma_view_branches_push(branches@, b); }
                            branches.push(b);
                        },
                        Err(e) => {
                            proof { crate::diagnostics::lemma_diags_push(local@, e); }
                            local.push(e);
                        },
                    }
                    proof {
                        emitted = emitted + reported(grammar::parse_branch(l.items, start as int, index as int, crate::parser::tree::tree_position(l.items[start as int])));
                    }
                    start = index + 1;
                },
                Keyword::Else => {
                    if index == start {
                        let d = Diagnostic::new(token.position.duplicate(), "missing branch before 'else'");
                        proof { crate::diagnostics::lemma_diags_push(local@, d); }
                        local.push(d);
                    }
                    let pos = list.items[start].get_position();
                    match parse_branch(diags, &list.items, start, index, pos)? {
                        Ok(b) => {
                            proof { lemma_view_branches_push(branches@, b); }
                            branches.push(b);
                        },
                        Err(e) => {
                            proof { crate::diagnostics::lemma_diags_push(local@, e); }
                            local.push(e);
                        },
                    }
                    proof {
                        emitted = emitted + reported(grammar::parse_branch(l.items, start as int, index as int, crate::parser::tree::tree_position(l.items[start as int])));
                    }
                    if index + 1 >= n {
                        let d = Diagnostic::new(token.position.duplicate(), "'else' requires at least 1 body expression");
                        proof { crate::diagnostics::lemma_diags_push(local@, d); }
                        local.push(d);
                    } else {
                        let es = parse_sequence(diags, &list.items, index + 1, n)?;
                        let else_block = Block { position: list.items[index + 1].get_position(), contents: es };
                        assert(view_block(else_block).contents == view_exprs(else_block.contents@));
                        proof {
                            emitted = emitted + reported(grammar::parse_sequence(l.items, index + 1, n as int));
                        }
                        return Some(if_finish(diags, list.position.duplicate(), branches, Some(Box::new(Expr::Block(else_block))), local));
                    }
                },
                _ => {},
            }
        }
        index = index + 1;
    }
    if start >= n {
        return None;
    }
    let pos = list.items[start].get_position();
    match parse_branch(diags, &list.items, start, n, pos)? {
        Ok(b) => {
            proof { lemma_view_branches_push(branches@, b); }
            branches.push(b);
        },
        Err(e) => {
            proof { crate::diagnostics::lemma_diags_push(local@, e); }
            local.push(e);
        },
    }
    proof {
        emitted = emitted + reported(grammar::parse_branch(l.items, start as int, n as int, crate::parser::tree::tree_position(l.items[start as int])));
    }
    Some(if_finish(diags, list.position.duplicate(), branches, None, local))
}

/// The `if` expression made of what was gathered; an error when `local` holds diagnostics,
/// which are then reported.
fn if_finish(
    diags: &mut Vec<Diagnostic>,
    position: Position,
    branches: Vec<Branch>,
    else_branch: Option<Box<Expr>>,
    local: Vec<Diagnostic>,
) -> (r: Expr)
    ensures
        local@.len() == 0 ==> r@ == SpecExpr::IfExpr(
            crate::ast::SpecIfExpr {
                position: position@,
                branches: view_branches(branches@),
                else_branch: match else_branch {
                    Some(e) => Some(Box::new(e@)),
                    None => None,
                },
            },
        ) && diags_view(final(diags)@) == diags_view(old(diags)@),
        local@.len() > 0 ==> r@ is Error && diags_view(final(diags)@) == diags_view(old(diags)@) + diags_view(
            local@,
        ),
{
    if local.len() == 0 {
        Expr::IfExpr(IfExpr { position, branches, else_branch })
    } else {
        append_diags(diags, local);
        Expr::Error
    }
}

} // verus!
