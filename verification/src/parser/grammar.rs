//! What parsing a token tree gives: an expression and the diagnostics reported on the way.
//! `None` stands for an input on which parsing cannot go on (a keyword token whose text is
//! no keyword, or an `if` whose last item is `:elif`).
use vstd::prelude::*;

use crate::ast::{
    branches_have_error, exprs_have_error, has_error, LiteralType, SpecAssignment, SpecBlock, SpecBranch, SpecClosure, SpecConditions, SpecDeclaration, SpecDefun,
    SpecExpr, SpecFuncall, SpecIfExpr, SpecLiteral, SpecNotExpr, SpecParameter, SpecTypeAnnotation, SpecTypeExpr,
    SpecVariable, SpecVariableSignature,
};
use crate::diagnostics::{diag, SpecDiagnostic};
use crate::parser::keyword::{keyword_of, Keyword};
use crate::parser::lexer::{SpecToken, TokenType};
use crate::parser::tree::{tree_position, SpecTokenTree, SpecTokenTreeList};
use crate::position::SpecPosition;

verus! {

/// An expression and the diagnostics reported while reading it.
pub type Parsed<T> = Option<(T, Seq<SpecDiagnostic>)>;

/// The diagnostics that a reading reported (none if it could not go on).
pub open spec fn reported<T>(p: Parsed<T>) -> Seq<SpecDiagnostic> {
    match p {
        Some((_, d)) => d,
        None => seq![],
    }
}

pub open spec fn error_with(d: SpecDiagnostic) -> Parsed<SpecExpr> {
    Some((SpecExpr::Error, seq![d]))
}

/// A token read as an expression.
pub open spec fn parse_token(tok: SpecToken) -> (SpecExpr, Seq<SpecDiagnostic>) {
    match tok.ty {
        TokenType::LParen | TokenType::RParen => (SpecExpr::Error, seq![diag(tok.position, "Unexpected paren")]),
        TokenType::Keyword => (SpecExpr::Error, seq![diag(tok.position, "Unexpected keyword")]),
        TokenType::Symbol => (SpecExpr::Variable(SpecVariable { position: tok.position, value: tok.value }), seq![]),
        _ => parse_literal(tok),
    }
}

/// A literal token read as a literal.
pub open spec fn parse_literal(tok: SpecToken) -> (SpecExpr, Seq<SpecDiagnostic>) {
    let ty = match tok.ty {
        TokenType::IntLiteral => Some(LiteralType::Int),
        TokenType::FloatLiteral => Some(LiteralType::Float),
        TokenType::BoolLiteral => Some(LiteralType::Bool),
        TokenType::StringLiteral => Some(LiteralType::String),
        _ => None,
    };
    match ty {
        Some(ty) => (SpecExpr::Literal(SpecLiteral { position: tok.position, ty, value: tok.value }), seq![]),
        None => (SpecExpr::Error, seq![diag(tok.position, "expeceted literal")]),
    }
}

/// Reads the trees `s[lo..hi]`, in order.
pub open spec fn parse_sequence(s: Seq<SpecTokenTree>, lo: int, hi: int) -> Parsed<Seq<SpecExpr>>
    decreases s, s.len() + 1,
{
    if lo < 0 || lo > hi || hi > s.len() {
        Some((seq![], seq![]))
    } else {
        parse_sequence_from(s, lo, hi, (seq![], seq![]))
    }
}

/// Reads the trees `s[i..hi]` after having read `acc`.
pub open spec fn parse_sequence_from(
    s: Seq<SpecTokenTree>,
    i: int,
    hi: int,
    acc: (Seq<SpecExpr>, Seq<SpecDiagnostic>),
) -> Parsed<Seq<SpecExpr>>
    decreases s, hi - i,
{
    if i < 0 || i >= hi || hi > s.len() {
        Some(acc)
    } else {
        match parse_tree(s[i]) {
            None => None,
            Some((e, d)) => parse_sequence_from(s, i + 1, hi, (acc.0.push(e), acc.1 + d)),
        }
    }
}

/// A token tree read as an expression.
pub open spec fn parse_tree(t: SpecTokenTree) -> Parsed<SpecExpr>
    decreases t, 0int,
{
    match t {
        SpecTokenTree::Token(tok) => Some(parse_token(tok)),
        SpecTokenTree::List(l) => {
            if l.items.len() == 0 {
                error_with(diag(l.position, "Empty list"))
            } else {
                match l.items[0] {
                    SpecTokenTree::Token(tok) => match tok.ty {
                        TokenType::Keyword => parse_special_form(tok, l),
                        TokenType::Symbol => parse_funcall(l),
                        TokenType::IntLiteral | TokenType::FloatLiteral | TokenType::StringLiteral
                        | TokenType::BoolLiteral => error_with(diag(tok.position, "Unexpected literal")),
                        _ => error_with(diag(tok.position, "Unexpected token")),
                    },
                    SpecTokenTree::List(_) => parse_funcall(l),
                }
            }
        },
    }
}

/// A list that starts with the keyword `tok`.
pub open spec fn parse_special_form(tok: SpecToken, l: SpecTokenTreeList) -> Parsed<SpecExpr>
    decreases l, l.items.len() + 20,
{
    match keyword_of(tok.value) {
        None => None,
        Some(k) => match k {
            Keyword::Block => parse_block(l),
            Keyword::Def => parse_defun(l),
            Keyword::Let => parse_declaration(l, false),
            Keyword::Mut => parse_declaration(l, true),
            Keyword::SetBang => parse_assignment(l),
            Keyword::If => parse_if(l),
            Keyword::Closure => parse_closure_at(l.items, 0, l.items.len() as int, l.position),
            Keyword::Or => parse_conditions(l, true),
            Keyword::And => parse_conditions(l, false),
            Keyword::Not => parse_not(l),
            Keyword::Else | Keyword::Elif => error_with(diag(l.position, "Unexpected keyword")),
        },
    }
}

/// A call: the first item is the callee, the others the arguments.
pub open spec fn parse_funcall(l: SpecTokenTreeList) -> Parsed<SpecExpr>
    decreases l, 1int,
{
    if l.items.len() == 0 {
        None
    } else {
        match parse_tree(l.items[0]) {
            None => None,
            Some((callee, d1)) => match parse_sequence(l.items, 1, l.items.len() as int) {
                None => None,
                Some((args, d2)) => Some(
                    (
                        SpecExpr::Funcall(SpecFuncall { position: l.position, callee: Box::new(callee), args }),
                        d1 + d2,
                    ),
                ),
            },
        }
    }
}

/// `(block e...)`.
pub open spec fn parse_block(l: SpecTokenTreeList) -> Parsed<SpecExpr>
    decreases l, 1int,
{
    match parse_sequence(l.items, 1, l.items.len() as int) {
        None => None,
        Some((es, d)) => Some((SpecExpr::Block(SpecBlock { position: l.position, contents: es }), d)),
    }
}

/// A tree read as a variable: the variable, or the diagnostic that it is none.
pub open spec fn parse_variable(t: SpecTokenTree) -> Parsed<Result<SpecVariable, SpecDiagnostic>>
    decreases t, 1int,
{
    match parse_tree(t) {
        None => None,
        Some((SpecExpr::Variable(v), d)) => Some((Ok(v), d)),
        Some((_, d)) => Some((Err(diag(tree_position(t), "expected variable")), d)),
    }
}

/// A tree read as a type name.
pub open spec fn parse_type(t: SpecTokenTree) -> Parsed<Result<SpecTypeAnnotation, SpecDiagnostic>>
    decreases t, 2int,
{
    match parse_variable(t) {
        None => None,
        Some((Ok(v), d)) => Some((Ok(SpecTypeAnnotation { position: v.position, value: SpecTypeExpr::Named(v.value) }), d)),
        Some((Err(_), d)) => Some((Err(diag(tree_position(t), "improper form of type")), d)),
    }
}

/// `(def name sig body...)`: a name, then a closure made of the signature and the body
/// after it, placed where the signature stands.
pub open spec fn parse_defun(l: SpecTokenTreeList) -> Parsed<SpecExpr>
    decreases l, 1int,
{
    if l.items.len() <= 3 {
        error_with(diag(l.position, "improper form of defing a function"))
    } else {
        match parse_variable(l.items[1]) {
            None => None,
            Some((Err(e), d1)) => Some((SpecExpr::Error, d1.push(e))),
            Some((Ok(name), d1)) => {
                let cpos = tree_position(l.items[2]);
                match parse_closure_at(l.items, 1, l.items.len() as int, cpos) {
                    None => None,
                    Some((SpecExpr::Closure(c), d2)) => Some(
                        (SpecExpr::Defun(SpecDefun { position: l.position, name, closure: c }), d1 + d2),
                    ),
                    Some((_, d2)) => Some((SpecExpr::Error, (d1 + d2).push(diag(cpos, "expected a closure definition")))),
                }
            },
        }
    }
}

/// The items `s[lo..hi]`, at `pos`, read as a closure: the item at `lo` (the keyword `fn`,
/// or the name a `def` gives) is passed over, then come the signature and the body.
pub open spec fn parse_closure_at(s: Seq<SpecTokenTree>, lo: int, hi: int, pos: SpecPosition) -> Parsed<SpecExpr>
    decreases s, s.len() + 2,
{
    if hi - lo <= 2 || lo < 0 || hi > s.len() {
        error_with(diag(pos, "improper form of defining a closure"))
    } else {
        match parse_sequence(s, lo + 2, hi) {
            None => None,
            Some((body_exprs, d1)) => {
                let body = SpecBlock { position: tree_position(s[lo + 2]), contents: body_exprs };
                match s[lo + 1] {
                    SpecTokenTree::Token(tok) => Some((SpecExpr::Error, d1.push(diag(tok.position, "unexpected token")))),
                    SpecTokenTree::List(sig) => match parse_closure_signature(sig) {
                        None => None,
                        Some((Err(es), d2)) => Some((SpecExpr::Error, d1 + d2 + es)),
                        Some((Ok((params, ret)), d2)) => Some(
                            (
                                SpecExpr::Closure(
                                    SpecClosure { position: pos, params, return_type: ret, body },
                                ),
                                d1 + d2,
                            ),
                        ),
                    },
                }
            },
        }
    }
}

/// `(p... ret)`: the parameters, then the return type.
pub open spec fn parse_closure_signature(l: SpecTokenTreeList) -> Parsed<
    Result<(Seq<SpecParameter>, SpecTypeAnnotation), Seq<SpecDiagnostic>>,
>
    decreases l, 0int,
{
    let n = l.items.len() as int;
    if n == 0 {
        Some((Err(seq![diag(l.position, "expected type")]), seq![]))
    } else if n == 1 {
        match parse_type(l.items[0]) {
            None => None,
            Some((Ok(ret), d)) => Some((Ok((seq![], ret)), d)),
            Some((Err(e), d)) => Some((Err(seq![e]), d)),
        }
    } else {
        match parse_type(l.items[n - 1]) {
            None => None,
            Some((Err(e), d)) => Some((Err(seq![e]), d)),
            Some((Ok(ret), d1)) => match parse_params(l.items, 0, n - 1, ((seq![], seq![]), seq![])) {
                None => None,
                Some(((params, errs), d2)) => Some(
                    (if errs.len() == 0 { Ok((params, ret)) } else { Err(errs) }, d1 + d2),
                ),
            },
        }
    }
}

/// Reads the parameters `s[i..hi]` after `acc`: the parameters read, and the errors of
/// the items that are none.
pub open spec fn parse_params(
    s: Seq<SpecTokenTree>,
    i: int,
    hi: int,
    acc: ((Seq<SpecParameter>, Seq<SpecDiagnostic>), Seq<SpecDiagnostic>),
) -> Parsed<(Seq<SpecParameter>, Seq<SpecDiagnostic>)>
    decreases s, hi - i,
{
    if i < 0 || i >= hi || hi > s.len() {
        Some(acc)
    } else {
        match parse_param_item(s[i]) {
            None => None,
            Some((r, d)) => parse_params(
                s,
                i + 1,
                hi,
                (
                    match r {
                        Ok(p) => (acc.0.0.push(p), acc.0.1),
                        Err(e) => (acc.0.0, acc.0.1.push(e)),
                    },
                    acc.1 + d,
                ),
            ),
        }
    }
}

/// One item of a closure's parameter list.
pub open spec fn parse_param_item(t: SpecTokenTree) -> Parsed<Result<SpecParameter, SpecDiagnostic>>
    decreases t, 3int,
{
    match t {
        SpecTokenTree::Token(tok) => Some((Err(diag(tok.position, "expected parameter")), seq![])),
        SpecTokenTree::List(l) => parse_parameter(l),
    }
}

/// `(type name)`.
pub open spec fn parse_parameter(l: SpecTokenTreeList) -> Parsed<Result<SpecParameter, SpecDiagnostic>>
    decreases l, 0int,
{
    if l.items.len() == 2 {
        match parse_type(l.items[0]) {
            None => None,
            Some((Err(e), d)) => Some((Err(e), d)),
            Some((Ok(ann), d1)) => match parse_tree(l.items[1]) {
                None => None,
                Some((SpecExpr::Variable(name), d2)) => Some(
                    (Ok(SpecParameter { position: l.position, name, ty: ann }), d1 + d2),
                ),
                Some((_, d2)) => Some((Err(diag(l.position, "expected name")), d1 + d2)),
            },
        }
    } else {
        Some((Err(diag(l.position, "improper form of a parameter")), seq![]))
    }
}

/// `(let [type name] value)`, or `mut` for a mutable variable.
pub open spec fn parse_declaration(l: SpecTokenTreeList, mutable: bool) -> Parsed<SpecExpr>
    decreases l, 1int,
{
    if l.items.len() != 3 {
        error_with(diag(l.position, "bad syntax for declaration"))
    } else {
        match parse_tree(l.items[2]) {
            None => None,
            Some((value, d1)) => match l.items[1] {
                SpecTokenTree::List(sig) => match parse_variable_signature(sig) {
                    None => None,
                    Some((Err(es), d2)) => Some((SpecExpr::Error, d1 + d2 + es)),
                    Some((Ok(signature), d2)) => Some(
                        (
                            SpecExpr::Declaration(
                                SpecDeclaration { position: sig.position, signature, value: Box::new(value), mutable },
                            ),
                            d1 + d2,
                        ),
                    ),
                },
                SpecTokenTree::Token(_) => Some((SpecExpr::Error, d1.push(diag(l.position, "bad syntax for declaration")))),
            },
        }
    }
}

/// `[type name]`.
pub open spec fn parse_variable_signature(l: SpecTokenTreeList) -> Parsed<
    Result<SpecVariableSignature, Seq<SpecDiagnostic>>,
>
    decreases l, 0int,
{
    if l.items.len() == 2 {
        match parse_type(l.items[0]) {
            None => None,
            Some((tr, d1)) => match parse_variable(l.items[1]) {
                None => None,
                Some((vr, d2)) => Some(
                    (
                        match (tr, vr) {
                            (Ok(ty), Ok(name)) => Ok(SpecVariableSignature { ty, name }),
                            (Err(e1), Err(e2)) => Err(seq![e1, e2]),
                            (Err(e), _) => Err(seq![e]),
                            (_, Err(e)) => Err(seq![e]),
                        },
                        d1 + d2,
                    ),
                ),
            },
        }
    } else {
        Some((Err(seq![diag(l.position, "improper form of variable signature")]), seq![]))
    }
}

/// `(set! name value)`.
pub open spec fn parse_assignment(l: SpecTokenTreeList) -> Parsed<SpecExpr>
    decreases l, 1int,
{
    if l.items.len() != 3 {
        error_with(diag(l.position, "bad syntax for assignment"))
    } else {
        match parse_tree(l.items[1]) {
            None => None,
            Some((SpecExpr::Variable(v), d1)) => match parse_tree(l.items[2]) {
                None => None,
                Some((value, d2)) => Some(
                    (
                        SpecExpr::Assignment(SpecAssignment { position: l.position, variable: v, value: Box::new(value) }),
                        d1 + d2,
                    ),
                ),
            },
            Some((_, d1)) => Some((SpecExpr::Error, d1.push(diag(l.position, "expected a variable")))),
        }
    }
}

/// `(or c...)` when `is_or`, else `(and c...)`: at least two conditions.
pub open spec fn parse_conditions(l: SpecTokenTreeList, is_or: bool) -> Parsed<SpecExpr>
    decreases l, 1int,
{
    if l.items.len() <= 2 {
        error_with(
            if is_or {
                diag(l.position, "'or' requires at least 2 argument")
            } else {
                diag(l.position, "'and' requires at least 2 arguments")
            },
        )
    } else {
        match parse_sequence(l.items, 1, l.items.len() as int) {
            None => None,
            Some((cs, d)) => {
                let c = SpecConditions { position: l.position, conditions: cs };
                Some((if is_or { SpecExpr::Or(c) } else { SpecExpr::And(c) }, d))
            },
        }
    }
}

/// `(not c)`.
pub open spec fn parse_not(l: SpecTokenTreeList) -> Parsed<SpecExpr>
    decreases l, 1int,
{
    if l.items.len() != 2 {
        error_with(diag(l.position, "'not' requires only 1 argument."))
    } else {
        match parse_tree(l.items[1]) {
            None => None,
            Some((c, d)) => Some((SpecExpr::Not(SpecNotExpr { position: l.position, condition: Box::new(c) }), d)),
        }
    }
}

/// The items `s[lo..hi]` read as a branch: a condition, then a body of at least one item.
pub open spec fn parse_branch(s: Seq<SpecTokenTree>, lo: int, hi: int, pos: SpecPosition) -> Parsed<
    Result<SpecBranch, SpecDiagnostic>,
>
    decreases s, s.len() + 2,
{
    if hi - lo < 2 || lo < 0 || hi > s.len() {
        Some((Err(diag(pos, "branch requires a condition and at least one body expression")), seq![]))
    } else {
        match parse_tree(s[lo]) {
            None => None,
            Some((cond, d1)) => match parse_sequence(s, lo + 1, hi) {
                None => None,
                Some((body, d2)) => Some(
                    (
                        Ok(
                            SpecBranch {
                                condition: Box::new(cond),
                                block: SpecBlock { position: tree_position(s[lo + 1]), contents: body },
                            },
                        ),
                        d1 + d2,
                    ),
                ),
            },
        }
    }
}

/// What an `if` has gathered: its branches, its else block, the diagnostics about its
/// shape (`local`, reported last) and those reported while reading its parts.
pub struct IfState {
    pub branches: Seq<SpecBranch>,
    pub else_branch: Option<Box<SpecExpr>>,
    pub local: Seq<SpecDiagnostic>,
    pub emitted: Seq<SpecDiagnostic>,
}

/// Adds the branch `s[lo..hi]` (at `pos`) to `st`.
pub open spec fn with_branch(st: IfState, r: Parsed<Result<SpecBranch, SpecDiagnostic>>) -> Option<IfState> {
    match r {
        None => None,
        Some((Ok(b), d)) => Some(IfState { branches: st.branches.push(b), emitted: st.emitted + d, ..st }),
        Some((Err(e), d)) => Some(IfState { local: st.local.push(e), emitted: st.emitted + d, ..st }),
    }
}

/// The `if` expression that `st` makes: an error when a diagnostic about its shape was found.
pub open spec fn if_result(position: SpecPosition, st: Option<IfState>) -> Parsed<SpecExpr> {
    match st {
        None => None,
        Some(st) => if st.local.len() == 0 {
            Some(
                (
                    SpecExpr::IfExpr(
                        SpecIfExpr { position, branches: st.branches, else_branch: st.else_branch },
                    ),
                    st.emitted,
                ),
            )
        } else {
            Some((SpecExpr::Error, st.emitted + st.local))
        },
    }
}

/// `(if c body... :elif c body... :else body...)`.
pub open spec fn parse_if(l: SpecTokenTreeList) -> Parsed<SpecExpr>
    decreases l, l.items.len() + 5,
{
    if l.items.len() < 3 {
        error_with(diag(l.position, "bad syntax for if"))
    } else {
        if_scan(l, 1, 1, IfState { branches: seq![], else_branch: None, local: seq![], emitted: seq![] })
    }
}

/// Scans the items of an `if` from `index`, the current branch starting at `start`.
pub open spec fn if_scan(l: SpecTokenTreeList, index: int, start: int, st: IfState) -> Parsed<SpecExpr>
    decreases l, l.items.len() + 2 - index,
{
    let n = l.items.len() as int;
    if index >= n || index < 1 || start < 1 || start > index {
        // no `:else`: the items from `start` on are the last branch
        if start >= n || start < 1 {
            None
        } else {
            if_result(l.position, with_branch(st, parse_branch(l.items, start, n, tree_position(l.items[start]))))
        }
    } else {
        match l.items[index] {
            SpecTokenTree::Token(tok) if tok.ty == TokenType::Keyword => match keyword_of(tok.value) {
                None => None,
                Some(Keyword::Elif) => {
                    let st1 = IfState {
                        local: if index == start { st.local.push(diag(tok.position, "missing branch before 'elif'")) } else { st.local },
                        ..st
                    };
                    match with_branch(st1, parse_branch(l.items, start, index, tree_position(l.items[start]))) {
                        None => None,
                        Some(st2) => if_scan(l, index + 1, index + 1, st2),
                    }
                },
                Some(Keyword::Else) => {
                    let st1 = IfState {
                        local: if index == start { st.local.push(diag(tok.position, "missing branch before 'else'")) } else { st.local },
                        ..st
                    };
                    match with_branch(st1, parse_branch(l.items, start, index, tree_position(l.items[start]))) {
                        None => None,
                        Some(st2) => if index + 1 >= n {
                            if_scan(
                                l,
                                index + 1,
                                start,
                                IfState {
                                    local: st2.local.push(diag(tok.position, "'else' requires at least 1 body expression")),
                                    ..st2
                                },
                            )
                        } else {
                            match parse_sequence(l.items, index + 1, n) {
                                None => None,
                                Some((es, d)) => if_result(
                                    l.position,
                                    Some(
                                        IfState {
                                            else_branch: Some(
                                                Box::new(
                                                    SpecExpr::Block(
                                                        SpecBlock { position: tree_position(l.items[index + 1]), contents: es },
                                                    ),
                                                ),
                                            ),
                                            emitted: st2.emitted + d,
                                            ..st2
                                        },
                                    ),
                                ),
                            }
                        },
                    }
                },
                Some(_) => if_scan(l, index + 1, start, st),
            },
            _ => if_scan(l, index + 1, start, st),
        }
    }
}

/// Reading a sequence of trees gives one expression per tree.
pub proof fn lemma_parse_sequence_len(s: Seq<SpecTokenTree>, i: int, hi: int, acc: (Seq<SpecExpr>, Seq<SpecDiagnostic>))
    requires
        0 <= i <= hi <= s.len(),
    ensures
        parse_sequence_from(s, i, hi, acc) matches Some((es, _)) ==> es.len() == acc.0.len() + (hi - i),
    decreases hi - i,
{
    if i < hi {
        if let Some((e, d)) = parse_tree(s[i]) {
            lemma_parse_sequence_len(s, i + 1, hi, (acc.0.push(e), acc.1 + d));
        }
    }
}

/// Reading the trees `s[i..hi]` after `acc` keeps `acc` and puts after it, in order, one
/// expression per tree: the one that the tree reads as; and it goes through wherever
/// every tree reads.
proof fn lemma_parse_sequence_items(
    s: Seq<SpecTokenTree>,
    i: int,
    hi: int,
    acc: (Seq<SpecExpr>, Seq<SpecDiagnostic>),
)
    requires
        0 <= i <= hi <= s.len(),
    ensures
        parse_sequence_from(s, i, hi, acc) matches Some((es, _)) ==> {
            &&& es.len() == acc.0.len() + (hi - i)
            &&& forall|k: int| 0 <= k < acc.0.len() ==> es[k] == acc.0[k]
            &&& forall|k: int|
                i <= k < hi ==> (#[trigger] parse_tree(s[k])) is Some && es[acc.0.len() + (k - i)]
                    == parse_tree(s[k]).unwrap().0
        },
        (forall|k: int| i <= k < hi ==> (#[trigger] parse_tree(s[k])) is Some) ==> parse_sequence_from(
            s,
            i,
            hi,
            acc,
        ) is Some,
    decreases hi - i,
{
    if i < hi {
        if let Some((e, d)) = parse_tree(s[i]) {
            let acc1 = (acc.0.push(e), acc.1 + d);
            lemma_parse_sequence_items(s, i + 1, hi, acc1);
            if let Some((es, _)) = parse_sequence_from(s, i, hi, acc) {
                assert forall|k: int| i <= k < hi implies (#[trigger] parse_tree(s[k])) is Some && es[acc.0.len()
                    + (k - i)] == parse_tree(s[k]).unwrap().0 by {
                    if k > i {
                        assert(acc.0.len() + (k - i) == acc1.0.len() + (k - (i + 1)));
                    } else {
                        assert(es[acc.0.len() as int] == acc1.0[acc.0.len() as int]);
                    }
                }
                assert forall|k: int| 0 <= k < acc.0.len() implies es[k] == acc.0[k] by {
                    assert(es[k] == acc1.0[k]);
                }
            }
        }
    }
}

/// A block holds what its items read as: where `(block e1 ... en)` reads, it reads as a
/// block at the list's position whose contents are, in order, the expressions that
/// `e1` ... `en` read as, one for each; and it reads wherever each of them does.
pub proof fn lemma_block_contents(l: SpecTokenTreeList)
    requires
        l.items.len() > 0,
        l.items[0] matches SpecTokenTree::Token(tok) && tok.ty == TokenType::Keyword && keyword_of(tok.value)
            == Some(Keyword::Block),
    ensures
        parse_tree(SpecTokenTree::List(l)) matches Some((e, _)) ==> (e matches SpecExpr::Block(b) && {
            &&& b.position == l.position
            &&& b.contents.len() == l.items.len() - 1
            &&& forall|k: int|
                1 <= k < l.items.len() ==> (#[trigger] parse_tree(l.items[k])) is Some && b.contents[k - 1]
                    == parse_tree(l.items[k]).unwrap().0
        }),
        (forall|k: int| 1 <= k < l.items.len() ==> (#[trigger] parse_tree(l.items[k])) is Some) ==> parse_tree(
            SpecTokenTree::List(l),
        ) is Some,
{
    lemma_parse_sequence_items(l.items, 1, l.items.len() as int, (seq![], seq![]));
    let tok = l.items[0]->Token_0;
    assert(parse_tree(SpecTokenTree::List(l)) == parse_special_form(tok, l));
    assert(parse_special_form(tok, l) == parse_block(l));
}

/// A call holds what its items read as: where a list that starts with a symbol or a list
/// reads, it reads as a call at the list's position whose callee is what the first item
/// reads as and whose arguments are, in order, what the other items read as.
pub proof fn lemma_funcall_parts(l: SpecTokenTreeList)
    requires
        l.items.len() > 0,
        l.items[0] is List || (l.items[0] matches SpecTokenTree::Token(tok) && tok.ty == TokenType::Symbol),
    ensures
        parse_tree(SpecTokenTree::List(l)) matches Some((e, _)) ==> (e matches SpecExpr::Funcall(f) && {
            &&& f.position == l.position
            &&& parse_tree(l.items[0]) matches Some((c, _)) && *f.callee == c
            &&& f.args.len() == l.items.len() - 1
            &&& forall|k: int|
                1 <= k < l.items.len() ==> (#[trigger] parse_tree(l.items[k])) is Some && f.args[k - 1]
                    == parse_tree(l.items[k]).unwrap().0
        }),
{
    lemma_parse_sequence_items(l.items, 1, l.items.len() as int, (seq![], seq![]));
    assert(parse_tree(SpecTokenTree::List(l)) == parse_funcall(l));
}

/// Whether a reading that gave an expression with no diagnostic gave one with no `Error`.
pub open spec fn clean(p: Parsed<SpecExpr>) -> bool {
    p matches Some((e, d)) ==> (d.len() == 0 ==> !has_error(e))
}

/// Whether a reading that gave a branch with no diagnostic gave one with no `Error`.
pub open spec fn clean_branch(r: Parsed<Result<SpecBranch, SpecDiagnostic>>) -> bool {
    r matches Some((Ok(b), d)) ==> (d.len() == 0 ==> !has_error(*b.condition) && !exprs_have_error(b.block.contents))
}

/// Whether an `if` gathered so far, with nothing reported, holds no `Error`.
pub open spec fn clean_state(st: IfState) -> bool {
    st.emitted.len() == 0 ==> !branches_have_error(st.branches) && match st.else_branch {
        Some(eb) => !has_error(*eb),
        None => true,
    }
}

proof fn lemma_exprs_push(s: Seq<SpecExpr>, e: SpecExpr)
    ensures
        exprs_have_error(s.push(e)) == (exprs_have_error(s) || has_error(e)),
{
    assert(s.push(e).drop_last() =~= s);
}

proof fn lemma_branches_push(s: Seq<SpecBranch>, b: SpecBranch)
    ensures
        branches_have_error(s.push(b)) == (branches_have_error(s) || has_error(*b.condition) || exprs_have_error(
            b.block.contents,
        )),
{
    assert(s.push(b).drop_last() =~= s);
}

proof fn lemma_clean_sequence_from(s: Seq<SpecTokenTree>, i: int, hi: int, acc: (Seq<SpecExpr>, Seq<SpecDiagnostic>))
    ensures
        parse_sequence_from(s, i, hi, acc) matches Some((es, d)) ==> d.len() >= acc.1.len() && (d.len() == 0
            && !exprs_have_error(acc.0) ==> !exprs_have_error(es)),
    decreases s, hi - i,
{
    if !(i < 0 || i >= hi || hi > s.len()) {
        lemma_clean_tree(s[i]);
        if let Some((e, d)) = parse_tree(s[i]) {
            lemma_exprs_push(acc.0, e);
            lemma_clean_sequence_from(s, i + 1, hi, (acc.0.push(e), acc.1 + d));
        }
    }
}

/// Trees read with no diagnostic give expressions with no `Error` at any depth.
pub proof fn lemma_clean_sequence(s: Seq<SpecTokenTree>, lo: int, hi: int)
    ensures
        parse_sequence(s, lo, hi) matches Some((es, d)) ==> (d.len() == 0 ==> !exprs_have_error(es)),
    decreases s, s.len() + 1,
{
    if !(lo < 0 || lo > hi || hi > s.len()) {
        lemma_clean_sequence_from(s, lo, hi, (seq![], seq![]));
    }
}

/// An `Error` anywhere in what a tree reads as comes with a diagnostic.
pub proof fn lemma_clean_tree(t: SpecTokenTree)
    ensures
        clean(parse_tree(t)),
    decreases t, 0int,
{
    match t {
        SpecTokenTree::Token(tok) => {},
        SpecTokenTree::List(l) => {
            if l.items.len() > 0 {
                match l.items[0] {
                    SpecTokenTree::Token(tok) => {
                        if tok.ty == TokenType::Keyword {
                            lemma_clean_special_form(tok, l);
                        } else if tok.ty == TokenType::Symbol {
                            lemma_clean_funcall(l);
                        }
                    },
                    SpecTokenTree::List(_) => {
                        lemma_clean_funcall(l);
                    },
                }
            }
        },
    }
}

proof fn lemma_clean_special_form(tok: SpecToken, l: SpecTokenTreeList)
    ensures
        clean(parse_special_form(tok, l)),
    decreases l, l.items.len() + 20,
{
    match keyword_of(tok.value) {
        None => {},
        Some(k) => match k {
            Keyword::Block => lemma_clean_block(l),
            Keyword::Def => lemma_clean_defun(l),
            Keyword::Let => lemma_clean_declaration(l, false),
            Keyword::Mut => lemma_clean_declaration(l, true),
            Keyword::SetBang => lemma_clean_assignment(l),
            Keyword::If => lemma_clean_if(l),
            Keyword::Closure => lemma_clean_closure_at(l.items, 0, l.items.len() as int, l.position),
            Keyword::Or => lemma_clean_conditions(l, true),
            Keyword::And => lemma_clean_conditions(l, false),
            Keyword::Not => lemma_clean_not(l),
            Keyword::Else | Keyword::Elif => {},
        },
    }
}

proof fn lemma_clean_funcall(l: SpecTokenTreeList)
    ensures
        clean(parse_funcall(l)),
    decreases l, 1int,
{
    if l.items.len() > 0 {
        lemma_clean_tree(l.items[0]);
        lemma_clean_sequence(l.items, 1, l.items.len() as int);
    }
}

proof fn lemma_clean_block(l: SpecTokenTreeList)
    ensures
        clean(parse_block(l)),
    decreases l, 1int,
{
    lemma_clean_sequence(l.items, 1, l.items.len() as int);
}

proof fn lemma_clean_defun(l: SpecTokenTreeList)
    ensures
        clean(parse_defun(l)),
    decreases l, 1int,
{
    if l.items.len() > 3 {
        lemma_clean_closure_at(l.items, 1, l.items.len() as int, tree_position(l.items[2]));
    }
}

proof fn lemma_clean_closure_at(s: Seq<SpecTokenTree>, lo: int, hi: int, pos: SpecPosition)
    ensures
        clean(parse_closure_at(s, lo, hi, pos)),
    decreases s, s.len() + 2,
{
    if !(hi - lo <= 2 || lo < 0 || hi > s.len()) {
        lemma_clean_sequence(s, lo + 2, hi);
    }
}

proof fn lemma_clean_declaration(l: SpecTokenTreeList, mutable: bool)
    ensures
        clean(parse_declaration(l, mutable)),
    decreases l, 1int,
{
    if l.items.len() == 3 {
        lemma_clean_tree(l.items[2]);
    }
}

proof fn lemma_clean_assignment(l: SpecTokenTreeList)
    ensures
        clean(parse_assignment(l)),
    decreases l, 1int,
{
    if l.items.len() == 3 {
        lemma_clean_tree(l.items[2]);
    }
}

proof fn lemma_clean_conditions(l: SpecTokenTreeList, is_or: bool)
    ensures
        clean(parse_conditions(l, is_or)),
    decreases l, 1int,
{
    if l.items.len() > 2 {
        lemma_clean_sequence(l.items, 1, l.items.len() as int);
    }
}

proof fn lemma_clean_not(l: SpecTokenTreeList)
    ensures
        clean(parse_not(l)),
    decreases l, 1int,
{
    if l.items.len() == 2 {
        lemma_clean_tree(l.items[1]);
    }
}

proof fn lemma_clean_branch(s: Seq<SpecTokenTree>, lo: int, hi: int, pos: SpecPosition)
    ensures
        clean_branch(parse_branch(s, lo, hi, pos)),
    decreases s, s.len() + 2,
{
    if !(hi - lo < 2 || lo < 0 || hi > s.len()) {
        lemma_clean_tree(s[lo]);
        lemma_clean_sequence(s, lo + 1, hi);
    }
}

proof fn lemma_clean_with_branch(st: IfState, r: Parsed<Result<SpecBranch, SpecDiagnostic>>)
    requires
        clean_state(st),
        clean_branch(r),
    ensures
        with_branch(st, r) matches Some(st2) ==> clean_state(st2) && st2.emitted.len() >= st.emitted.len(),
{
    if let Some((Ok(b), d)) = r {
        lemma_branches_push(st.branches, b);
    }
}

proof fn lemma_clean_if_result(position: SpecPosition, st: IfState)
    requires
        clean_state(st),
    ensures
        if_result(position, Some(st)) matches Some((e, d)) ==> d.len() >= st.emitted.len() && (d.len() == 0
            ==> !has_error(e)),
{
}

proof fn lemma_clean_if(l: SpecTokenTreeList)
    ensures
        clean(parse_if(l)),
    decreases l, l.items.len() + 5,
{
    if l.items.len() >= 3 {
        lemma_clean_if_scan(l, 1, 1, IfState { branches: seq![], else_branch: None, local: seq![], emitted: seq![] });
    }
}

proof fn lemma_clean_if_scan(l: SpecTokenTreeList, index: int, start: int, st: IfState)
    requires
        clean_state(st),
    ensures
        if_scan(l, index, start, st) matches Some((e, d)) ==> d.len() >= st.emitted.len() && (d.len() == 0
            ==> !has_error(e)),
    decreases l, l.items.len() + 2 - index,
{
    let n = l.items.len() as int;
    if index >= n || index < 1 || start < 1 || start > index {
        if !(start >= n || start < 1) {
            let r = parse_branch(l.items, start, n, tree_position(l.items[start]));
            lemma_clean_branch(l.items, start, n, tree_position(l.items[start]));
            lemma_clean_with_branch(st, r);
            if let Some(st2) = with_branch(st, r) {
                lemma_clean_if_result(l.position, st2);
            }
        }
    } else {
        match l.items[index] {
            SpecTokenTree::Token(tok) => {
                if tok.ty == TokenType::Keyword {
                    match keyword_of(tok.value) {
                        None => {},
                        Some(Keyword::Elif) => {
                            let st1 = IfState {
                                local: if index == start { st.local.push(diag(tok.position, "missing branch before 'elif'")) } else { st.local },
                                ..st
                            };
                            let r = parse_branch(l.items, start, index, tree_position(l.items[start]));
                            lemma_clean_branch(l.items, start, index, tree_position(l.items[start]));
                            lemma_clean_with_branch(st1, r);
                            if let Some(st2) = with_branch(st1, r) {
                                lemma_clean_if_scan(l, index + 1, index + 1, st2);
                            }
                        },
                        Some(Keyword::Else) => {
                            let st1 = IfState {
                                local: if index == start { st.local.push(diag(tok.position, "missing branch before 'else'")) } else { st.local },
                                ..st
                            };
                            let r = parse_branch(l.items, start, index, tree_position(l.items[start]));
                            lemma_clean_branch(l.items, start, index, tree_position(l.items[start]));
                            lemma_clean_with_branch(st1, r);
                            if let Some(st2) = with_branch(st1, r) {
                                if index + 1 >= n {
                                    lemma_clean_if_scan(
                                        l,
                                        index + 1,
                                        start,
                                        IfState {
                                            local: st2.local.push(diag(tok.position, "'else' requires at least 1 body expression")),
                                            ..st2
                                        },
                                    );
                                } else {
                                    lemma_clean_sequence(l.items, index + 1, n);
                                    if let Some((es, d)) = parse_sequence(l.items, index + 1, n) {
                                        let st3 = IfState {
                                            else_branch: Some(
                                                Box::new(
                                                    SpecExpr::Block(
                                                        SpecBlock { position: tree_position(l.items[index + 1]), contents: es },
                                                    ),
                                                ),
                                            ),
                                            emitted: st2.emitted + d,
                                            ..st2
                                        };
                                        lemma_clean_if_result(l.position, st3);
                                    }
                                }
                            }
                        },
                        Some(_) => {
                            lemma_clean_if_scan(l, index + 1, start, st);
                        },
                    }
                } else {
                    lemma_clean_if_scan(l, index + 1, start, st);
                }
            },
            _ => {
                lemma_clean_if_scan(l, index + 1, start, st);
            },
        }
    }
}

/// Whether `t` is the keyword `k`, standing alone.
pub open spec fn is_keyword_tree(t: SpecTokenTree, k: Keyword) -> bool {
    t matches SpecTokenTree::Token(tok) && tok.ty == TokenType::Keyword && keyword_of(tok.value) == Some(k)
}

/// The index of the first `:else` among `items[i..]`, or the number of items.
pub open spec fn first_else(items: Seq<SpecTokenTree>, i: int) -> int
    decreases items.len() - i,
{
    if i < 0 || i >= items.len() {
        items.len() as int
    } else if is_keyword_tree(items[i], Keyword::Else) {
        i
    } else {
        first_else(items, i + 1)
    }
}

/// The number of `:elif`s among `items[i..f]`.
pub open spec fn count_elifs(items: Seq<SpecTokenTree>, i: int, f: int) -> nat
    decreases f - i,
{
    if i < 0 || i >= f || i >= items.len() {
        0
    } else {
        (if is_keyword_tree(items[i], Keyword::Elif) { 1nat } else { 0nat }) + count_elifs(items, i + 1, f)
    }
}

proof fn lemma_first_else_bounds(items: Seq<SpecTokenTree>, i: int)
    requires
        0 <= i <= items.len(),
    ensures
        i <= first_else(items, i) <= items.len(),
    decreases items.len() - i,
{
    if i < items.len() && !is_keyword_tree(items[i], Keyword::Else) {
        lemma_first_else_bounds(items, i + 1);
    }
}

proof fn lemma_if_scan_local(l: SpecTokenTreeList, index: int, start: int, st: IfState)
    requires
        st.local.len() > 0,
    ensures
        !(if_scan(l, index, start, st) matches Some((SpecExpr::IfExpr(_), _))),
    decreases l, l.items.len() + 2 - index,
{
    let n = l.items.len() as int;
    if index >= n || index < 1 || start < 1 || start > index {
    } else {
        match l.items[index] {
            SpecTokenTree::Token(tok) => {
                if tok.ty == TokenType::Keyword {
                    match keyword_of(tok.value) {
                        None => {},
                        Some(Keyword::Elif) => {
                            let st1 = IfState {
                                local: if index == start { st.local.push(diag(tok.position, "missing branch before 'elif'")) } else { st.local },
                                ..st
                            };
                            let r = parse_branch(l.items, start, index, tree_position(l.items[start]));
                            if let Some(st2) = with_branch(st1, r) {
                                lemma_if_scan_local(l, index + 1, index + 1, st2);
                            }
                        },
                        Some(Keyword::Else) => {
                            let st1 = IfState {
                                local: if index == start { st.local.push(diag(tok.position, "missing branch before 'else'")) } else { st.local },
                                ..st
                            };
                            let r = parse_branch(l.items, start, index, tree_position(l.items[start]));
                            if let Some(st2) = with_branch(st1, r) {
                                if index + 1 >= n {
                                    lemma_if_scan_local(
                                        l,
                                        index + 1,
                                        start,
                                        IfState {
                                            local: st2.local.push(diag(tok.position, "'else' requires at least 1 body expression")),
                                            ..st2
                                        },
                                    );
                                }
                            }
                        },
                        Some(_) => {
                            lemma_if_scan_local(l, index + 1, start, st);
                        },
                    }
                } else {
                    lemma_if_scan_local(l, index + 1, start, st);
                }
            },
            _ => {
                lemma_if_scan_local(l, index + 1, start, st);
            },
        }
    }
}

/// What reading the branch `s[lo..hi]` gives, when it is a branch: a nonempty body.
proof fn lemma_branch_body(s: Seq<SpecTokenTree>, lo: int, hi: int, pos: SpecPosition)
    ensures
        parse_branch(s, lo, hi, pos) matches Some((Ok(b), _)) ==> b.block.contents.len() == hi - lo - 1 > 0,
{
    if !(hi - lo < 2 || lo < 0 || hi > s.len()) {
        lemma_parse_sequence_len(s, lo + 1, hi, (seq![], seq![]));
    }
}

proof fn lemma_if_scan_shape(l: SpecTokenTreeList, index: int, start: int, st: IfState)
    requires
        1 <= start <= index <= l.items.len(),
        st.else_branch is None,
        forall|k: int| 0 <= k < st.branches.len() ==> (#[trigger] st.branches[k]).block.contents.len() > 0,
    ensures
        if_scan(l, index, start, st) matches Some((SpecExpr::IfExpr(e), _)) ==> {
            let n = l.items.len() as int;
            let f = first_else(l.items, index);
            &&& e.position == l.position
            &&& e.branches.len() == st.branches.len() + 1 + count_elifs(l.items, index, f)
            &&& (e.else_branch is Some <==> f < n)
            &&& (e.else_branch matches Some(eb) ==> (*eb matches SpecExpr::Block(b) && b.contents.len() == n - f - 1
                && b.contents.len() > 0))
            &&& forall|k: int| 0 <= k < e.branches.len() ==> (#[trigger] e.branches[k]).block.contents.len() > 0
        },
    decreases l, l.items.len() + 2 - index,
{
    let n = l.items.len() as int;
    if index >= n {
        if start < n {
            let r = parse_branch(l.items, start, n, tree_position(l.items[start]));
            lemma_branch_body(l.items, start, n, tree_position(l.items[start]));
            if let Some((Ok(b), d)) = r {
                let bs = st.branches.push(b);
                assert forall|k: int| 0 <= k < bs.len() implies (#[trigger] bs[k]).block.contents.len() > 0 by {
                    if k < st.branches.len() {
                        assert(bs[k] == st.branches[k]);
                    }
                }
            } else if let Some((Err(e), d)) = r {
                lemma_if_scan_local(l, index, start, IfState { local: st.local.push(e), emitted: st.emitted + d, ..st });
            }
        }
    } else {
        lemma_first_else_bounds(l.items, index + 1);
        let t = l.items[index];
        let is_else = is_keyword_tree(t, Keyword::Else);
        let is_elif = is_keyword_tree(t, Keyword::Elif);
        if !is_else {
            assert(first_else(l.items, index) == first_else(l.items, index + 1));
        }
        match t {
            SpecTokenTree::Token(tok) => {
                if tok.ty == TokenType::Keyword {
                    match keyword_of(tok.value) {
                        None => {},
                        Some(Keyword::Elif) => {
                            let st1 = IfState {
                                local: if index == start { st.local.push(diag(tok.position, "missing branch before 'elif'")) } else { st.local },
                                ..st
                            };
                            let r = parse_branch(l.items, start, index, tree_position(l.items[start]));
                            lemma_branch_body(l.items, start, index, tree_position(l.items[start]));
                            if let Some(st2) = with_branch(st1, r) {
                                if st2.local.len() > 0 {
                                    lemma_if_scan_local(l, index + 1, index + 1, st2);
                                } else {
                                    if let Some((Ok(b), d)) = r {
                                        assert forall|k: int| 0 <= k < st2.branches.len() implies (#[trigger] st2.branches[k]).block.contents.len() > 0 by {
                                            if k < st.branches.len() {
                                                assert(st2.branches[k] == st.branches[k]);
                                            }
                                        }
                                    }
                                    lemma_if_scan_shape(l, index + 1, index + 1, st2);
                                }
                            }
                        },
                        Some(Keyword::Else) => {
                            assert(first_else(l.items, index) == index);
                            let st1 = IfState {
                                local: if index == start { st.local.push(diag(tok.position, "missing branch before 'else'")) } else { st.local },
                                ..st
                            };
                            let r = parse_branch(l.items, start, index, tree_position(l.items[start]));
                            lemma_branch_body(l.items, start, index, tree_position(l.items[start]));
                            if let Some(st2) = with_branch(st1, r) {
                                if index + 1 >= n {
                                    lemma_if_scan_local(
                                        l,
                                        index + 1,
                                        start,
                                        IfState {
                                            local: st2.local.push(diag(tok.position, "'else' requires at least 1 body expression")),
                                            ..st2
                                        },
                                    );
                                } else {
                                    lemma_parse_sequence_len(l.items, index + 1, n, (seq![], seq![]));
                                    assert(parse_sequence(l.items, index + 1, n) == parse_sequence_from(
                                        l.items,
                                        index + 1,
                                        n,
                                        (seq![], seq![]),
                                    ));
                                    if let Some((Ok(b), d)) = r {
                                        assert forall|k: int| 0 <= k < st2.branches.len() implies (#[trigger] st2.branches[k]).block.contents.len() > 0 by {
                                            if k < st.branches.len() {
                                                assert(st2.branches[k] == st.branches[k]);
                                            }
                                        }
                                    }
                                }
                            }
                        },
                        Some(_) => {
                            lemma_if_scan_shape(l, index + 1, start, st);
                        },
                    }
                } else {
                    lemma_if_scan_shape(l, index + 1, start, st);
                }
            },
            _ => {
                lemma_if_scan_shape(l, index + 1, start, st);
            },
        }
    }
}

/// The shape of an `if` that reads without error: its branches are one more than the
/// `:elif`s before the first `:else`; it has an else block exactly when an `:else` stands
/// among its items, and that block holds the items after it, at least one; every branch
/// has a nonempty body.
pub proof fn lemma_if_shape(l: SpecTokenTreeList)
    ensures
        parse_if(l) matches Some((SpecExpr::IfExpr(e), _)) ==> {
            let n = l.items.len() as int;
            let f = first_else(l.items, 1);
            &&& e.position == l.position
            &&& e.branches.len() == 1 + count_elifs(l.items, 1, f)
            &&& (e.else_branch is Some <==> f < n)
            &&& (e.else_branch matches Some(eb) ==> (*eb matches SpecExpr::Block(b) && b.contents.len() == n - f - 1
                && b.contents.len() > 0))
            &&& forall|k: int| 0 <= k < e.branches.len() ==> (#[trigger] e.branches[k]).block.contents.len() > 0
        },
{
    if l.items.len() >= 3 {
        lemma_if_scan_shape(l, 1, 1, IfState { branches: seq![], else_branch: None, local: seq![], emitted: seq![] });
    }
}

} // verus!
