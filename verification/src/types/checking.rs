//! What checking an expression gives: its type, the environment after it, and the
//! diagnostics reported. `None` stands for an expression on which checking cannot go on
//! (an `Error`, an empty block, an `if` with no branch, or a call of `len` or `nth`).
use vstd::prelude::*;

use crate::ast::{
    LiteralType, SpecAssignment, SpecBlock, SpecDeclaration, SpecProgram, SpecBranch, SpecClosure, SpecExpr, SpecFuncall, SpecParameter, SpecTypeAnnotation,
    SpecTypeExpr,
};
use crate::diagnostics::{diag, SpecDiagnostic};
use crate::position::SpecPosition;
use crate::types::types::SpecType;

verus! {

/// What the environment knows of a name.
pub struct SpecSymbol {
    pub ty: SpecType,
    pub mutable: bool,
}

/// A name bound in the environment.
pub struct SpecBinding {
    pub name: Seq<char>,
    pub symbol: SpecSymbol,
}

/// The environment: bindings in the order made; a later binding of a name hides the
/// earlier ones.
pub type SpecEnv = Seq<SpecBinding>;

/// What the environment binds `name` to, if anything: its latest binding.
pub open spec fn lookup(env: SpecEnv, name: Seq<char>) -> Option<SpecSymbol>
    decreases env.len(),
{
    if env.len() == 0 {
        None
    } else if env.last().name == name {
        Some(env.last().symbol)
    } else {
        lookup(env.drop_last(), name)
    }
}

/// `env` with `name` bound to `symbol`.
pub open spec fn bind(env: SpecEnv, name: Seq<char>, symbol: SpecSymbol) -> SpecEnv {
    env.push(SpecBinding { name, symbol })
}

/// A type, the environment after, and the diagnostics reported.
pub type Checked = Option<(SpecType, SpecEnv, Seq<SpecDiagnostic>)>;

/// The diagnostics a check reported (none when it could not go on).
pub open spec fn diags_of(c: Checked) -> Seq<SpecDiagnostic> {
    match c {
        Some((_, _, ds)) => ds,
        None => seq![],
    }
}

/// The type that an annotation names: `int`, `float`, `bool`, `string` or `unit`;
/// another name is an unknown type.
pub open spec fn check_type_annotation(a: SpecTypeAnnotation) -> (SpecType, Seq<SpecDiagnostic>)
    decreases a,
{
    match a.value {
        SpecTypeExpr::Named(n) => if n == "int"@ {
            (SpecType::Int, seq![])
        } else if n == "float"@ {
            (SpecType::Float, seq![])
        } else if n == "bool"@ {
            (SpecType::Bool, seq![])
        } else if n == "string"@ {
            (SpecType::String, seq![])
        } else if n == "unit"@ {
            (SpecType::Unit, seq![])
        } else {
            (SpecType::Error, seq![diag(a.position, "unknown type")])
        },
        SpecTypeExpr::Function { params, ret } => {
            let (ps, d1) = check_type_annotations(params, 0, (seq![], seq![]));
            let (r, d2) = check_type_annotation(*ret);
            (SpecType::Function { params: ps, return_ty: Box::new(r) }, d1 + d2)
        },
    }
}

/// The annotations `s[i..]`, after `acc`.
pub open spec fn check_type_annotations(
    s: Seq<SpecTypeAnnotation>,
    i: int,
    acc: (Seq<SpecType>, Seq<SpecDiagnostic>),
) -> (Seq<SpecType>, Seq<SpecDiagnostic>)
    decreases s, s.len() - i,
{
    if i < 0 || i >= s.len() {
        acc
    } else {
        let (t, d) = check_type_annotation(s[i]);
        check_type_annotations(s, i + 1, (acc.0.push(t), acc.1 + d))
    }
}

/// The types of the parameters `ps[i..]`, after `acc`.
pub open spec fn param_types(ps: Seq<SpecParameter>, i: int, acc: (Seq<SpecType>, Seq<SpecDiagnostic>)) -> (
    Seq<SpecType>,
    Seq<SpecDiagnostic>,
)
    decreases ps.len() - i,
{
    if i < 0 || i >= ps.len() {
        acc
    } else {
        let (t, d) = check_type_annotation(ps[i].ty);
        param_types(ps, i + 1, (acc.0.push(t), acc.1 + d))
    }
}

/// The type of a function declared by a closure: the return type is checked first.
pub open spec fn function_type_from_closure(c: SpecClosure) -> (SpecType, Seq<SpecDiagnostic>) {
    let (r, d1) = check_type_annotation(c.return_type);
    let (ps, d2) = param_types(c.params, 0, (seq![], seq![]));
    (SpecType::Function { params: ps, return_ty: Box::new(r) }, d1 + d2)
}

/// Binds the parameters `ps[i..]` as mutable variables of their annotated types.
pub open spec fn bind_params(ps: Seq<SpecParameter>, i: int, env: SpecEnv, acc: Seq<SpecDiagnostic>) -> (
    SpecEnv,
    Seq<SpecDiagnostic>,
)
    decreases ps.len() - i,
{
    if i < 0 || i >= ps.len() {
        (env, acc)
    } else {
        let (t, d) = check_type_annotation(ps[i].ty);
        bind_params(ps, i + 1, bind(env, ps[i].name.value, SpecSymbol { ty: t, mutable: true }), acc + d)
    }
}

pub open spec fn literal_type(ty: LiteralType) -> SpecType {
    match ty {
        LiteralType::Int => SpecType::Int,
        LiteralType::Float => SpecType::Float,
        LiteralType::Bool => SpecType::Bool,
        LiteralType::String => SpecType::String,
        LiteralType::Unit => SpecType::Unit,
    }
}

/// The operators with a meaning of their own: `+ - * / = < <= > >=`, and `len`, `nth`,
/// which have none yet.
pub enum Builtin {
    Arithmetic,
    Equality,
    Comparison,
    Unsupported,
}

pub open spec fn builtin_of(name: Seq<char>) -> Option<Builtin> {
    if name == "+"@ || name == "-"@ || name == "*"@ || name == "/"@ {
        Some(Builtin::Arithmetic)
    } else if name == "="@ {
        Some(Builtin::Equality)
    } else if name == "<"@ || name == "<="@ || name == ">"@ || name == ">="@ {
        Some(Builtin::Comparison)
    } else if name == "len"@ || name == "nth"@ {
        Some(Builtin::Unsupported)
    } else {
        None
    }
}

/// The builtin a call names: its callee is a variable with a builtin's name.
pub open spec fn call_builtin(f: SpecFuncall) -> Option<Builtin> {
    match *f.callee {
        SpecExpr::Variable(v) => builtin_of(v.value),
        _ => None,
    }
}

pub open spec fn msg_unknown_variable(name: Seq<char>) -> Seq<char> {
    "the variable "@ + name + " doesn't exist"@
}

pub open spec fn msg_immutable(name: Seq<char>) -> Seq<char> {
    "the variable '"@ + name + "' cannot be modified"@
}

pub open spec fn msg_missing_variable(name: Seq<char>) -> Seq<char> {
    "variable '"@ + name + "' doesn't exist"@
}

/// The type of an expression in `env`, the environment after it, and the diagnostics.
pub open spec fn check_expr(e: SpecExpr, env: SpecEnv) -> Checked
    decreases e, 2int,
{
    match e {
        SpecExpr::Literal(l) => Some((literal_type(l.ty), env, seq![])),
        SpecExpr::Variable(v) => match lookup(env, v.value) {
            Some(s) => Some((s.ty, env, seq![])),
            None => Some(
                (
                    SpecType::Error,
                    env,
                    seq![SpecDiagnostic { position: v.position, msg: msg_unknown_variable(v.value) }],
                ),
            ),
        },
        SpecExpr::Defun(d) => {
            let (ft, d1) = function_type_from_closure(d.closure);
            let env1 = bind(env, d.name.value, SpecSymbol { ty: ft, mutable: false });
            match check_closure(d.closure, env1) {
                None => None,
                Some((_, env2, d2)) => Some((SpecType::Unit, env2, d1 + d2)),
            }
        },
        SpecExpr::Declaration(d) => {
            let name = d.signature.name;
            if lookup(env, name.value) is Some {
                Some((SpecType::Error, env, seq![diag(name.position, "variable already exists")]))
            } else {
                let (t1, d1) = check_type_annotation(d.signature.ty);
                match check_expr(*d.value, env) {
                    None => None,
                    Some((t2, env1, d2)) => if t1 != t2 {
                        Some((SpecType::Error, env1, (d1 + d2).push(diag(d.signature.ty.position, "unmatched type"))))
                    } else {
                        let (t3, d3) = check_type_annotation(d.signature.ty);
                        Some(
                            (
                                SpecType::Unit,
                                bind(env1, name.value, SpecSymbol { ty: t3, mutable: d.mutable }),
                                d1 + d2 + d3,
                            ),
                        )
                    },
                }
            }
        },
        SpecExpr::Assignment(a) => {
            let var = a.variable;
            match lookup(env, var.value) {
                None => Some(
                    (
                        SpecType::Error,
                        env,
                        seq![SpecDiagnostic { position: var.position, msg: msg_missing_variable(var.value) }],
                    ),
                ),
                Some(s) => if !s.mutable {
                    Some(
                        (
                            SpecType::Error,
                            env,
                            seq![SpecDiagnostic { position: var.position, msg: msg_immutable(var.value) }],
                        ),
                    )
                } else {
                    match check_expr(*a.value, env) {
                        None => None,
                        Some((t, env1, d)) => if s.ty != t {
                            Some((SpecType::Error, env1, d.push(diag(var.position, "unmatched type"))))
                        } else {
                            Some((SpecType::Unit, env1, d))
                        },
                    }
                },
            }
        },
        SpecExpr::Block(b) => match check_block(b, env) {
            None => None,
            Some((t, d)) => Some((t, env, d)),
        },
        SpecExpr::Funcall(f) => check_funcall(f, env),
        SpecExpr::Closure(c) => check_closure(c, env),
        SpecExpr::IfExpr(i) => if i.branches.len() == 0 {
            None
        } else {
            match check_block(i.branches[0].block, env) {
                None => None,
                Some((t0, d0)) => match check_branches(i.branches, 1, env, t0, d0) {
                    None => None,
                    Some(d1) => match i.else_branch {
                        None => Some((t0, env, d1)),
                        Some(eb) => match check_expr(*eb, env) {
                            None => None,
                            Some((te, env1, d2)) => Some(
                                (
                                    t0,
                                    env1,
                                    if te != t0 {
                                        (d1 + d2).push(diag((*eb).position(), "unmatched type"))
                                    } else {
                                        d1 + d2
                                    },
                                ),
                            ),
                        },
                    },
                },
            }
        },
        SpecExpr::Or(c) => match check_conditions(c.conditions, 0, env, "'or' requires booleans"@, seq![]) {
            None => None,
            Some((env1, d)) => Some((SpecType::Bool, env1, d)),
        },
        SpecExpr::And(c) => match check_conditions(c.conditions, 0, env, "'and' requires booleans"@, seq![]) {
            None => None,
            Some((env1, d)) => Some((SpecType::Bool, env1, d)),
        },
        SpecExpr::Not(n) => match check_expr(*n.condition, env) {
            None => None,
            Some((t, env1, d)) => Some(
                (
                    SpecType::Bool,
                    env1,
                    if t != SpecType::Bool {
                        d.push(diag((*n.condition).position(), "'not' requires a boolean"))
                    } else {
                        d
                    },
                ),
            ),
        },
        SpecExpr::Error => None,
    }
}

/// A block: each expression in a copy of `env`, then the last one once more; its type
/// is the last one's. The environment is left as it was.
pub open spec fn check_block(b: SpecBlock, env: SpecEnv) -> Option<(SpecType, Seq<SpecDiagnostic>)>
    decreases b, 1int,
{
    if b.contents.len() == 0 {
        None
    } else {
        match check_all(b.contents, 0, env, seq![]) {
            None => None,
            Some((env1, d1)) => match check_expr(b.contents.last(), env1) {
                None => None,
                Some((t, _, d2)) => Some((t, d1 + d2)),
            },
        }
    }
}

/// The expressions `s[i..]`, in order.
pub open spec fn check_all(s: Seq<SpecExpr>, i: int, env: SpecEnv, acc: Seq<SpecDiagnostic>) -> Option<
    (SpecEnv, Seq<SpecDiagnostic>),
>
    decreases s, s.len() - i,
{
    if i < 0 || i >= s.len() {
        Some((env, acc))
    } else {
        match check_expr(s[i], env) {
            None => None,
            Some((_, env1, d)) => check_all(s, i + 1, env1, acc + d),
        }
    }
}

/// A closure: its parameters are bound, as mutable variables, in `env` itself (they stay
/// bound after it), then its body is checked; its type is the function type its annotations
/// give. Only the parameters' annotations are reported here.
pub open spec fn check_closure(c: SpecClosure, env: SpecEnv) -> Checked
    decreases c, 2int,
{
    let (env1, d1) = bind_params(c.params, 0, env, seq![]);
    match check_block(c.body, env1) {
        None => None,
        Some((_, d2)) => Some((function_type_from_closure(c).0, env1, d1 + d2)),
    }
}

/// The branches `bs[i..]` after the first: each must have the first one's type `t0`.
pub open spec fn check_branches(
    bs: Seq<SpecBranch>,
    i: int,
    env: SpecEnv,
    t0: SpecType,
    acc: Seq<SpecDiagnostic>,
) -> Option<Seq<SpecDiagnostic>>
    decreases bs, bs.len() - i,
{
    if i < 0 || i >= bs.len() {
        Some(acc)
    } else {
        match check_block(bs[i].block, env) {
            None => None,
            Some((t, d)) => check_branches(
                bs,
                i + 1,
                env,
                t0,
                if t != t0 {
                    (acc + d).push(diag(bs[i].block.position, "unmatched type"))
                } else {
                    acc + d
                },
            ),
        }
    }
}

/// The conditions `cs[i..]`, each of which must be a boolean.
pub open spec fn check_conditions(
    cs: Seq<SpecExpr>,
    i: int,
    env: SpecEnv,
    msg: Seq<char>,
    acc: Seq<SpecDiagnostic>,
) -> Option<(SpecEnv, Seq<SpecDiagnostic>)>
    decreases cs, cs.len() - i,
{
    if i < 0 || i >= cs.len() {
        Some((env, acc))
    } else {
        match check_expr(cs[i], env) {
            None => None,
            Some((t, env1, d)) => check_conditions(
                cs,
                i + 1,
                env1,
                msg,
                if t != SpecType::Bool {
                    (acc + d).push(SpecDiagnostic { position: cs[i].position(), msg })
                } else {
                    acc + d
                },
            ),
        }
    }
}

/// A call: a builtin operator, or a function applied to arguments of its parameters' types.
pub open spec fn check_funcall(f: SpecFuncall, env: SpecEnv) -> Checked
    decreases f, 1int,
{
    match call_builtin(f) {
        Some(Builtin::Arithmetic) => check_arithmetic(f, env),
        Some(Builtin::Equality) => check_equality(f, env),
        Some(Builtin::Comparison) => check_comparison(f, env),
        Some(Builtin::Unsupported) => None,
        None => match check_expr(*f.callee, env) {
            None => None,
            Some((SpecType::Function { params, return_ty }, env1, d1)) => if params.len() != f.args.len() {
                Some((SpecType::Error, env1, d1.push(diag((*f.callee).position(), "wrong number of arguments"))))
            } else {
                match check_args(f.args, params, 0, env1, d1) {
                    None => None,
                    Some((env2, d2)) => Some((*return_ty, env2, d2)),
                }
            },
            Some((SpecType::Error, env1, d1)) => Some((SpecType::Error, env1, d1)),
            Some((_, env1, d1)) => Some(
                (SpecType::Error, env1, d1.push(diag((*f.callee).position(), "callee is not a function"))),
            ),
        },
    }
}

/// The arguments `args[i..]`, each of which must have its parameter's type.
pub open spec fn check_args(
    args: Seq<SpecExpr>,
    params: Seq<SpecType>,
    i: int,
    env: SpecEnv,
    acc: Seq<SpecDiagnostic>,
) -> Option<(SpecEnv, Seq<SpecDiagnostic>)>
    decreases args, args.len() - i,
{
    if i < 0 || i >= args.len() {
        Some((env, acc))
    } else {
        match check_expr(args[i], env) {
            None => None,
            Some((t, env1, d)) => check_args(
                args,
                params,
                i + 1,
                env1,
                if t != params[i] {
                    (acc + d).push(diag(args[i].position(), "unmatched type"))
                } else {
                    acc + d
                },
            ),
        }
    }
}

/// How the first pass over an arithmetic call's arguments ends.
pub enum ArithmeticScan {
    /// All are ints or floats; whether a float was seen.
    Numbers(bool),
    /// One was an error or no number.
    Stopped,
}

/// First pass: the arguments `args[i..]` must all be ints or floats.
pub open spec fn scan_numbers(
    args: Seq<SpecExpr>,
    i: int,
    env: SpecEnv,
    position: SpecPosition,
    saw_float: bool,
    acc: Seq<SpecDiagnostic>,
) -> Option<(ArithmeticScan, SpecEnv, Seq<SpecDiagnostic>)>
    decreases args, args.len() - i,
{
    if i < 0 || i >= args.len() {
        Some((ArithmeticScan::Numbers(saw_float), env, acc))
    } else {
        match check_expr(args[i], env) {
            None => None,
            Some((t, env1, d)) => match t {
                SpecType::Int => scan_numbers(args, i + 1, env1, position, saw_float, acc + d),
                SpecType::Float => scan_numbers(args, i + 1, env1, position, true, acc + d),
                SpecType::Error => Some((ArithmeticScan::Stopped, env1, acc + d)),
                _ => Some(
                    (
                        ArithmeticScan::Stopped,
                        env1,
                        (acc + d).push(
                            diag(
                                position,
                                "arithmetic operators require all arguments to be ints or all arguments to be floats",
                            ),
                        ),
                    ),
                ),
            },
        }
    }
}

/// Second pass: the arguments `args[i..]` must have the first one's type.
pub open spec fn scan_same(
    args: Seq<SpecExpr>,
    i: int,
    env: SpecEnv,
    position: SpecPosition,
    first: SpecType,
    acc: Seq<SpecDiagnostic>,
) -> Option<(bool, SpecEnv, Seq<SpecDiagnostic>)>
    decreases args, args.len() - i,
{
    if i < 0 || i >= args.len() {
        Some((true, env, acc))
    } else {
        match check_expr(args[i], env) {
            None => None,
            Some((t, env1, d)) => if t != first {
                Some(
                    (
                        false,
                        env1,
                        (acc + d).push(
                            diag(position, "arithmetic operators require all arguments to have the same numeric type"),
                        ),
                    ),
                )
            } else {
                scan_same(args, i + 1, env1, position, first, acc + d)
            },
        }
    }
}

/// `+ - * /`: at least two arguments, all ints or all floats. The arguments are checked
/// once, then the first once more and the others against it.
pub open spec fn check_arithmetic(f: SpecFuncall, env: SpecEnv) -> Checked
    decreases f, 0int,
{
    if f.args.len() < 2 {
        Some((SpecType::Error, env, seq![diag(f.position, "arithmetic operators require at least 2 arguments")]))
    } else {
        match scan_numbers(f.args, 0, env, f.position, false, seq![]) {
            None => None,
            Some((ArithmeticScan::Stopped, env1, d)) => Some((SpecType::Error, env1, d)),
            Some((ArithmeticScan::Numbers(saw_float), env1, d)) => match check_expr(f.args[0], env1) {
                None => None,
                Some((first, env2, d1)) => match scan_same(f.args, 1, env2, f.position, first, d + d1) {
                    None => None,
                    Some((ok, env3, d2)) => Some(
                        (
                            if !ok {
                                SpecType::Error
                            } else if saw_float {
                                SpecType::Float
                            } else {
                                SpecType::Int
                            },
                            env3,
                            d2,
                        ),
                    ),
                },
            },
        }
    }
}

/// `=`: two arguments of one type, which is no function type.
pub open spec fn check_equality(f: SpecFuncall, env: SpecEnv) -> Checked
    decreases f, 0int,
{
    if f.args.len() != 2 {
        Some((SpecType::Error, env, seq![diag(f.position, "wrong number of arguments")]))
    } else {
        match check_expr(f.args[0], env) {
            None => None,
            Some((l, env1, d1)) => match check_expr(f.args[1], env1) {
                None => None,
                Some((r, env2, d2)) => {
                    let d = d1 + d2;
                    if l == SpecType::Error || r == SpecType::Error {
                        Some((SpecType::Error, env2, d))
                    } else if l != r {
                        Some((SpecType::Error, env2, d.push(diag(f.position, "'=' requires both arguments to have the same type"))))
                    } else if l is Function {
                        Some((SpecType::Error, env2, d.push(diag(f.position, "'=' does not support functions"))))
                    } else {
                        Some((SpecType::Bool, env2, d))
                    }
                },
            },
        }
    }
}

/// `< <= > >=`: two ints or two floats.
pub open spec fn check_comparison(f: SpecFuncall, env: SpecEnv) -> Checked
    decreases f, 0int,
{
    if f.args.len() != 2 {
        Some((SpecType::Error, env, seq![diag(f.position, "wrong number of arguments")]))
    } else {
        match check_expr(f.args[0], env) {
            None => None,
            Some((l, env1, d1)) => match check_expr(f.args[1], env1) {
                None => None,
                Some((r, env2, d2)) => {
                    let d = d1 + d2;
                    if (l == SpecType::Int && r == SpecType::Int) || (l == SpecType::Float && r == SpecType::Float) {
                        Some((SpecType::Bool, env2, d))
                    } else if l == SpecType::Error || r == SpecType::Error {
                        Some((SpecType::Error, env2, d))
                    } else {
                        Some((SpecType::Error, env2, d.push(diag(f.position, "comparison operators require two ints or two floats"))))
                    }
                },
            },
        }
    }
}

/// Checking the expressions of a program one after the other, each in the environment
/// the one before left.
pub open spec fn check_exprs(s: Seq<SpecExpr>, i: int, env: SpecEnv, acc: Seq<SpecDiagnostic>) -> Option<
    (SpecEnv, Seq<SpecDiagnostic>),
>
    decreases s.len() - i,
{
    if i < 0 || i >= s.len() {
        Some((env, acc))
    } else {
        match check_expr(s[i], env) {
            None => None,
            Some((_, env1, d)) => check_exprs(s, i + 1, env1, acc + d),
        }
    }
}

/// Checking a program in `env`: its expressions one after the other. The environment
/// after it, and the diagnostics; `None` where checking cannot go on.
pub open spec fn check_program_in(p: SpecProgram, env: SpecEnv) -> Option<(SpecEnv, Seq<SpecDiagnostic>)> {
    check_exprs(p.expressions, 0, env, seq![])
}

/// The latest binding of a name is the one looked up.
pub proof fn lemma_lookup_bind(env: SpecEnv, name: Seq<char>, symbol: SpecSymbol)
    ensures
        lookup(bind(env, name, symbol), name) == Some(symbol),
{
    assert(bind(env, name, symbol).last() == SpecBinding { name, symbol });
}

/// A variable declared with `let` cannot be assigned: once the declaration is accepted,
/// an assignment to the name is refused with "the variable '..' cannot be modified",
/// whatever the value.
pub proof fn lemma_let_is_immutable(d: SpecDeclaration, a: SpecAssignment, env: SpecEnv)
    requires
        !d.mutable,
        a.variable.value == d.signature.name.value,
        check_expr(SpecExpr::Declaration(d), env) matches Some((t, _, _)) && t == SpecType::Unit,
    ensures
        match check_expr(SpecExpr::Declaration(d), env) {
            Some((_, env1, _)) => check_expr(SpecExpr::Assignment(a), env1) == Some(
                (
                    SpecType::Error,
                    env1,
                    seq![SpecDiagnostic { position: a.variable.position, msg: msg_immutable(a.variable.value) }],
                ),
            ),
            None => false,
        },
{
    let name = d.signature.name;
    let (t1, d1) = check_type_annotation(d.signature.ty);
    let (t2, env1, d2) = check_expr(*d.value, env)->0;
    let (t3, d3) = check_type_annotation(d.signature.ty);
    lemma_lookup_bind(env1, name.value, SpecSymbol { ty: t3, mutable: d.mutable });
}

/// A variable declared with `mut` can be assigned a value of its declared type: once the
/// declaration is accepted, such an assignment is accepted and reports only what the value
/// reports.
pub proof fn lemma_mut_is_assignable(d: SpecDeclaration, a: SpecAssignment, env: SpecEnv)
    requires
        d.mutable,
        a.variable.value == d.signature.name.value,
        check_expr(SpecExpr::Declaration(d), env) matches Some((t, _, _)) && t == SpecType::Unit,
    ensures
        match check_expr(SpecExpr::Declaration(d), env) {
            Some((_, env1, _)) => match check_expr(*a.value, env1) {
                Some((t, env2, ds)) => t == check_type_annotation(d.signature.ty).0 ==> check_expr(
                    SpecExpr::Assignment(a),
                    env1,
                ) == Some((SpecType::Unit, env2, ds)),
                None => check_expr(SpecExpr::Assignment(a), env1) is None,
            },
            None => false,
        },
{
    let name = d.signature.name;
    let (t2, env1, d2) = check_expr(*d.value, env)->0;
    let (t3, d3) = check_type_annotation(d.signature.ty);
    lemma_lookup_bind(env1, name.value, SpecSymbol { ty: t3, mutable: d.mutable });
}

/// A name that is already bound cannot be declared again: the declaration is refused with
/// "variable already exists", and the environment stays as it was.
pub proof fn lemma_redeclaration_refused(d: SpecDeclaration, env: SpecEnv)
    requires
        lookup(env, d.signature.name.value) is Some,
    ensures
        check_expr(SpecExpr::Declaration(d), env) == Some(
            (SpecType::Error, env, seq![diag(d.signature.name.position, "variable already exists")]),
        ),
{
}

/// `env1` holds the bindings of `env`, in order, and possibly more after them.
pub open spec fn extends(env1: SpecEnv, env: SpecEnv) -> bool {
    env.len() <= env1.len() && env1.subrange(0, env.len() as int) == env
}

proof fn lemma_extends_trans(a: SpecEnv, b: SpecEnv, c: SpecEnv)
    requires
        extends(b, a),
        extends(c, b),
    ensures
        extends(c, a),
{
    assert(c.subrange(0, a.len() as int) =~= b.subrange(0, a.len() as int));
}

proof fn lemma_extends_bind(env: SpecEnv, name: Seq<char>, symbol: SpecSymbol)
    ensures
        extends(bind(env, name, symbol), env),
{
    assert(bind(env, name, symbol).subrange(0, env.len() as int) =~= env);
}

/// A name bound in `env` is still bound in an environment that extends it.
pub proof fn lemma_lookup_extends(env: SpecEnv, env1: SpecEnv, name: Seq<char>)
    requires
        extends(env1, env),
        lookup(env, name) is Some,
    ensures
        lookup(env1, name) is Some,
    decreases env1.len(),
{
    if env1.len() > env.len() {
        assert(extends(env1.drop_last(), env)) by {
            assert(env1.drop_last().subrange(0, env.len() as int) =~= env1.subrange(0, env.len() as int));
        }
        if env1.last().name != name {
            lemma_lookup_extends(env, env1.drop_last(), name);
        }
    } else {
        assert(env1 =~= env);
    }
}

proof fn lemma_bind_params_extends(ps: Seq<SpecParameter>, i: int, env: SpecEnv, acc: Seq<SpecDiagnostic>)
    ensures
        extends(bind_params(ps, i, env, acc).0, env),
    decreases ps.len() - i,
{
    if 0 <= i < ps.len() {
        let (t, d) = check_type_annotation(ps[i].ty);
        let env1 = bind(env, ps[i].name.value, SpecSymbol { ty: t, mutable: true });
        lemma_extends_bind(env, ps[i].name.value, SpecSymbol { ty: t, mutable: true });
        lemma_bind_params_extends(ps, i + 1, env1, acc + d);
        lemma_extends_trans(env, env1, bind_params(ps, i + 1, env1, acc + d).0);
    } else {
        assert(env.subrange(0, env.len() as int) =~= env);
    }
}

/// A closure leaves the environment with its parameters bound.
proof fn lemma_check_closure_env(c: SpecClosure, env: SpecEnv)
    ensures
        check_closure(c, env) matches Some((_, after, _)) ==> after == bind_params(c.params, 0, env, seq![]).0,
{
}

/// Checking an expression never unbinds a name: the environment after extends the one before.
pub proof fn lemma_check_expr_extends(e: SpecExpr, env: SpecEnv)
    ensures
        check_expr(e, env) matches Some((_, after, _)) ==> extends(after, env),
    decreases e, 2int,
{
    assert(env.subrange(0, env.len() as int) =~= env);
    match e {
        SpecExpr::Defun(d) => {
            let ft = function_type_from_closure(d.closure).0;
            let named = bind(env, d.name.value, SpecSymbol { ty: ft, mutable: false });
            lemma_extends_bind(env, d.name.value, SpecSymbol { ty: ft, mutable: false });
            lemma_bind_params_extends(d.closure.params, 0, named, seq![]);
            lemma_extends_trans(env, named, bind_params(d.closure.params, 0, named, seq![]).0);
            lemma_check_closure_env(d.closure, named);
        },
        SpecExpr::Closure(c) => {
            lemma_bind_params_extends(c.params, 0, env, seq![]);
            lemma_check_closure_env(c, env);
        },
        SpecExpr::Declaration(d) => {
            lemma_check_expr_extends(*d.value, env);
            if let Some((t2, env1, d2)) = check_expr(*d.value, env) {
                let (t3, d3) = check_type_annotation(d.signature.ty);
                let sym = SpecSymbol { ty: t3, mutable: d.mutable };
                lemma_extends_bind(env1, d.signature.name.value, sym);
                lemma_extends_trans(env, env1, bind(env1, d.signature.name.value, sym));
            }
        },
        SpecExpr::Assignment(a) => {
            lemma_check_expr_extends(*a.value, env);
        },
        SpecExpr::Funcall(f) => {
            lemma_check_funcall_extends(f, env);
        },
        SpecExpr::IfExpr(i) => {
            if let Some(eb) = i.else_branch {
                lemma_check_expr_extends(*eb, env);
            }
        },
        SpecExpr::Or(c) => {
            lemma_check_conditions_extends(c.conditions, 0, env, "'or' requires booleans"@, seq![]);
        },
        SpecExpr::And(c) => {
            lemma_check_conditions_extends(c.conditions, 0, env, "'and' requires booleans"@, seq![]);
        },
        SpecExpr::Not(n) => {
            lemma_check_expr_extends(*n.condition, env);
        },
        _ => {},
    }
}

proof fn lemma_check_conditions_extends(
    cs: Seq<SpecExpr>,
    i: int,
    env: SpecEnv,
    msg: Seq<char>,
    acc: Seq<SpecDiagnostic>,
)
    ensures
        check_conditions(cs, i, env, msg, acc) matches Some((env1, _)) ==> extends(env1, env),
    decreases cs, cs.len() - i,
{
    assert(env.subrange(0, env.len() as int) =~= env);
    if 0 <= i < cs.len() {
        lemma_check_expr_extends(cs[i], env);
        if let Some((t, env1, d)) = check_expr(cs[i], env) {
            let acc1 = if t != SpecType::Bool {
                (acc + d).push(SpecDiagnostic { position: cs[i].position(), msg })
            } else {
                acc + d
            };
            lemma_check_conditions_extends(cs, i + 1, env1, msg, acc1);
            if let Some((env2, _)) = check_conditions(cs, i + 1, env1, msg, acc1) {
                lemma_extends_trans(env, env1, env2);
            }
        }
    }
}

proof fn lemma_check_args_extends(
    args: Seq<SpecExpr>,
    params: Seq<SpecType>,
    i: int,
    env: SpecEnv,
    acc: Seq<SpecDiagnostic>,
)
    ensures
        check_args(args, params, i, env, acc) matches Some((env1, _)) ==> extends(env1, env),
    decreases args, args.len() - i,
{
    assert(env.subrange(0, env.len() as int) =~= env);
    if 0 <= i < args.len() {
        lemma_check_expr_extends(args[i], env);
        if let Some((t, env1, d)) = check_expr(args[i], env) {
            let acc1 = if t != params[i] {
                (acc + d).push(diag(args[i].position(), "unmatched type"))
            } else {
                acc + d
            };
            lemma_check_args_extends(args, params, i + 1, env1, acc1);
            if let Some((env2, _)) = check_args(args, params, i + 1, env1, acc1) {
                lemma_extends_trans(env, env1, env2);
            }
        }
    }
}

proof fn lemma_scan_numbers_extends(
    args: Seq<SpecExpr>,
    i: int,
    env: SpecEnv,
    position: SpecPosition,
    saw_float: bool,
    acc: Seq<SpecDiagnostic>,
)
    ensures
        scan_numbers(args, i, env, position, saw_float, acc) matches Some((_, env1, _)) ==> extends(env1, env),
    decreases args, args.len() - i,
{
    assert(env.subrange(0, env.len() as int) =~= env);
    if 0 <= i < args.len() {
        lemma_check_expr_extends(args[i], env);
        if let Some((t, env1, d)) = check_expr(args[i], env) {
            lemma_scan_numbers_extends(args, i + 1, env1, position, saw_float, acc + d);
            lemma_scan_numbers_extends(args, i + 1, env1, position, true, acc + d);
            if let Some((_, env2, _)) = scan_numbers(args, i + 1, env1, position, saw_float, acc + d) {
                lemma_extends_trans(env, env1, env2);
            }
            if let Some((_, env2, _)) = scan_numbers(args, i + 1, env1, position, true, acc + d) {
                lemma_extends_trans(env, env1, env2);
            }
        }
    }
}

proof fn lemma_scan_same_extends(
    args: Seq<SpecExpr>,
    i: int,
    env: SpecEnv,
    position: SpecPosition,
    first: SpecType,
    acc: Seq<SpecDiagnostic>,
)
    ensures
        scan_same(args, i, env, position, first, acc) matches Some((_, env1, _)) ==> extends(env1, env),
    decreases args, args.len() - i,
{
    assert(env.subrange(0, env.len() as int) =~= env);
    if 0 <= i < args.len() {
        lemma_check_expr_extends(args[i], env);
        if let Some((t, env1, d)) = check_expr(args[i], env) {
            lemma_scan_same_extends(args, i + 1, env1, position, first, acc + d);
            if let Some((_, env2, _)) = scan_same(args, i + 1, env1, position, first, acc + d) {
                lemma_extends_trans(env, env1, env2);
            }
        }
    }
}

proof fn lemma_check_funcall_extends(f: SpecFuncall, env: SpecEnv)
    ensures
        check_funcall(f, env) matches Some((_, env1, _)) ==> extends(env1, env),
    decreases f, 1int,
{
    assert(env.subrange(0, env.len() as int) =~= env);
    match call_builtin(f) {
        Some(Builtin::Arithmetic) => {
            if f.args.len() >= 2 {
                lemma_scan_numbers_extends(f.args, 0, env, f.position, false, seq![]);
                if let Some((ArithmeticScan::Numbers(_), env1, d)) = scan_numbers(
                    f.args,
                    0,
                    env,
                    f.position,
                    false,
                    seq![],
                ) {
                    lemma_check_expr_extends(f.args[0], env1);
                    if let Some((first, env2, d1)) = check_expr(f.args[0], env1) {
                        lemma_extends_trans(env, env1, env2);
                        lemma_scan_same_extends(f.args, 1, env2, f.position, first, d + d1);
                        if let Some((_, env3, _)) = scan_same(f.args, 1, env2, f.position, first, d + d1) {
                            lemma_extends_trans(env, env2, env3);
                        }
                    }
                }
            }
        },
        Some(Builtin::Equality) | Some(Builtin::Comparison) => {
            if f.args.len() == 2 {
                lemma_check_expr_extends(f.args[0], env);
                if let Some((l, env1, d1)) = check_expr(f.args[0], env) {
                    lemma_check_expr_extends(f.args[1], env1);
                    if let Some((r, env2, d2)) = check_expr(f.args[1], env1) {
                        lemma_extends_trans(env, env1, env2);
                    }
                }
            }
        },
        Some(Builtin::Unsupported) => {},
        None => {
            lemma_check_expr_extends(*f.callee, env);
            if let Some((SpecType::Function { params, return_ty }, env1, d1)) = check_expr(*f.callee, env) {
                lemma_check_args_extends(f.args, params, 0, env1, d1);
                if let Some((env2, _)) = check_args(f.args, params, 0, env1, d1) {
                    lemma_extends_trans(env, env1, env2);
                }
            }
        },
    }
}

/// Checking a program never unbinds a name: every name known before is still known after,
/// so what one program declares stays known to the programs checked after it.
pub proof fn lemma_check_program_keeps_names(p: SpecProgram, env: SpecEnv, name: Seq<char>)
    requires
        lookup(env, name) is Some,
    ensures
        check_program_in(p, env) matches Some((env1, _)) ==> lookup(env1, name) is Some,
{
    lemma_check_exprs_extends(p.expressions, 0, env, seq![]);
    if let Some((env1, _)) = check_program_in(p, env) {
        lemma_lookup_extends(env, env1, name);
    }
}

proof fn lemma_check_exprs_extends(s: Seq<SpecExpr>, i: int, env: SpecEnv, acc: Seq<SpecDiagnostic>)
    ensures
        check_exprs(s, i, env, acc) matches Some((env1, _)) ==> extends(env1, env),
    decreases s.len() - i,
{
    assert(env.subrange(0, env.len() as int) =~= env);
    if 0 <= i < s.len() {
        lemma_check_expr_extends(s[i], env);
        if let Some((_, env1, d)) = check_expr(s[i], env) {
            lemma_check_exprs_extends(s, i + 1, env1, acc + d);
            if let Some((env2, _)) = check_exprs(s, i + 1, env1, acc + d) {
                lemma_extends_trans(env, env1, env2);
            }
        }
    }
}


/// The operator names, each told apart from the others.
proof fn lemma_operator_names()
    ensures
        builtin_of("+"@) == Some(Builtin::Arithmetic),
        builtin_of("-"@) == Some(Builtin::Arithmetic),
        builtin_of("*"@) == Some(Builtin::Arithmetic),
        builtin_of("/"@) == Some(Builtin::Arithmetic),
        builtin_of("<"@) == Some(Builtin::Comparison),
        builtin_of("<="@) == Some(Builtin::Comparison),
        builtin_of(">"@) == Some(Builtin::Comparison),
        builtin_of(">="@) == Some(Builtin::Comparison),
{
    reveal_strlit("+");
    reveal_strlit("-");
    reveal_strlit("*");
    reveal_strlit("/");
    reveal_strlit("=");
    reveal_strlit("<");
    reveal_strlit("<=");
    reveal_strlit(">");
    reveal_strlit(">=");
    reveal_strlit("len");
    reveal_strlit("nth");
    assert("+"@[0] == '+' && "-"@[0] == '-' && "*"@[0] == '*' && "/"@[0] == '/' && "="@[0] == '=');
    assert("<"@[0] == '<' && ">"@[0] == '>' && "<="@[0] == '<' && ">="@[0] == '>');
    assert("<="@[1] == '=' && ">="@[1] == '=');
}

/// Comparing two numbers of one kind gives a boolean: a call of `<`, `<=`, `>` or `>=`
/// on two arguments that both check as ints, or both as floats, has type `Bool`, leaves
/// the environment the second argument left, and reports only what its arguments
/// reported.
pub proof fn lemma_comparison_of_numbers(
    f: SpecFuncall,
    env: SpecEnv,
    t: SpecType,
    env1: SpecEnv,
    d1: Seq<SpecDiagnostic>,
    env2: SpecEnv,
    d2: Seq<SpecDiagnostic>,
)
    requires
        (*f.callee) matches SpecExpr::Variable(v) && (v.value == "<"@ || v.value == "<="@ || v.value == ">"@
            || v.value == ">="@),
        f.args.len() == 2,
        t == SpecType::Int || t == SpecType::Float,
        check_expr(f.args[0], env) == Some((t, env1, d1)),
        check_expr(f.args[1], env1) == Some((t, env2, d2)),
    ensures
        check_expr(SpecExpr::Funcall(f), env) == Some((SpecType::Bool, env2, d1 + d2)),
{
    lemma_operator_names();
    assert(call_builtin(f) == Some(Builtin::Comparison));
    assert(check_comparison(f, env) == Some((SpecType::Bool, env2, d1 + d2)));
    assert(check_funcall(f, env) == check_comparison(f, env));
}

/// What the arguments `args[i..]` report when each is checked in `env`, one after the other.
pub open spec fn reported_from(args: Seq<SpecExpr>, env: SpecEnv, i: int) -> Seq<SpecDiagnostic>
    decreases args.len() - i,
{
    if i < 0 || i >= args.len() {
        seq![]
    } else {
        diags_of(check_expr(args[i], env)) + reported_from(args, env, i + 1)
    }
}

/// Whether each of the arguments `args[i..]` checks as `ty` and leaves `env` as it was.
pub open spec fn all_check_as(args: Seq<SpecExpr>, env: SpecEnv, i: int, ty: SpecType) -> bool {
    forall|k: int|
        i <= k < args.len() ==> (#[trigger] check_expr(args[k], env)).is_some() && check_expr(args[k], env).unwrap().0
            == ty && check_expr(args[k], env).unwrap().1 == env
}

/// The first pass over arguments that all check as `ty` (an int or a float type) and
/// leave the environment as it was: it finds numbers, notes a float where `ty` is one,
/// and adds what the arguments reported.
proof fn lemma_scan_numbers_uniform(
    args: Seq<SpecExpr>,
    i: int,
    env: SpecEnv,
    position: SpecPosition,
    saw_float: bool,
    acc: Seq<SpecDiagnostic>,
    ty: SpecType,
)
    requires
        0 <= i <= args.len(),
        ty == SpecType::Int || ty == SpecType::Float,
        all_check_as(args, env, i, ty),
    ensures
        scan_numbers(args, i, env, position, saw_float, acc) == Some(
            (
                ArithmeticScan::Numbers(saw_float || (ty == SpecType::Float && i < args.len())),
                env,
                acc + reported_from(args, env, i),
            ),
        ),
    decreases args.len() - i,
{
    if i < args.len() {
        let c = check_expr(args[i], env);
        let sf = if ty == SpecType::Float { true } else { saw_float };
        lemma_scan_numbers_uniform(args, i + 1, env, position, sf, acc + c.unwrap().2, ty);
        assert(acc + c.unwrap().2 + reported_from(args, env, i + 1) =~= acc + reported_from(args, env, i));
    } else {
        assert(acc + reported_from(args, env, i) =~= acc);
    }
}

/// The second pass over arguments that all check as `ty` and leave the environment as
/// it was: all have the first one's type, and it adds what they reported.
proof fn lemma_scan_same_uniform(
    args: Seq<SpecExpr>,
    i: int,
    env: SpecEnv,
    position: SpecPosition,
    acc: Seq<SpecDiagnostic>,
    ty: SpecType,
)
    requires
        0 <= i <= args.len(),
        all_check_as(args, env, i, ty),
    ensures
        scan_same(args, i, env, position, ty, acc) == Some((true, env, acc + reported_from(args, env, i))),
    decreases args.len() - i,
{
    if i < args.len() {
        let c = check_expr(args[i], env);
        lemma_scan_same_uniform(args, i + 1, env, position, acc + c.unwrap().2, ty);
        assert(acc + c.unwrap().2 + reported_from(args, env, i + 1) =~= acc + reported_from(args, env, i));
    } else {
        assert(acc + reported_from(args, env, i) =~= acc);
    }
}

/// Arithmetic on numbers of one kind gives that kind: a call of `+`, `-`, `*` or `/`
/// on at least two arguments that all check as floats has type `Float`, and on
/// arguments that all check as ints has type `Int` (each argument leaving the
/// environment as it was). The call leaves the environment as it was and reports what
/// its arguments reported, twice, as they are checked twice.
pub proof fn lemma_arithmetic_of_numbers(f: SpecFuncall, env: SpecEnv, ty: SpecType)
    requires
        (*f.callee) matches SpecExpr::Variable(v) && (v.value == "+"@ || v.value == "-"@ || v.value == "*"@
            || v.value == "/"@),
        f.args.len() >= 2,
        ty == SpecType::Int || ty == SpecType::Float,
        all_check_as(f.args, env, 0, ty),
    ensures
        check_expr(SpecExpr::Funcall(f), env) == Some(
            (ty, env, reported_from(f.args, env, 0) + reported_from(f.args, env, 0)),
        ),
{
    lemma_operator_names();
    assert(call_builtin(f) == Some(Builtin::Arithmetic));
    assert(check_funcall(f, env) == check_arithmetic(f, env));
    lemma_scan_numbers_uniform(f.args, 0, env, f.position, false, seq![], ty);
    let c0 = check_expr(f.args[0], env);
    let d = reported_from(f.args, env, 0);
    assert(Seq::<SpecDiagnostic>::empty() + d =~= d);
    lemma_scan_same_uniform(f.args, 1, env, f.position, d + c0.unwrap().2, ty);
    assert(d + c0.unwrap().2 + reported_from(f.args, env, 1) =~= d + d);
}

} // verus!
