//! The type checker: the types of expressions, in an environment of names that lives on
//! from one program to the next.
use vstd::prelude::*;

use crate::ast::{
    lemma_view_branches_index, lemma_view_exprs_index, lemma_view_type_annotations_index, view_block, view_branch,
    view_branches, view_closure, view_expr, view_exprs, view_parameters, view_type_annotation, view_type_annotations,
    Block, Branch, Closure, Expr, Funcall, LiteralType, Parameter, Program, SpecBranch, SpecExpr, TypeAnnotation, TypeExpr,
};
use crate::diagnostics::{diag, diags_view, push_diag, report, Diagnostic, SpecDiagnostic};
use crate::parser::validator::copy_diags;
use crate::position::{Position, SpecPosition};
use crate::text::{concat, owned, text_is};
use crate::types::checking::{
    bind_params, call_builtin, check_all, check_args, check_arithmetic, check_block, check_branches,
    check_closure, check_comparison, check_conditions, check_equality, check_expr, check_exprs, check_funcall,
    check_program_in,
    check_type_annotation, check_type_annotations, function_type_from_closure, lookup, param_types, scan_numbers,
    scan_same, diags_of, ArithmeticScan, Builtin, Checked, SpecBinding, SpecEnv, SpecSymbol,
};
use crate::types::types::{lemma_view_types_index, lemma_view_types_push, view_type, view_types, SpecType, Type};

verus! {

broadcast use crate::text::group_seq_concat;

/// What the checker knows of a name: its type and whether it may be assigned.
#[derive(Debug)]
pub struct SymbolInfo {
    pub ty: Type,
    pub mutable: bool,
}

/// A name and what it is bound to.
#[derive(Debug)]
pub struct Binding {
    pub name: String,
    pub info: SymbolInfo,
}

pub open spec fn view_binding(b: Binding) -> SpecBinding {
    SpecBinding { name: b.name@, symbol: SpecSymbol { ty: b.info.ty@, mutable: b.info.mutable } }
}

/// The value of an environment: its bindings in the order made.
pub open spec fn env_view(s: Seq<Binding>) -> SpecEnv {
    s.map_values(|b: Binding| view_binding(b))
}

proof fn lemma_env_push(s: Seq<Binding>, b: Binding)
    ensures
        env_view(s.push(b)) == env_view(s).push(view_binding(b)),
{
    assert(env_view(s.push(b)) =~= env_view(s).push(view_binding(b)));
}

/// Binds `name` in `env`.
fn bind_exec(env: &mut Vec<Binding>, name: String, ty: Type, mutable: bool)
    ensures
        env_view(final(env)@) == env_view(old(env)@).push(
            SpecBinding { name: name@, symbol: SpecSymbol { ty: ty@, mutable } },
        ),
{
    let b = Binding { name, info: SymbolInfo { ty, mutable } };
    proof {
        lemma_env_push(env@, b);
    }
    env.push(b);
}

/// The index of the latest binding of `name`, if any.
fn lookup_exec(env: &Vec<Binding>, name: &String) -> (r: Option<usize>)
    ensures
        match lookup(env_view(env@), name@) {
            None => r is None,
            Some(s) => r is Some && r->0 < env@.len() && view_binding(env@[r->0 as int]).symbol == s,
        },
{
    let ghost ev = env_view(env@);
    let mut i: usize = env.len();
    assert(ev.take(i as int) =~= ev);
    while i > 0
        invariant
            i <= env@.len(),
            ev == env_view(env@),
            lookup(ev, name@) == lookup(ev.take(i as int), name@),
        decreases i,
    {
        assert(ev.take(i as int).drop_last() =~= ev.take(i - 1));
        if text_is(&env[i - 1].name, name.as_str()) {
            return Some(i - 1);
        }
        i = i - 1;
    }
    None
}

/// A copy of an environment.
fn copy_env(env: &Vec<Binding>) -> (r: Vec<Binding>)
    ensures
        env_view(r@) == env_view(env@),
{
    let mut out: Vec<Binding> = Vec::new();
    let mut i: usize = 0;
    while i < env.len()
        invariant
            i <= env@.len(),
            env_view(out@) == env_view(env@).take(i as int),
        decreases env.len() - i,
    {
        let b = &env[i];
        let c = Binding {
            name: b.name.clone(),
            info: SymbolInfo { ty: b.info.ty.duplicate(), mutable: b.info.mutable },
        };
        proof {
            lemma_env_push(out@, c);
            assert(env_view(env@).take(i + 1) =~= env_view(env@).take(i as int).push(view_binding(env@[i as int])));
        }
        out.push(c);
        i = i + 1;
    }
    assert(env_view(env@).take(env@.len() as int) =~= env_view(env@));
    out
}

/// Checks the types of programs. What a program declares stays known to the programs
/// checked after it.
#[derive(Debug)]
pub struct TypeChecker {
    env: Vec<Binding>,
    diagnostics: Vec<Diagnostic>,
}

/// The mathematical value of a [`TypeChecker`].
pub struct SpecTypeChecker {
    /// The names known, in the order they were bound.
    pub env: SpecEnv,
    /// The diagnostics about the last program checked.
    pub diagnostics: Seq<SpecDiagnostic>,
}

impl View for TypeChecker {
    type V = SpecTypeChecker;

    closed spec fn view(&self) -> SpecTypeChecker {
        SpecTypeChecker { env: env_view(self.env@), diagnostics: diags_view(self.diagnostics@) }
    }
}

/// Whether checking a program that `expected` describes gave `r` and left the checker `after`.
pub open spec fn program_checked(
    r: Result<(), Vec<Diagnostic>>,
    expected: (SpecEnv, Seq<SpecDiagnostic>),
    after: SpecTypeChecker,
) -> bool {
    &&& after.env == expected.0
    &&& after.diagnostics == expected.1
    &&& match r {
        Ok(()) => expected.1.len() == 0,
        Err(es) => expected.1.len() > 0 && diags_view(es@) == expected.1,
    }
}

impl TypeChecker {
    /// A checker that knows no name.
    pub fn new() -> (r: Self)
        ensures
            r@.env == Seq::<SpecBinding>::empty(),
            r@.diagnostics == Seq::<SpecDiagnostic>::empty(),
    {
        let r = TypeChecker { env: Vec::new(), diagnostics: Vec::new() };
        assert(r@.env =~= Seq::<SpecBinding>::empty());
        assert(r@.diagnostics =~= Seq::<SpecDiagnostic>::empty());
        r
    }

    /// Checks the expressions of `program` one after the other, keeping what they
    /// declare, and returns the diagnostics, or `Ok` when there are none. Checking can go
    /// on through the whole program.
    pub fn check_program(&mut self, program: &Program) -> (r: Result<(), Vec<Diagnostic>>)
        requires
            check_program_in(program@, old(self)@.env) is Some,
        ensures
            program_checked(r, check_program_in(program@, old(self)@.env)->0, final(self)@),
    {
        match self.try_check_program(program) {
            Some(r) => r,
            None => {
                assert(false);
                Ok(())
            },
        }
    }

    /// As [`TypeChecker::check_program`]; `None`, with nothing promised of the checker,
    /// where checking cannot go on (an `Error`, an empty block, an `if` with no branch,
    /// or a call of `len` or `nth`).
    pub fn try_check_program(&mut self, program: &Program) -> (r: Option<Result<(), Vec<Diagnostic>>>)
        ensures
            match check_program_in(program@, old(self)@.env) {
                None => r is None,
                Some(expected) => r is Some && program_checked(r->0, expected, final(self)@),
            },
    {
        proof {
            lemma_view_exprs_index(program.expressions@);
        }
        let ghost vs = program@.expressions;
        let ghost env0 = old(self)@.env;
        let ghost mut acc: Seq<SpecDiagnostic> = seq![];
        assert(check_program_in(program@, env0) == check_exprs(vs, 0, env0, seq![]));
        self.diagnostics = Vec::new();
        let mut i: usize = 0;
        while i < program.expressions.len()
            invariant
                i <= program.expressions@.len(),
                vs == view_exprs(program.expressions@),
                vs.len() == program.expressions@.len(),
                forall|j: int| 0 <= j < vs.len() ==> #[trigger] vs[j] == view_expr(program.expressions@[j]),
                env0 == old(self)@.env,
                check_program_in(program@, env0) == check_exprs(vs, 0, env0, seq![]),
                check_exprs(vs, 0, env0, seq![]) == check_exprs(vs, i as int, env_view(self.env@), acc),
                diags_view(self.diagnostics@) == acc,
            decreases program.expressions.len() - i,
        {
            let ghost before = env_view(self.env@);
            match check_expr_exec(&mut self.diagnostics, &mut self.env, &program.expressions[i]) {
                None => {
                    return None;
                },
                Some(_) => {},
            }
            proof {
                acc = acc + diags_of(check_expr(vs[i as int], before));
            }
            i = i + 1;
        }
        if self.diagnostics.len() == 0 {
            Some(Ok(()))
        } else {
            Some(Err(copy_diags(&self.diagnostics)))
        }
    }
}

/// Whether `diags` grew by `ds`.
pub open spec fn grew(before: Seq<Diagnostic>, after: Seq<Diagnostic>, ds: Seq<SpecDiagnostic>) -> bool {
    diags_view(after) == diags_view(before) + ds
}

#[verifier::loop_isolation(false)]
fn check_type_annotation_exec(diags: &mut Vec<Diagnostic>, a: &TypeAnnotation) -> (r: Type)
    ensures
        r@ == check_type_annotation(a@).0,
        grew(old(diags)@, final(diags)@, check_type_annotation(a@).1),
    decreases a,
{
    match &a.value {
        TypeExpr::Named(name) => {
            if text_is(name, "int") {
                Type::Int
            } else if text_is(name, "float") {
                Type::Float
            } else if text_is(name, "bool") {
                Type::Bool
            } else if text_is(name, "string") {
                Type::String
            } else if text_is(name, "unit") {
                Type::Unit
            } else {
                report(diags, a.position.duplicate(), "unknown type");
                Type::Error
            }
        },
        TypeExpr::Function { params, ret } => {
            proof {
                lemma_view_type_annotations_index(params@);
            }
            let ghost vs = view_type_annotations(params@);
            let ghost mut acc: Seq<SpecDiagnostic> = seq![];
            let mut ps: Vec<Type> = Vec::new();
            let mut i: usize = 0;
            while i < params.len()
                invariant
                    i <= params@.len(),
                    vs == view_type_annotations(params@),
                    vs.len() == params@.len(),
                    forall|j: int| 0 <= j < params@.len() ==> #[trigger] vs[j] == view_type_annotation(params@[j]),
                    check_type_annotations(vs, 0, (seq![], seq![])) == check_type_annotations(
                        vs,
                        i as int,
                        (view_types(ps@), acc),
                    ),
                    grew(old(diags)@, diags@, acc),
                decreases params.len() - i,
            {
                let t = check_type_annotation_exec(diags, &params[i]);
                proof {
                    lemma_view_types_push(ps@, t);
                    acc = acc + check_type_annotation(vs[i as int]).1;
                }
                ps.push(t);
                i = i + 1;
            }
            let r = check_type_annotation_exec(diags, ret);
            Type::Function { params: ps, return_ty: Box::new(r) }
        },
    }
}

/// The types of the parameters `ps`.
fn param_types_exec(diags: &mut Vec<Diagnostic>, ps: &Vec<Parameter>) -> (r: Vec<Type>)
    ensures
        view_types(r@) == param_types(view_parameters(ps@), 0, (seq![], seq![])).0,
        grew(old(diags)@, final(diags)@, param_types(view_parameters(ps@), 0, (seq![], seq![])).1),
{
    let ghost vs = view_parameters(ps@);
    let ghost mut acc: Seq<SpecDiagnostic> = seq![];
    let mut out: Vec<Type> = Vec::new();
    let mut i: usize = 0;
    while i < ps.len()
        invariant
            i <= ps@.len(),
            vs == view_parameters(ps@),
            param_types(vs, 0, (seq![], seq![])) == param_types(vs, i as int, (view_types(out@), acc)),
            grew(old(diags)@, diags@, acc),
        decreases ps.len() - i,
    {
        let t = check_type_annotation_exec(diags, &ps[i].ty);
        proof {
            lemma_view_types_push(out@, t);
            acc = acc + check_type_annotation(vs[i as int].ty).1;
        }
        out.push(t);
        i = i + 1;
    }
    out
}

/// The type of the function a closure declares.
fn function_type_from_closure_exec(diags: &mut Vec<Diagnostic>, c: &Closure) -> (r: Type)
    ensures
        r@ == function_type_from_closure(c@).0,
        grew(old(diags)@, final(diags)@, function_type_from_closure(c@).1),
{
    assert(view_closure(*c).params == view_parameters(c.params@));
    let r = check_type_annotation_exec(diags, &c.return_type);
    let ps = param_types_exec(diags, &c.params);
    Type::Function { params: ps, return_ty: Box::new(r) }
}

/// Binds the parameters `ps` in `env`, as mutable variables of their annotated types.
fn bind_params_exec(diags: &mut Vec<Diagnostic>, env: &mut Vec<Binding>, ps: &Vec<Parameter>)
    ensures
        env_view(final(env)@) == bind_params(view_parameters(ps@), 0, env_view(old(env)@), seq![]).0,
        grew(old(diags)@, final(diags)@, bind_params(view_parameters(ps@), 0, env_view(old(env)@), seq![]).1),
{
    let ghost vs = view_parameters(ps@);
    let ghost mut acc: Seq<SpecDiagnostic> = seq![];
    let mut i: usize = 0;
    while i < ps.len()
        invariant
            i <= ps@.len(),
            vs == view_parameters(ps@),
            bind_params(vs, 0, env_view(old(env)@), seq![]) == bind_params(vs, i as int, env_view(env@), acc),
            grew(old(diags)@, diags@, acc),
        decreases ps.len() - i,
    {
        let t = check_type_annotation_exec(diags, &ps[i].ty);
        proof {
            acc = acc + check_type_annotation(vs[i as int].ty).1;
        }
        bind_exec(env, ps[i].name.value.clone(), t, true);
        i = i + 1;
    }
}

/// Whether a check returned `r`, left the environment `env` and reported what `expected`
/// says.
pub open spec fn checked(
    r: Option<Type>,
    expected: Checked,
    env: Seq<Binding>,
    before: Seq<Diagnostic>,
    after: Seq<Diagnostic>,
) -> bool {
    match expected {
        None => r is None,
        Some((t, env1, ds)) => r is Some && r->0@ == t && env_view(env) == env1 && grew(before, after, ds),
    }
}

/// Whether a pass over several expressions succeeded as `expected` says.
pub open spec fn passed(
    ok: bool,
    expected: Option<(SpecEnv, Seq<SpecDiagnostic>)>,
    env: Seq<Binding>,
    before: Seq<Diagnostic>,
    after: Seq<Diagnostic>,
) -> bool {
    match expected {
        None => !ok,
        Some((env1, ds)) => ok && env_view(env) == env1 && grew(before, after, ds),
    }
}

/// The type of `e` in `env`; `env` takes the bindings `e` makes.
fn check_expr_exec(diags: &mut Vec<Diagnostic>, env: &mut Vec<Binding>, e: &Expr) -> (r: Option<Type>)
    ensures
        checked(r, check_expr(e@, env_view(old(env)@)), final(env)@, old(diags)@, final(diags)@),
    decreases e, 2int,
{
    match e {
        Expr::Literal(literal) => match literal.ty {
            LiteralType::Int => Some(Type::Int),
            LiteralType::Float => Some(Type::Float),
            LiteralType::Bool => Some(Type::Bool),
            LiteralType::String => Some(Type::String),
            LiteralType::Unit => Some(Type::Unit),
        },
        Expr::Variable(variable) => match lookup_exec(env, &variable.value) {
            Some(i) => Some(env[i].info.ty.duplicate()),
            None => {
                let msg = concat(concat(owned("the variable "), variable.value.as_str()), " doesn't exist");
                push_diag(diags, Diagnostic { position: variable.position.duplicate(), msg });
                Some(Type::Error)
            },
        },
        Expr::Defun(defun) => {
            let ft = function_type_from_closure_exec(diags, &defun.closure);
            bind_exec(env, defun.name.value.clone(), ft, false);
            match check_closure_exec(diags, env, &defun.closure) {
                None => None,
                Some(_) => Some(Type::Unit),
            }
        },
        Expr::Declaration(_) => check_declaration_exec(diags, env, e),
        Expr::Assignment(_) => check_assignment_exec(diags, env, e),
        Expr::Block(block) => check_block_exec(diags, env, block),
        Expr::Funcall(funcall) => check_funcall_exec(diags, env, funcall),
        Expr::Closure(closure) => check_closure_exec(diags, env, closure),
        Expr::IfExpr(_) => check_if_exec(diags, env, e),
        Expr::Or(or_expr) => {
            if check_conditions_exec(diags, env, &or_expr.conditions, "'or' requires booleans") {
                Some(Type::Bool)
            } else {
                None
            }
        },
        Expr::And(and_expr) => {
            if check_conditions_exec(diags, env, &and_expr.conditions, "'and' requires booleans") {
                Some(Type::Bool)
            } else {
                None
            }
        },
        Expr::Not(not_expr) => match check_expr_exec(diags, env, &not_expr.condition) {
            None => None,
            Some(Type::Bool) => Some(Type::Bool),
            Some(_) => {
                report(diags, not_expr.condition.get_position(), "'not' requires a boolean");
                Some(Type::Bool)
            },
        },
        Expr::Error => None,
    }
}

fn check_declaration_exec(diags: &mut Vec<Diagnostic>, env: &mut Vec<Binding>, e: &Expr) -> (r: Option<Type>)
    requires
        e is Declaration,
    ensures
        checked(r, check_expr(e@, env_view(old(env)@)), final(env)@, old(diags)@, final(diags)@),
    decreases e, 1int,
{
    let Expr::Declaration(decl) = e else {
        return None;
    };
    let name = &decl.signature.name;
    if lookup_exec(env, &name.value).is_some() {
        report(diags, name.position.duplicate(), "variable already exists");
        return Some(Type::Error);
    }
    let t1 = check_type_annotation_exec(diags, &decl.signature.ty);
    match check_expr_exec(diags, env, &decl.value) {
        None => None,
        Some(t2) => {
            if !t1.same(&t2) {
                report(diags, decl.signature.ty.position.duplicate(), "unmatched type");
                Some(Type::Error)
            } else {
                let t3 = check_type_annotation_exec(diags, &decl.signature.ty);
                bind_exec(env, name.value.clone(), t3, decl.mutable);
                Some(Type::Unit)
            }
        },
    }
}

fn check_assignment_exec(diags: &mut Vec<Diagnostic>, env: &mut Vec<Binding>, e: &Expr) -> (r: Option<Type>)
    requires
        e is Assignment,
    ensures
        checked(r, check_expr(e@, env_view(old(env)@)), final(env)@, old(diags)@, final(diags)@),
    decreases e, 1int,
{
    let Expr::Assignment(assignment) = e else {
        return None;
    };
    let variable = &assignment.variable;
    match lookup_exec(env, &variable.value) {
        None => {
            let msg = concat(concat(owned("variable '"), variable.value.as_str()), "' doesn't exist");
            push_diag(diags, Diagnostic { position: variable.position.duplicate(), msg });
            Some(Type::Error)
        },
        Some(i) => {
            if !env[i].info.mutable {
                let msg = concat(concat(owned("the variable '"), variable.value.as_str()), "' cannot be modified");
                push_diag(diags, Diagnostic { position: variable.position.duplicate(), msg });
                return Some(Type::Error);
            }
            let declared = env[i].info.ty.duplicate();
            match check_expr_exec(diags, env, &assignment.value) {
                None => None,
                Some(t) => {
                    if !declared.same(&t) {
                        report(diags, variable.position.duplicate(), "unmatched type");
                        Some(Type::Error)
                    } else {
                        Some(Type::Unit)
                    }
                },
            }
        },
    }
}

/// A block, checked in a copy of `env`.
fn check_block_exec(diags: &mut Vec<Diagnostic>, env: &Vec<Binding>, b: &Block) -> (r: Option<Type>)
    ensures
        match check_block(b@, env_view(env@)) {
            None => r is None,
            Some((t, ds)) => r is Some && r->0@ == t && grew(old(diags)@, final(diags)@, ds),
        },
    decreases b, 1int,
{
    assert(view_block(*b).contents == view_exprs(b.contents@));
    proof {
        lemma_view_exprs_index(b.contents@);
    }
    if b.contents.len() == 0 {
        return None;
    }
    let mut captured = copy_env(env);
    if !check_all_exec(diags, &mut captured, &b.contents) {
        return None;
    }
    check_expr_exec(diags, &mut captured, &b.contents[b.contents.len() - 1])
}

/// The expressions of `s`, in order.
fn check_all_exec(diags: &mut Vec<Diagnostic>, env: &mut Vec<Binding>, s: &Vec<Expr>) -> (ok: bool)
    ensures
        passed(ok, check_all(view_exprs(s@), 0, env_view(old(env)@), seq![]), final(env)@, old(diags)@, final(diags)@),
    decreases s, 0int,
{
    proof {
        lemma_view_exprs_index(s@);
    }
    let ghost vs = view_exprs(s@);
    let ghost mut acc: Seq<SpecDiagnostic> = seq![];
    let mut i: usize = 0;
    while i < s.len()
        invariant
            i <= s@.len(),
            vs == view_exprs(s@),
            vs.len() == s@.len(),
            forall|j: int| 0 <= j < s@.len() ==> #[trigger] vs[j] == view_expr(s@[j]),
            check_all(vs, 0, env_view(old(env)@), seq![]) == check_all(vs, i as int, env_view(env@), acc),
            grew(old(diags)@, diags@, acc),
        decreases s.len() - i,
    {
        let ghost before = env_view(env@);
        match check_expr_exec(diags, env, &s[i]) {
            None => {
                return false;
            },
            Some(_) => {},
        }
        proof {
            acc = acc + diags_of(check_expr(vs[i as int], before));
        }
        i = i + 1;
    }
    true
}

/// A closure: its parameters are bound in `env`, then its body is checked; its type is
/// its function type.
fn check_closure_exec(diags: &mut Vec<Diagnostic>, env: &mut Vec<Binding>, c: &Closure) -> (r: Option<Type>)
    ensures
        checked(r, check_closure(c@, env_view(old(env)@)), final(env)@, old(diags)@, final(diags)@),
    decreases c, 2int,
{
    assert(view_closure(*c).params == view_parameters(c.params@));
    assert(view_closure(*c).body == view_block(c.body));
    bind_params_exec(diags, env, &c.params);
    match check_block_exec(diags, env, &c.body) {
        None => None,
        Some(_) => {
            let mut unreported: Vec<Diagnostic> = Vec::new();
            Some(function_type_from_closure_exec(&mut unreported, c))
        },
    }
}

fn check_if_exec(diags: &mut Vec<Diagnostic>, env: &mut Vec<Binding>, e: &Expr) -> (r: Option<Type>)
    requires
        e is IfExpr,
    ensures
        checked(r, check_expr(e@, env_view(old(env)@)), final(env)@, old(diags)@, final(diags)@),
    decreases e, 1int,
{
    let Expr::IfExpr(if_expr) = e else {
        return None;
    };
    proof {
        lemma_view_branches_index(if_expr.branches@);
    }
    if if_expr.branches.len() == 0 {
        return None;
    }
    assert(view_branch(if_expr.branches@[0]).block == view_block(if_expr.branches@[0].block));
    let t0 = match check_block_exec(diags, env, &if_expr.branches[0].block) {
        None => {
            return None;
        },
        Some(t) => t,
    };
    proof {
        let ghost d0 = match check_block(view_branches(if_expr.branches@)[0].block, env_view(env@)) {
            Some((_, ds)) => ds,
            None => seq![],
        };
        lemma_check_branches_acc(view_branches(if_expr.branches@), 1, env_view(env@), t0@, d0);
    }
    if !check_branches_exec(diags, env, &if_expr.branches, &t0) {
        return None;
    }
    match &if_expr.else_branch {
        None => Some(t0),
        Some(else_branch) => match check_expr_exec(diags, env, else_branch) {
            None => None,
            Some(te) => {
                if !te.same(&t0) {
                    report(diags, else_branch.get_position(), "unmatched type");
                }
                Some(t0)
            },
        },
    }
}

/// What the branches report after `acc` is what they report alone, after `acc`.
proof fn lemma_check_branches_acc(bs: Seq<SpecBranch>, i: int, env: SpecEnv, t0: SpecType, acc: Seq<SpecDiagnostic>)
    ensures
        match check_branches(bs, i, env, t0, seq![]) {
            None => check_branches(bs, i, env, t0, acc) is None,
            Some(ds) => check_branches(bs, i, env, t0, acc) == Some(acc + ds),
        },
    decreases bs.len() - i,
{
    if 0 <= i < bs.len() {
        match check_block(bs[i].block, env) {
            None => {},
            Some((t, d)) => {
                let d1 = if t != t0 {
                    d.push(diag(bs[i].block.position, "unmatched type"))
                } else {
                    d
                };
                let a1 = if t != t0 {
                    (acc + d).push(diag(bs[i].block.position, "unmatched type"))
                } else {
                    acc + d
                };
                assert(seq![] + d =~= d);
                assert(a1 =~= acc + d1);
                lemma_check_branches_acc(bs, i + 1, env, t0, d1);
                lemma_check_branches_acc(bs, i + 1, env, t0, a1);
            },
        }
    } else {
        assert(acc + seq![] =~= acc);
    }
}

/// What the second pass reports after `acc` is what it reports alone, after `acc`.
proof fn lemma_scan_same_acc(
    args: Seq<SpecExpr>,
    i: int,
    env: SpecEnv,
    position: SpecPosition,
    first: SpecType,
    acc: Seq<SpecDiagnostic>,
)
    ensures
        match scan_same(args, i, env, position, first, seq![]) {
            None => scan_same(args, i, env, position, first, acc) is None,
            Some((ok, env1, ds)) => scan_same(args, i, env, position, first, acc) == Some((ok, env1, acc + ds)),
        },
    decreases args.len() - i,
{
    if 0 <= i < args.len() {
        match check_expr(args[i], env) {
            None => {},
            Some((t, env1, d)) => {
                assert(seq![] + d =~= d);
                if t != first {
                    assert((acc + d).push(
                        diag(position, "arithmetic operators require all arguments to have the same numeric type"),
                    ) =~= acc + d.push(
                        diag(position, "arithmetic operators require all arguments to have the same numeric type"),
                    ));
                } else {
                    lemma_scan_same_acc(args, i + 1, env1, position, first, d);
                    lemma_scan_same_acc(args, i + 1, env1, position, first, acc + d);
                }
            },
        }
    } else {
        assert(acc + seq![] =~= acc);
    }
}

/// What the arguments report after `acc` is what they report alone, after `acc`.
proof fn lemma_check_args_acc(
    args: Seq<SpecExpr>,
    params: Seq<SpecType>,
    i: int,
    env: SpecEnv,
    acc: Seq<SpecDiagnostic>,
)
    ensures
        match check_args(args, params, i, env, seq![]) {
            None => check_args(args, params, i, env, acc) is None,
            Some((env1, ds)) => check_args(args, params, i, env, acc) == Some((env1, acc + ds)),
        },
    decreases args.len() - i,
{
    if 0 <= i < args.len() {
        match check_expr(args[i], env) {
            None => {},
            Some((t, env1, d)) => {
                let d1 = if t != params[i] {
                    d.push(diag(args[i].position(), "unmatched type"))
                } else {
                    d
                };
                let a1 = if t != params[i] {
                    (acc + d).push(diag(args[i].position(), "unmatched type"))
                } else {
                    acc + d
                };
                assert(seq![] + d =~= d);
                assert(a1 =~= acc + d1);
                lemma_check_args_acc(args, params, i + 1, env1, d1);
                lemma_check_args_acc(args, params, i + 1, env1, a1);
            },
        }
    } else {
        assert(acc + seq![] =~= acc);
    }
}

/// The branches of an `if` after the first: each must have the first one's type `t0`.
fn check_branches_exec(diags: &mut Vec<Diagnostic>, env: &Vec<Binding>, bs: &Vec<Branch>, t0: &Type) -> (ok: bool)
    ensures
        match check_branches(view_branches(bs@), 1, env_view(env@), t0@, seq![]) {
            None => !ok,
            Some(ds) => ok && grew(old(diags)@, final(diags)@, ds),
        },
    decreases bs, 0int,
{
    proof {
        lemma_view_branches_index(bs@);
    }
    let ghost vs = view_branches(bs@);
    let ghost ev = env_view(env@);
    let ghost mut acc: Seq<SpecDiagnostic> = seq![];
    let mut i: usize = 1;
    if bs.len() == 0 {
        return true;
    }
    while i < bs.len()
        invariant
            1 <= i <= bs@.len(),
            vs == view_branches(bs@),
            ev == env_view(env@),
            vs.len() == bs@.len(),
            forall|j: int| 0 <= j < bs@.len() ==> #[trigger] vs[j] == view_branch(bs@[j]),
            check_branches(vs, 1, ev, t0@, seq![]) == check_branches(vs, i as int, ev, t0@, acc),
            grew(old(diags)@, diags@, acc),
        decreases bs.len() - i,
    {
        let branch = &bs[i];
        assert(view_branch(*branch).block == view_block(branch.block));
        match check_block_exec(diags, env, &branch.block) {
            None => {
                return false;
            },
            Some(t) => {
                let ghost d = match check_block(vs[i as int].block, ev) {
                    Some((_, ds)) => ds,
                    None => seq![],
                };
                if !t.same(t0) {
                    report(diags, branch.block.position.duplicate(), "unmatched type");
                    proof {
                        acc = (acc + d).push(crate::diagnostics::diag(vs[i as int].block.position, "unmatched type"));
                    }
                } else {
                    proof {
                        acc = acc + d;
                    }
                }
            },
        }
        i = i + 1;
    }
    true
}

/// The conditions of an `or` or an `and`, each of which must be a boolean.
fn check_conditions_exec(diags: &mut Vec<Diagnostic>, env: &mut Vec<Binding>, cs: &Vec<Expr>, msg: &str) -> (ok: bool)
    ensures
        passed(ok, check_conditions(view_exprs(cs@), 0, env_view(old(env)@), msg@, seq![]), final(env)@, old(diags)@, final(diags)@),
    decreases cs, 0int,
{
    proof {
        lemma_view_exprs_index(cs@);
    }
    let ghost vs = view_exprs(cs@);
    let ghost mut acc: Seq<SpecDiagnostic> = seq![];
    let mut i: usize = 0;
    while i < cs.len()
        invariant
            i <= cs@.len(),
            vs == view_exprs(cs@),
            vs.len() == cs@.len(),
            forall|j: int| 0 <= j < cs@.len() ==> #[trigger] vs[j] == view_expr(cs@[j]),
            check_conditions(vs, 0, env_view(old(env)@), msg@, seq![]) == check_conditions(vs, i as int, env_view(env@), msg@, acc),
            grew(old(diags)@, diags@, acc),
        decreases cs.len() - i,
    {
        let ghost before = env_view(env@);
        match check_expr_exec(diags, env, &cs[i]) {
            None => {
                return false;
            },
            Some(t) => {
                let ghost d = diags_of(check_expr(vs[i as int], before));
                match t {
                    Type::Bool => {
                        proof {
                            acc = acc + d;
                        }
                    },
                    _ => {
                        let m = owned(msg);
                        push_diag(diags, Diagnostic { position: cs[i].get_position(), msg: m });
                        proof {
                            acc = (acc + d).push(SpecDiagnostic { position: vs[i as int].position(), msg: msg@ });
                        }
                    },
                }
            },
        }
        i = i + 1;
    }
    true
}

/// The builtin operator that a call names, if any.
fn call_builtin_exec(f: &Funcall) -> (r: Option<Builtin>)
    ensures
        r == call_builtin(f@),
{
    assert(view_expr(Expr::Funcall(*f)) == SpecExpr::Funcall(f@));
    match &*f.callee {
        Expr::Variable(variable) => {
            let name = &variable.value;
            if text_is(name, "+") || text_is(name, "-") || text_is(name, "*") || text_is(name, "/") {
                Some(Builtin::Arithmetic)
            } else if text_is(name, "=") {
                Some(Builtin::Equality)
            } else if text_is(name, "<") || text_is(name, "<=") || text_is(name, ">") || text_is(name, ">=") {
                Some(Builtin::Comparison)
            } else if text_is(name, "len") || text_is(name, "nth") {
                Some(Builtin::Unsupported)
            } else {
                None
            }
        },
        _ => None,
    }
}

/// A call: a builtin operator, or a function applied to arguments of its parameters' types.
fn check_funcall_exec(diags: &mut Vec<Diagnostic>, env: &mut Vec<Binding>, f: &Funcall) -> (r: Option<Type>)
    ensures
        checked(r, check_funcall(f@, env_view(old(env)@)), final(env)@, old(diags)@, final(diags)@),
    decreases f, 1int,
{
    match call_builtin_exec(f) {
        Some(Builtin::Arithmetic) => check_arithmetic_exec(diags, env, f),
        Some(Builtin::Equality) => check_equality_exec(diags, env, f),
        Some(Builtin::Comparison) => check_comparison_exec(diags, env, f),
        Some(Builtin::Unsupported) => None,
        None => match check_expr_exec(diags, env, &f.callee) {
            None => None,
            Some(Type::Function { params, return_ty }) => {
                proof {
                    lemma_view_types_index(params@);
                    lemma_view_exprs_index(f.args@);
                }
                let ghost callee_diags = diags_of(check_expr(*f@.callee, env_view(old(env)@)));
                proof {
                    lemma_check_args_acc(f@.args, view_types(params@), 0, env_view(env@), callee_diags);
                }
                if params.len() != f.args.len() {
                    report(diags, f.callee.get_position(), "wrong number of arguments");
                    Some(Type::Error)
                } else if check_args_exec(diags, env, &f.args, &params) {
                    Some(*return_ty)
                } else {
                    None
                }
            },
            Some(Type::Error) => Some(Type::Error),
            Some(_) => {
                report(diags, f.callee.get_position(), "callee is not a function");
                Some(Type::Error)
            },
        },
    }
}

/// The arguments of a call, each of which must have its parameter's type.
fn check_args_exec(diags: &mut Vec<Diagnostic>, env: &mut Vec<Binding>, args: &Vec<Expr>, params: &Vec<Type>) -> (ok: bool)
    requires
        params@.len() == args@.len(),
    ensures
        passed(ok, check_args(view_exprs(args@), view_types(params@), 0, env_view(old(env)@), seq![]), final(env)@, old(diags)@, final(diags)@),
    decreases args, 0int,
{
    proof {
        lemma_view_exprs_index(args@);
        lemma_view_types_index(params@);
    }
    let ghost vs = view_exprs(args@);
    let ghost ps = view_types(params@);
    let ghost mut acc: Seq<SpecDiagnostic> = seq![];
    let mut i: usize = 0;
    while i < args.len()
        invariant
            i <= args@.len(),
            params@.len() == args@.len(),
            vs == view_exprs(args@),
            ps == view_types(params@),
            vs.len() == args@.len(),
            ps.len() == params@.len(),
            forall|j: int| 0 <= j < args@.len() ==> #[trigger] vs[j] == view_expr(args@[j]),
            forall|j: int| 0 <= j < params@.len() ==> #[trigger] ps[j] == view_type(params@[j]),
            check_args(vs, ps, 0, env_view(old(env)@), seq![]) == check_args(vs, ps, i as int, env_view(env@), acc),
            grew(old(diags)@, diags@, acc),
        decreases args.len() - i,
    {
        let ghost before = env_view(env@);
        match check_expr_exec(diags, env, &args[i]) {
            None => {
                return false;
            },
            Some(t) => {
                let ghost d = diags_of(check_expr(vs[i as int], before));
                if !t.same(&params[i]) {
                    report(diags, args[i].get_position(), "unmatched type");
                    proof {
                        acc = (acc + d).push(crate::diagnostics::diag(vs[i as int].position(), "unmatched type"));
                    }
                } else {
                    proof {
                        acc = acc + d;
                    }
                }
            },
        }
        i = i + 1;
    }
    true
}

/// First pass over an arithmetic call's arguments: all must be ints or floats.
fn scan_numbers_exec(diags: &mut Vec<Diagnostic>, env: &mut Vec<Binding>, args: &Vec<Expr>, position: &Position) -> (r: Option<ArithmeticScan>)
    ensures
        match scan_numbers(view_exprs(args@), 0, env_view(old(env)@), position@, false, seq![]) {
            None => r is None,
            Some((sc, env1, ds)) => r == Some(sc) && env_view(final(env)@) == env1 && grew(old(diags)@, final(diags)@, ds),
        },
    decreases args, 0int,
{
    proof {
        lemma_view_exprs_index(args@);
    }
    let ghost vs = view_exprs(args@);
    let ghost mut acc: Seq<SpecDiagnostic> = seq![];
    let mut saw_float = false;
    let mut i: usize = 0;
    while i < args.len()
        invariant
            i <= args@.len(),
            vs == view_exprs(args@),
            vs.len() == args@.len(),
            forall|j: int| 0 <= j < args@.len() ==> #[trigger] vs[j] == view_expr(args@[j]),
            scan_numbers(vs, 0, env_view(old(env)@), position@, false, seq![]) == scan_numbers(vs, i as int, env_view(env@), position@, saw_float, acc),
            grew(old(diags)@, diags@, acc),
        decreases args.len() - i,
    {
        let ghost before = env_view(env@);
        match check_expr_exec(diags, env, &args[i]) {
            None => {
                return None;
            },
            Some(t) => {
                let ghost d = diags_of(check_expr(vs[i as int], before));
                match t {
                    Type::Int => {},
                    Type::Float => {
                        saw_float = true;
                    },
                    Type::Error => {
                        return Some(ArithmeticScan::Stopped);
                    },
                    _ => {
                        report(
                            diags,
                            position.duplicate(),
                            "arithmetic operators require all arguments to be ints or all arguments to be floats",
                        );
                        return Some(ArithmeticScan::Stopped);
                    },
                }
                proof {
                    acc = acc + d;
                }
            },
        }
        i = i + 1;
    }
    Some(ArithmeticScan::Numbers(saw_float))
}

/// Second pass: the arguments after the first must have the first one's type.
fn scan_same_exec(diags: &mut Vec<Diagnostic>, env: &mut Vec<Binding>, args: &Vec<Expr>, position: &Position, first: &Type) -> (r: Option<bool>)
    ensures
        match scan_same(view_exprs(args@), 1, env_view(old(env)@), position@, first@, seq![]) {
            None => r is None,
            Some((ok, env1, ds)) => r == Some(ok) && env_view(final(env)@) == env1 && grew(old(diags)@, final(diags)@, ds),
        },
    decreases args, 0int,
{
    proof {
        lemma_view_exprs_index(args@);
    }
    let ghost vs = view_exprs(args@);
    let ghost mut acc: Seq<SpecDiagnostic> = seq![];
    if args.len() == 0 {
        return Some(true);
    }
    let mut i: usize = 1;
    while i < args.len()
        invariant
            1 <= i <= args@.len(),
            vs == view_exprs(args@),
            vs.len() == args@.len(),
            forall|j: int| 0 <= j < args@.len() ==> #[trigger] vs[j] == view_expr(args@[j]),
            scan_same(vs, 1, env_view(old(env)@), position@, first@, seq![]) == scan_same(vs, i as int, env_view(env@), position@, first@, acc),
            grew(old(diags)@, diags@, acc),
        decreases args.len() - i,
    {
        let ghost before = env_view(env@);
        match check_expr_exec(diags, env, &args[i]) {
            None => {
                return None;
            },
            Some(t) => {
                if !t.same(first) {
                    report(diags, position.duplicate(), "arithmetic operators require all arguments to have the same numeric type");
                    return Some(false);
                }
                proof {
                    acc = acc + diags_of(check_expr(vs[i as int], before));
                }
            },
        }
        i = i + 1;
    }
    Some(true)
}

/// `+ - * /`: at least two arguments, all ints or all floats.
#[verifier::rlimit(40)]
fn check_arithmetic_exec(diags: &mut Vec<Diagnostic>, env: &mut Vec<Binding>, f: &Funcall) -> (r: Option<Type>)
    ensures
        checked(r, check_arithmetic(f@, env_view(old(env)@)), final(env)@, old(diags)@, final(diags)@),
    decreases f, 0int,
{
    proof {
        lemma_view_exprs_index(f.args@);
    }
    if f.args.len() < 2 {
        report(diags, f.position.duplicate(), "arithmetic operators require at least 2 arguments");
        return Some(Type::Error);
    }
    let saw_float = match scan_numbers_exec(diags, env, &f.args, &f.position) {
        None => {
            return None;
        },
        Some(ArithmeticScan::Stopped) => {
            return Some(Type::Error);
        },
        Some(ArithmeticScan::Numbers(saw_float)) => saw_float,
    };
    let ghost scanned = match scan_numbers(f@.args, 0, env_view(old(env)@), f@.position, false, seq![]) {
        Some((_, _, ds)) => ds,
        None => seq![],
    };
    let ghost env1 = env_view(env@);
    let first = match check_expr_exec(diags, env, &f.args[0]) {
        None => {
            return None;
        },
        Some(t) => t,
    };
    proof {
        lemma_scan_same_acc(
            f@.args,
            1,
            env_view(env@),
            f@.position,
            first@,
            scanned + diags_of(check_expr(f@.args[0], env1)),
        );
    }
    match scan_same_exec(diags, env, &f.args, &f.position, &first) {
        None => None,
        Some(false) => Some(Type::Error),
        Some(true) => {
            if saw_float {
                Some(Type::Float)
            } else {
                Some(Type::Int)
            }
        },
    }
}

/// `=`: two arguments of one type, which is no function type.
#[verifier::rlimit(40)]
fn check_equality_exec(diags: &mut Vec<Diagnostic>, env: &mut Vec<Binding>, f: &Funcall) -> (r: Option<Type>)
    ensures
        checked(r, check_equality(f@, env_view(old(env)@)), final(env)@, old(diags)@, final(diags)@),
    decreases f, 0int,
{
    proof {
        lemma_view_exprs_index(f.args@);
    }
    if f.args.len() != 2 {
        report(diags, f.position.duplicate(), "wrong number of arguments");
        return Some(Type::Error);
    }
    let l = match check_expr_exec(diags, env, &f.args[0]) {
        None => {
            return None;
        },
        Some(t) => t,
    };
    let r = match check_expr_exec(diags, env, &f.args[1]) {
        None => {
            return None;
        },
        Some(t) => t,
    };
    if let Type::Error = l {
        return Some(Type::Error);
    }
    if let Type::Error = r {
        return Some(Type::Error);
    }
    if !l.same(&r) {
        report(diags, f.position.duplicate(), "'=' requires both arguments to have the same type");
        return Some(Type::Error);
    }
    if let Type::Function { .. } = l {
        report(diags, f.position.duplicate(), "'=' does not support functions");
        Some(Type::Error)
    } else {
        Some(Type::Bool)
    }
}

/// `< <= > >=`: two ints or two floats.
#[verifier::rlimit(40)]
fn check_comparison_exec(diags: &mut Vec<Diagnostic>, env: &mut Vec<Binding>, f: &Funcall) -> (r: Option<Type>)
    ensures
        checked(r, check_comparison(f@, env_view(old(env)@)), final(env)@, old(diags)@, final(diags)@),
    decreases f, 0int,
{
    proof {
        lemma_view_exprs_index(f.args@);
    }
    if f.args.len() != 2 {
        report(diags, f.position.duplicate(), "wrong number of arguments");
        return Some(Type::Error);
    }
    let l = match check_expr_exec(diags, env, &f.args[0]) {
        None => {
            return None;
        },
        Some(t) => t,
    };
    let r = match check_expr_exec(diags, env, &f.args[1]) {
        None => {
            return None;
        },
        Some(t) => t,
    };
    match (&l, &r) {
        (Type::Int, Type::Int) | (Type::Float, Type::Float) => Some(Type::Bool),
        (Type::Error, _) | (_, Type::Error) => Some(Type::Error),
        _ => {
            report(diags, f.position.duplicate(), "comparison operators require two ints or two floats");
            Some(Type::Error)
        },
    }
}

} // verus!
