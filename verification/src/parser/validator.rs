//! Checks on the shape of a parsed program: where declarations, assignments and closures
//! may stand, and that every `if` has a branch.
use vstd::prelude::*;

use crate::ast::{
    lemma_view_branches_index, lemma_view_exprs_index, view_block, view_branch, view_branches, view_closure,
    view_expr, view_exprs, Block, Branch, Expr, Program, SpecBranch, SpecExpr, SpecProgram,
};
use crate::diagnostics::{diag, diags_view, push_diag, report, Diagnostic, SpecDiagnostic};

verus! {

broadcast use crate::text::group_seq_concat;

/// An expression where a value is expected: declarations, assignments and function
/// declarations are not values. `None`: the expression is an `Error`, which has no place here.
pub open spec fn validate_value(e: SpecExpr) -> Option<Seq<SpecDiagnostic>> {
    match e {
        SpecExpr::Declaration(d) => Some(seq![diag(d.position, "unexpected variable declaration")]),
        SpecExpr::Assignment(a) => Some(seq![diag(a.position, "unexpected assignment")]),
        SpecExpr::Defun(d) => Some(seq![diag(d.position, "unexpected function declaration")]),
        SpecExpr::Error => None,
        _ => Some(seq![]),
    }
}

/// A condition: a value, and no closure.
pub open spec fn validate_condition(e: SpecExpr) -> Option<Seq<SpecDiagnostic>> {
    match validate_value(e) {
        None => None,
        Some(ds) => if ds.len() > 0 {
            Some(ds)
        } else {
            match e {
                SpecExpr::Closure(c) => Some(seq![diag(c.position, "unexpected closure")]),
                _ => Some(seq![]),
            }
        },
    }
}

/// A callee: a value, and no `or`, `and` or `not`.
pub open spec fn validate_callee(e: SpecExpr) -> Option<Seq<SpecDiagnostic>> {
    match validate_value(e) {
        None => None,
        Some(ds) => if ds.len() > 0 {
            Some(ds)
        } else {
            match e {
                SpecExpr::Or(o) => Some(seq![diag(o.position, "unexpected 'or'")]),
                SpecExpr::And(a) => Some(seq![diag(a.position, "unexpected 'and'")]),
                SpecExpr::Not(n) => Some(seq![diag(n.position, "unexpected 'and'")]),
                _ => Some(seq![]),
            }
        },
    }
}

/// The values `s[i..]`, after the diagnostics `acc`.
pub open spec fn validate_values(s: Seq<SpecExpr>, i: int, acc: Seq<SpecDiagnostic>) -> Option<Seq<SpecDiagnostic>>
    decreases s.len() - i,
{
    if i < 0 || i >= s.len() {
        Some(acc)
    } else {
        match validate_value(s[i]) {
            None => None,
            Some(ds) => validate_values(s, i + 1, acc + ds),
        }
    }
}

/// The conditions `s[i..]`, after the diagnostics `acc`.
pub open spec fn validate_conditions(s: Seq<SpecExpr>, i: int, acc: Seq<SpecDiagnostic>) -> Option<
    Seq<SpecDiagnostic>,
>
    decreases s.len() - i,
{
    if i < 0 || i >= s.len() {
        Some(acc)
    } else {
        match validate_condition(s[i]) {
            None => None,
            Some(ds) => validate_conditions(s, i + 1, acc + ds),
        }
    }
}

/// The diagnostics about an expression and what it holds.
pub open spec fn validate_expr(e: SpecExpr) -> Option<Seq<SpecDiagnostic>>
    decreases e, 0int,
{
    match e {
        SpecExpr::Literal(_) | SpecExpr::Variable(_) => Some(seq![]),
        SpecExpr::Block(b) => validate_exprs(b.contents, 0, seq![]),
        SpecExpr::Defun(d) => validate_exprs(d.closure.body.contents, 0, seq![]),
        SpecExpr::Declaration(d) => validate_value(*d.value),
        SpecExpr::Assignment(a) => validate_expr(*a.value),
        SpecExpr::IfExpr(i) => if i.branches.len() == 0 {
            Some(seq![diag(i.position, "'if' has no branch")])
        } else {
            match validate_branches(i.branches, 0, seq![]) {
                None => None,
                Some(ds) => match i.else_branch {
                    None => Some(ds),
                    Some(eb) => match *eb {
                        SpecExpr::Block(b) => match validate_exprs(b.contents, 0, seq![]) {
                            None => None,
                            Some(d2) => Some(ds + d2),
                        },
                        _ => None,
                    },
                },
            }
        },
        SpecExpr::Funcall(f) => match validate_callee(*f.callee) {
            None => None,
            Some(ds) => match validate_values(f.args, 0, seq![]) {
                None => None,
                Some(d2) => Some(ds + d2),
            },
        },
        SpecExpr::Closure(c) => validate_exprs(c.body.contents, 0, seq![]),
        SpecExpr::Or(c) => validate_conditions(c.conditions, 0, seq![]),
        SpecExpr::And(c) => validate_conditions(c.conditions, 0, seq![]),
        SpecExpr::Not(n) => validate_condition(*n.condition),
        SpecExpr::Error => None,
    }
}

/// The expressions `s[i..]`, after the diagnostics `acc`.
pub open spec fn validate_exprs(s: Seq<SpecExpr>, i: int, acc: Seq<SpecDiagnostic>) -> Option<Seq<SpecDiagnostic>>
    decreases s, s.len() - i,
{
    if i < 0 || i >= s.len() {
        Some(acc)
    } else {
        match validate_expr(s[i]) {
            None => None,
            Some(ds) => validate_exprs(s, i + 1, acc + ds),
        }
    }
}

/// The branches `s[i..]` of an `if`: each condition, then each body.
pub open spec fn validate_branches(s: Seq<SpecBranch>, i: int, acc: Seq<SpecDiagnostic>) -> Option<
    Seq<SpecDiagnostic>,
>
    decreases s, s.len() - i,
{
    if i < 0 || i >= s.len() {
        Some(acc)
    } else {
        match validate_condition(*s[i].condition) {
            None => None,
            Some(d1) => match validate_exprs(s[i].block.contents, 0, seq![]) {
                None => None,
                Some(d2) => validate_branches(s, i + 1, acc + d1 + d2),
            },
        }
    }
}

/// The diagnostics about a program; `None` when it holds an `Error` where one is looked at,
/// or an `else` that is no block.
pub open spec fn validate_program(p: SpecProgram) -> Option<Seq<SpecDiagnostic>> {
    validate_exprs(p.expressions, 0, seq![])
}

/// An expression that may stand where a value is expected: no declaration, assignment,
/// function declaration or `Error`.
pub open spec fn is_value(e: SpecExpr) -> bool {
    !(e is Declaration || e is Assignment || e is Defun || e is Error)
}

/// An expression that may stand as a condition: a value, and no closure.
pub open spec fn is_condition(e: SpecExpr) -> bool {
    is_value(e) && !(e is Closure)
}

/// An expression that may stand as a callee: a value, and no `or`, `and` or `not`.
pub open spec fn is_callee(e: SpecExpr) -> bool {
    is_value(e) && !(e is Or || e is And || e is Not)
}

pub open spec fn values_from(s: Seq<SpecExpr>, i: int) -> bool
    decreases s.len() - i,
{
    i < 0 || i >= s.len() || (is_value(s[i]) && values_from(s, i + 1))
}

pub open spec fn conditions_from(s: Seq<SpecExpr>, i: int) -> bool
    decreases s.len() - i,
{
    i < 0 || i >= s.len() || (is_condition(s[i]) && conditions_from(s, i + 1))
}

/// Whether everything in `e` stands where it may: values where values are expected,
/// conditions as conditions, callees as callees, an `if` with a branch and a block as its
/// `else`, and no `Error` where one is looked at.
pub open spec fn placed(e: SpecExpr) -> bool
    decreases e, 0int,
{
    match e {
        SpecExpr::Literal(_) | SpecExpr::Variable(_) => true,
        SpecExpr::Block(b) => placed_from(b.contents, 0),
        SpecExpr::Defun(d) => placed_from(d.closure.body.contents, 0),
        SpecExpr::Declaration(d) => is_value(*d.value),
        SpecExpr::Assignment(a) => placed(*a.value),
        SpecExpr::IfExpr(i) => i.branches.len() > 0 && branches_placed_from(i.branches, 0) && match i.else_branch {
            None => true,
            Some(eb) => match *eb {
                SpecExpr::Block(b) => placed_from(b.contents, 0),
                _ => false,
            },
        },
        SpecExpr::Funcall(f) => is_callee(*f.callee) && values_from(f.args, 0),
        SpecExpr::Closure(c) => placed_from(c.body.contents, 0),
        SpecExpr::Or(c) => conditions_from(c.conditions, 0),
        SpecExpr::And(c) => conditions_from(c.conditions, 0),
        SpecExpr::Not(n) => is_condition(*n.condition),
        SpecExpr::Error => false,
    }
}

pub open spec fn placed_from(s: Seq<SpecExpr>, i: int) -> bool
    decreases s, s.len() - i,
{
    i < 0 || i >= s.len() || (placed(s[i]) && placed_from(s, i + 1))
}

pub open spec fn branches_placed_from(s: Seq<SpecBranch>, i: int) -> bool
    decreases s, s.len() - i,
{
    i < 0 || i >= s.len() || (is_condition(*s[i].condition) && placed_from(s[i].block.contents, 0)
        && branches_placed_from(s, i + 1))
}

proof fn lemma_values_placed(s: Seq<SpecExpr>, i: int, acc: Seq<SpecDiagnostic>)
    ensures
        validate_values(s, i, acc) matches Some(ds) ==> ds.len() >= acc.len() && (ds.len() == 0 ==> values_from(s, i)),
    decreases s.len() - i,
{
    if 0 <= i < s.len() {
        if let Some(d) = validate_value(s[i]) {
            lemma_values_placed(s, i + 1, acc + d);
        }
    }
}

proof fn lemma_conditions_placed(s: Seq<SpecExpr>, i: int, acc: Seq<SpecDiagnostic>)
    ensures
        validate_conditions(s, i, acc) matches Some(ds) ==> ds.len() >= acc.len() && (ds.len() == 0 ==> conditions_from(s, i)),
    decreases s.len() - i,
{
    if 0 <= i < s.len() {
        if let Some(d) = validate_condition(s[i]) {
            lemma_conditions_placed(s, i + 1, acc + d);
        }
    }
}

proof fn lemma_exprs_placed(s: Seq<SpecExpr>, i: int, acc: Seq<SpecDiagnostic>)
    ensures
        validate_exprs(s, i, acc) matches Some(ds) ==> ds.len() >= acc.len() && (ds.len() == 0 ==> placed_from(s, i)),
    decreases s, s.len() - i,
{
    if 0 <= i < s.len() {
        lemma_expr_placed(s[i]);
        if let Some(d) = validate_expr(s[i]) {
            lemma_exprs_placed(s, i + 1, acc + d);
        }
    }
}

proof fn lemma_branches_placed(s: Seq<SpecBranch>, i: int, acc: Seq<SpecDiagnostic>)
    ensures
        validate_branches(s, i, acc) matches Some(ds) ==> ds.len() >= acc.len() && (ds.len() == 0 ==> branches_placed_from(s, i)),
    decreases s, s.len() - i,
{
    if 0 <= i < s.len() {
        lemma_exprs_placed(s[i].block.contents, 0, seq![]);
        if let Some(d1) = validate_condition(*s[i].condition) {
            if let Some(d2) = validate_exprs(s[i].block.contents, 0, seq![]) {
                lemma_branches_placed(s, i + 1, acc + d1 + d2);
            }
        }
    }
}

/// An expression that validation reports nothing about has everything where it may stand.
pub proof fn lemma_expr_placed(e: SpecExpr)
    ensures
        validate_expr(e) matches Some(ds) ==> (ds.len() == 0 ==> placed(e)),
    decreases e, 0int,
{
    match e {
        SpecExpr::Block(b) => lemma_exprs_placed(b.contents, 0, seq![]),
        SpecExpr::Defun(d) => lemma_exprs_placed(d.closure.body.contents, 0, seq![]),
        SpecExpr::Assignment(a) => lemma_expr_placed(*a.value),
        SpecExpr::IfExpr(i) => {
            lemma_branches_placed(i.branches, 0, seq![]);
            if let Some(eb) = i.else_branch {
                if let SpecExpr::Block(b) = *eb {
                    lemma_exprs_placed(b.contents, 0, seq![]);
                }
            }
        },
        SpecExpr::Funcall(f) => lemma_values_placed(f.args, 0, seq![]),
        SpecExpr::Closure(c) => lemma_exprs_placed(c.body.contents, 0, seq![]),
        SpecExpr::Or(c) => lemma_conditions_placed(c.conditions, 0, seq![]),
        SpecExpr::And(c) => lemma_conditions_placed(c.conditions, 0, seq![]),
        _ => {},
    }
}

/// A program that validation reports nothing about has every declaration, assignment,
/// closure and `else` where it may stand.
pub proof fn lemma_valid_program_placed(p: SpecProgram)
    ensures
        validate_program(p) matches Some(ds) ==> (ds.len() == 0 ==> placed_from(p.expressions, 0)),
{
    lemma_exprs_placed(p.expressions, 0, seq![]);
}

proof fn lemma_values_accepted(s: Seq<SpecExpr>, i: int, acc: Seq<SpecDiagnostic>)
    requires
        values_from(s, i),
    ensures
        validate_values(s, i, acc) == Some(acc),
    decreases s.len() - i,
{
    if 0 <= i < s.len() {
        assert(acc + seq![] =~= acc);
        lemma_values_accepted(s, i + 1, acc + seq![]);
    }
}

proof fn lemma_conditions_accepted(s: Seq<SpecExpr>, i: int, acc: Seq<SpecDiagnostic>)
    requires
        conditions_from(s, i),
    ensures
        validate_conditions(s, i, acc) == Some(acc),
    decreases s.len() - i,
{
    if 0 <= i < s.len() {
        assert(acc + seq![] =~= acc);
        lemma_conditions_accepted(s, i + 1, acc + seq![]);
    }
}

proof fn lemma_exprs_accepted(s: Seq<SpecExpr>, i: int, acc: Seq<SpecDiagnostic>)
    requires
        placed_from(s, i),
    ensures
        validate_exprs(s, i, acc) == Some(acc),
    decreases s, s.len() - i,
{
    if 0 <= i < s.len() {
        lemma_expr_accepted(s[i]);
        assert(acc + seq![] =~= acc);
        lemma_exprs_accepted(s, i + 1, acc + seq![]);
    }
}

proof fn lemma_branches_accepted(s: Seq<SpecBranch>, i: int, acc: Seq<SpecDiagnostic>)
    requires
        branches_placed_from(s, i),
    ensures
        validate_branches(s, i, acc) == Some(acc),
    decreases s, s.len() - i,
{
    if 0 <= i < s.len() {
        lemma_exprs_accepted(s[i].block.contents, 0, seq![]);
        assert(acc + seq![] + seq![] =~= acc);
        lemma_branches_accepted(s, i + 1, acc + seq![] + seq![]);
    }
}

/// An expression that has everything where it may stand is accepted by validation with no
/// diagnostic: any value may be a call's argument or a declaration's value, any value but a
/// closure a condition (a `not`, `or` or `and` among them), any value but `or`, `and` and
/// `not` a callee.
pub proof fn lemma_expr_accepted(e: SpecExpr)
    requires
        placed(e),
    ensures
        validate_expr(e) == Some(Seq::<SpecDiagnostic>::empty()),
    decreases e, 0int,
{
    match e {
        SpecExpr::Block(b) => lemma_exprs_accepted(b.contents, 0, seq![]),
        SpecExpr::Defun(d) => lemma_exprs_accepted(d.closure.body.contents, 0, seq![]),
        SpecExpr::Assignment(a) => lemma_expr_accepted(*a.value),
        SpecExpr::IfExpr(i) => {
            lemma_branches_accepted(i.branches, 0, seq![]);
            if let Some(eb) = i.else_branch {
                if let SpecExpr::Block(b) = *eb {
                    lemma_exprs_accepted(b.contents, 0, seq![]);
                }
            }
            assert(Seq::<SpecDiagnostic>::empty() + Seq::<SpecDiagnostic>::empty() =~= Seq::<SpecDiagnostic>::empty());
        },
        SpecExpr::Funcall(f) => {
            lemma_values_accepted(f.args, 0, seq![]);
            assert(Seq::<SpecDiagnostic>::empty() + Seq::<SpecDiagnostic>::empty() =~= Seq::<SpecDiagnostic>::empty());
        },
        SpecExpr::Closure(c) => lemma_exprs_accepted(c.body.contents, 0, seq![]),
        SpecExpr::Or(c) => lemma_conditions_accepted(c.conditions, 0, seq![]),
        SpecExpr::And(c) => lemma_conditions_accepted(c.conditions, 0, seq![]),
        _ => {},
    }
}

/// As a condition, anything but a closure is judged as it is as a value: a `not`, an `or`,
/// an `and`, a call, a block, an `if`, a literal or a variable gets no diagnostic for
/// standing there; a closure that is a sound value is refused with "unexpected closure".
pub proof fn lemma_conditions_are_values(e: SpecExpr)
    ensures
        !(e is Closure) ==> validate_condition(e) == validate_value(e),
        (e matches SpecExpr::Closure(c) && validate_value(e) == Some(Seq::<SpecDiagnostic>::empty()))
            ==> validate_condition(e) == Some(seq![diag(e->Closure_0.position, "unexpected closure")]),
{
    if let Some(ds) = validate_value(e) {
        if ds.len() == 0 {
            assert(ds =~= Seq::<SpecDiagnostic>::empty());
        }
    }
}

/// Validation reports nothing about a program exactly when everything in it stands where
/// it may.
pub proof fn lemma_validation_iff_placed(p: SpecProgram)
    ensures
        validate_program(p) == Some(Seq::<SpecDiagnostic>::empty()) <==> placed_from(p.expressions, 0),
{
    lemma_exprs_placed(p.expressions, 0, seq![]);
    if placed_from(p.expressions, 0) {
        lemma_exprs_accepted(p.expressions, 0, seq![]);
    }
}

/// Whether checking gave `ok` and reported what `expected` promises.
pub open spec fn checks(ok: bool, expected: Option<Seq<SpecDiagnostic>>, before: Seq<Diagnostic>, after: Seq<Diagnostic>) -> bool {
    match expected {
        None => !ok,
        Some(ds) => ok && diags_view(after) == diags_view(before) + ds,
    }
}

/// Collects the diagnostics about programs.
#[derive(Debug, Clone)]
pub struct ASTValidator {
    diagnostics: Vec<Diagnostic>,
}

impl View for ASTValidator {
    type V = Seq<SpecDiagnostic>;

    /// The diagnostics collected so far.
    closed spec fn view(&self) -> Seq<SpecDiagnostic> {
        diags_view(self.diagnostics@)
    }
}

/// A copy of a list of diagnostics.
pub fn copy_diags(ds: &Vec<Diagnostic>) -> (r: Vec<Diagnostic>)
    ensures
        diags_view(r@) == diags_view(ds@),
{
    let mut out: Vec<Diagnostic> = Vec::new();
    let mut i: usize = 0;
    while i < ds.len()
        invariant
            i <= ds@.len(),
            diags_view(out@) == diags_view(ds@.take(i as int)),
        decreases ds.len() - i,
    {
        let d = ds[i].duplicate();
        proof {
            crate::diagnostics::lemma_diags_push(out@, d);
            assert(ds@.take(i + 1) =~= ds@.take(i as int).push(ds@[i as int]));
            crate::diagnostics::lemma_diags_push(ds@.take(i as int), ds@[i as int]);
        }
        out.push(d);
        i = i + 1;
    }
    assert(ds@.take(ds@.len() as int) =~= ds@);
    out
}

impl ASTValidator {
    /// A validator that has collected nothing.
    pub fn new() -> (r: Self)
        ensures
            r@ == Seq::<SpecDiagnostic>::empty(),
    {
        let r = Self { diagnostics: Vec::new() };
        assert(r@ =~= Seq::<SpecDiagnostic>::empty());
        r
    }

    /// Adds the diagnostics about `program` to those collected, and returns them all, or
    /// `Ok` when there are none, in which case everything in the program stands where it may
    /// (see [`placed`]). `program` holds no `Error` where one is looked at.
    pub fn validate(&mut self, program: &Program) -> (r: Result<(), Vec<Diagnostic>>)
        requires
            validate_program(program@) is Some,
        ensures
            final(self)@ == old(self)@ + validate_program(program@)->0,
            match r {
                Ok(()) => final(self)@.len() == 0 && placed_from(program@.expressions, 0),
                Err(ds) => final(self)@.len() > 0 && diags_view(ds@) == final(self)@,
            },
    {
        match self.try_validate(program) {
            Some(r) => r,
            None => {
                assert(false);
                Ok(())
            },
        }
    }

    /// As [`ASTValidator::validate`]; `None`, with nothing promised of the collected
    /// diagnostics, where the program holds an `Error` or an `else` that is no block.
    pub fn try_validate(&mut self, program: &Program) -> (r: Option<Result<(), Vec<Diagnostic>>>)
        ensures
            match validate_program(program@) {
                None => r is None,
                Some(ds) => r is Some && final(self)@ == old(self)@ + ds && match r->0 {
                    Ok(()) => final(self)@.len() == 0 && placed_from(program@.expressions, 0),
                    Err(es) => final(self)@.len() > 0 && diags_view(es@) == final(self)@,
                },
            },
    {
        proof {
            lemma_view_exprs_index(program.expressions@);
            lemma_valid_program_placed(program@);
        }
        if !validate_exprs_exec(&mut self.diagnostics, &program.expressions) {
            return None;
        }
        if self.diagnostics.len() == 0 {
            Some(Ok(()))
        } else {
            Some(Err(copy_diags(&self.diagnostics)))
        }
    }
}

fn validate_value_exec(diags: &mut Vec<Diagnostic>, e: &Expr) -> (ok: bool)
    ensures
        checks(ok, validate_value(e@), old(diags)@, final(diags)@),
{
    match e {
        Expr::Declaration(decl) => {
            report(diags, decl.position.duplicate(), "unexpected variable declaration");
            true
        },
        Expr::Assignment(assignment) => {
            report(diags, assignment.position.duplicate(), "unexpected assignment");
            true
        },
        Expr::Defun(defun) => {
            report(diags, defun.position.duplicate(), "unexpected function declaration");
            true
        },
        Expr::Error => false,
        _ => true,
    }
}

fn validate_condition_exec(diags: &mut Vec<Diagnostic>, e: &Expr) -> (ok: bool)
    ensures
        checks(ok, validate_condition(e@), old(diags)@, final(diags)@),
{
    let before = diags.len();
    if !validate_value_exec(diags, e) {
        return false;
    }
    if diags.len() == before {
        if let Expr::Closure(closure) = e {
            assert(view_closure(*closure).position == closure.position@);
            report(diags, closure.position.duplicate(), "unexpected closure");
        }
    }
    true
}

fn validate_callee_exec(diags: &mut Vec<Diagnostic>, e: &Expr) -> (ok: bool)
    ensures
        checks(ok, validate_callee(e@), old(diags)@, final(diags)@),
{
    match e {
        Expr::Or(or_expr) => {
            report(diags, or_expr.position.duplicate(), "unexpected 'or'");
            true
        },
        Expr::And(and_expr) => {
            report(diags, and_expr.position.duplicate(), "unexpected 'and'");
            true
        },
        Expr::Not(not_expr) => {
            report(diags, not_expr.position.duplicate(), "unexpected 'and'");
            true
        },
        _ => validate_value_exec(diags, e),
    }
}

fn validate_values_exec(diags: &mut Vec<Diagnostic>, s: &Vec<Expr>) -> (ok: bool)
    ensures
        checks(ok, validate_values(view_exprs(s@), 0, seq![]), old(diags)@, final(diags)@),
{
    proof {
        lemma_view_exprs_index(s@);
    }
    let ghost vs = view_exprs(s@);
    let ghost mut acc: Seq<SpecDiagnostic> = seq![];
    let mut i: usize = 0;
    while i < s.len()
        invariant
            i <= s@.len(),
            vs == view_exprs(s@),
            vs.len() == s@.len(),
            forall|j: int| 0 <= j < s@.len() ==> #[trigger] vs[j] == view_expr(s@[j]),
            diags_view(diags@) == diags_view(old(diags)@) + acc,
            validate_values(vs, 0, seq![]) == validate_values(vs, i as int, acc),
        decreases s.len() - i,
    {
        if !validate_value_exec(diags, &s[i]) {
            return false;
        }
        proof {
            acc = acc + validate_value(vs[i as int])->0;
        }
        i = i + 1;
    }
    true
}

fn validate_conditions_exec(diags: &mut Vec<Diagnostic>, s: &Vec<Expr>) -> (ok: bool)
    ensures
        checks(ok, validate_conditions(view_exprs(s@), 0, seq![]), old(diags)@, final(diags)@),
{
    proof {
        lemma_view_exprs_index(s@);
    }
    let ghost vs = view_exprs(s@);
    let ghost mut acc: Seq<SpecDiagnostic> = seq![];
    let mut i: usize = 0;
    while i < s.len()
        invariant
            i <= s@.len(),
            vs == view_exprs(s@),
            vs.len() == s@.len(),
            forall|j: int| 0 <= j < s@.len() ==> #[trigger] vs[j] == view_expr(s@[j]),
            diags_view(diags@) == diags_view(old(diags)@) + acc,
            validate_conditions(vs, 0, seq![]) == validate_conditions(vs, i as int, acc),
        decreases s.len() - i,
    {
        if !validate_condition_exec(diags, &s[i]) {
            return false;
        }
        proof {
            acc = acc + validate_condition(vs[i as int])->0;
        }
        i = i + 1;
    }
    true
}

/// The expressions of `s`, in order.
fn validate_exprs_exec(diags: &mut Vec<Diagnostic>, s: &Vec<Expr>) -> (ok: bool)
    ensures
        checks(ok, validate_exprs(view_exprs(s@), 0, seq![]), old(diags)@, final(diags)@),
    decreases s, 1int,
{
    proof {
        lemma_view_exprs_index(s@);
    }
    let ghost vs = view_exprs(s@);
    let ghost mut acc: Seq<SpecDiagnostic> = seq![];
    let mut i: usize = 0;
    while i < s.len()
        invariant
            i <= s@.len(),
            vs == view_exprs(s@),
            vs.len() == s@.len(),
            forall|j: int| 0 <= j < s@.len() ==> #[trigger] vs[j] == view_expr(s@[j]),
            diags_view(diags@) == diags_view(old(diags)@) + acc,
            validate_exprs(vs, 0, seq![]) == validate_exprs(vs, i as int, acc),
        decreases s.len() - i,
    {
        if !validate_expr_exec(diags, &s[i]) {
            return false;
        }
        proof {
            acc = acc + validate_expr(vs[i as int])->0;
        }
        i = i + 1;
    }
    true
}

/// The branches of an `if`: each condition, then each body.
fn validate_branches_exec(diags: &mut Vec<Diagnostic>, s: &Vec<Branch>) -> (ok: bool)
    ensures
        checks(ok, validate_branches(view_branches(s@), 0, seq![]), old(diags)@, final(diags)@),
    decreases s, 1int,
{
    proof {
        lemma_view_branches_index(s@);
    }
    let ghost vs = view_branches(s@);
    let ghost mut acc: Seq<SpecDiagnostic> = seq![];
    let mut i: usize = 0;
    while i < s.len()
        invariant
            i <= s@.len(),
            vs == view_branches(s@),
            vs.len() == s@.len(),
            forall|j: int| 0 <= j < s@.len() ==> #[trigger] vs[j] == view_branch(s@[j]),
            diags_view(diags@) == diags_view(old(diags)@) + acc,
            validate_branches(vs, 0, seq![]) == validate_branches(vs, i as int, acc),
        decreases s.len() - i,
    {
        let branch = &s[i];
        assert(view_branch(*branch).block == view_block(branch.block));
        assert(view_block(branch.block).contents == view_exprs(branch.block.contents@));
        if !validate_condition_exec(diags, &branch.condition) {
            return false;
        }
        if !validate_exprs_exec(diags, &branch.block.contents) {
            return false;
        }
        proof {
            acc = acc + validate_condition(*vs[i as int].condition)->0 + validate_exprs(
                vs[i as int].block.contents,
                0,
                seq![],
            )->0;
        }
        i = i + 1;
    }
    true
}

fn validate_expr_exec(diags: &mut Vec<Diagnostic>, e: &Expr) -> (ok: bool)
    ensures
        checks(ok, validate_expr(e@), old(diags)@, final(diags)@),
    decreases e, 0int,
{
    match e {
        Expr::Literal(_) | Expr::Variable(_) => {
            assert(diags_view(diags@) =~= diags_view(diags@) + seq![]);
            true
        },
        Expr::Block(block) => {
            assert(view_block(*block).contents == view_exprs(block.contents@));
            validate_exprs_exec(diags, &block.contents)
        },
        Expr::Defun(defun) => {
            assert(view_closure(defun.closure).body == view_block(defun.closure.body));
            assert(view_block(defun.closure.body).contents == view_exprs(defun.closure.body.contents@));
            validate_exprs_exec(diags, &defun.closure.body.contents)
        },
        Expr::Declaration(decl) => validate_value_exec(diags, &decl.value),
        Expr::Assignment(assignment) => validate_expr_exec(diags, &assignment.value),
        Expr::IfExpr(if_expr) => {
            proof {
                lemma_view_branches_index(if_expr.branches@);
            }
            if if_expr.branches.len() == 0 {
                report(diags, if_expr.position.duplicate(), "'if' has no branch");
                return true;
            }
            if !validate_branches_exec(diags, &if_expr.branches) {
                return false;
            }
            match &if_expr.else_branch {
                None => true,
                Some(else_branch) => match &**else_branch {
                    Expr::Block(block) => {
                        assert(view_block(*block).contents == view_exprs(block.contents@));
                        validate_exprs_exec(diags, &block.contents)
                    },
                    _ => {
                        assert(!(view_expr(**else_branch) is Block));
                        false
                    },
                },
            }
        },
        Expr::Funcall(funcall) => {
            if !validate_callee_exec(diags, &funcall.callee) {
                return false;
            }
            validate_values_exec(diags, &funcall.args)
        },
        Expr::Closure(closure) => {
            assert(view_closure(*closure).body == view_block(closure.body));
            assert(view_block(closure.body).contents == view_exprs(closure.body.contents@));
            validate_exprs_exec(diags, &closure.body.contents)
        },
        Expr::Or(or_expr) => validate_conditions_exec(diags, &or_expr.conditions),
        Expr::And(and_expr) => validate_conditions_exec(diags, &and_expr.conditions),
        Expr::Not(not_expr) => validate_condition_exec(diags, &not_expr.condition),
        Expr::Error => false,
    }
}

} // verus!
