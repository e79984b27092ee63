//! The syntax tree of a program, and its mathematical value.
use vstd::prelude::*;

use crate::position::{Position, SpecPosition};

pub mod if_struct;

verus! {

#[derive(Debug, Clone)]
pub struct Variable {
    pub position: Position,
    pub value: String,
}

#[derive(Debug, Clone)]
pub struct Literal {
    pub position: Position,
    pub ty: LiteralType,
    pub value: String,
}

#[derive(Debug, Clone, Copy, PartialEq, Eq, Structural)]
pub enum LiteralType {
    Int,
    Float,
    Bool,
    String,
    Unit,
}

#[derive(Debug)]
pub struct TypeAnnotation {
    pub position: Position,
    pub value: TypeExpr,
}

#[derive(Debug)]
pub enum TypeExpr {
    Named(String),
    Function { params: Vec<TypeAnnotation>, ret: Box<TypeAnnotation> },
}

#[derive(Debug)]
pub struct VariableSignature {
    pub ty: TypeAnnotation,
    pub name: Variable,
}

#[derive(Debug)]
pub struct Declaration {
    pub position: Position,
    pub signature: VariableSignature,
    pub value: Box<Expr>,
    pub mutable: bool,
}

#[derive(Debug)]
pub struct Assignment {
    pub position: Position,
    pub variable: Variable,
    pub value: Box<Expr>,
}

#[derive(Debug)]
pub struct Block {
    pub position: Position,
    pub contents: Vec<Expr>,
}

#[derive(Debug)]
pub struct Parameter {
    pub position: Position,
    pub name: Variable,
    pub ty: TypeAnnotation,
}

#[derive(Debug)]
pub struct Closure {
    pub position: Position,
    pub params: Vec<Parameter>,
    pub return_type: TypeAnnotation,
    pub body: Block,
}

#[derive(Debug)]
pub struct Defun {
    pub position: Position,
    pub name: Variable,
    pub closure: Closure,
}

#[derive(Debug)]
pub struct Funcall {
    pub position: Position,
    pub callee: Box<Expr>,
    pub args: Vec<Expr>,
}

#[derive(Debug)]
pub struct Branch {
    pub condition: Box<Expr>,
    pub block: Block,
}

#[derive(Debug)]
pub struct IfExpr {
    pub position: Position,
    pub branches: Vec<Branch>,
    pub else_branch: Option<Box<Expr>>,
}

#[derive(Debug)]
pub struct OrExpr {
    pub position: Position,
    pub conditions: Vec<Expr>,
}

#[derive(Debug)]
pub struct AndExpr {
    pub position: Position,
    pub conditions: Vec<Expr>,
}

#[derive(Debug)]
pub struct NotExpr {
    pub position: Position,
    pub condition: Box<Expr>,
}

#[derive(Debug)]
pub enum Expr {
    Literal(Literal),
    Variable(Variable),
    Defun(Defun),
    Declaration(Declaration),
    Assignment(Assignment),
    Block(Block),
    IfExpr(IfExpr),
    Funcall(Funcall),
    Closure(Closure),
    Or(OrExpr),
    And(AndExpr),
    Not(NotExpr),
    Error,
}

#[derive(Debug)]
pub struct Program {
    pub name: String,
    pub expressions: Vec<Expr>,
}

// ---------------------------------------------------------------------------
// Mathematical values
// ---------------------------------------------------------------------------

pub struct SpecVariable {
    pub position: SpecPosition,
    pub value: Seq<char>,
}

pub struct SpecLiteral {
    pub position: SpecPosition,
    pub ty: LiteralType,
    pub value: Seq<char>,
}

pub struct SpecTypeAnnotation {
    pub position: SpecPosition,
    pub value: SpecTypeExpr,
}

pub enum SpecTypeExpr {
    Named(Seq<char>),
    Function { params: Seq<SpecTypeAnnotation>, ret: Box<SpecTypeAnnotation> },
}

pub struct SpecVariableSignature {
    pub ty: SpecTypeAnnotation,
    pub name: SpecVariable,
}

pub struct SpecDeclaration {
    pub position: SpecPosition,
    pub signature: SpecVariableSignature,
    pub value: Box<SpecExpr>,
    pub mutable: bool,
}

pub struct SpecAssignment {
    pub position: SpecPosition,
    pub variable: SpecVariable,
    pub value: Box<SpecExpr>,
}

pub struct SpecBlock {
    pub position: SpecPosition,
    pub contents: Seq<SpecExpr>,
}

pub struct SpecParameter {
    pub position: SpecPosition,
    pub name: SpecVariable,
    pub ty: SpecTypeAnnotation,
}

pub struct SpecClosure {
    pub position: SpecPosition,
    pub params: Seq<SpecParameter>,
    pub return_type: SpecTypeAnnotation,
    pub body: SpecBlock,
}

pub struct SpecDefun {
    pub position: SpecPosition,
    pub name: SpecVariable,
    pub closure: SpecClosure,
}

pub struct SpecFuncall {
    pub position: SpecPosition,
    pub callee: Box<SpecExpr>,
    pub args: Seq<SpecExpr>,
}

pub struct SpecBranch {
    pub condition: Box<SpecExpr>,
    pub block: SpecBlock,
}

pub struct SpecIfExpr {
    pub position: SpecPosition,
    pub branches: Seq<SpecBranch>,
    pub else_branch: Option<Box<SpecExpr>>,
}

/// The value of an `or` or an `and`: its position and its conditions.
pub struct SpecConditions {
    pub position: SpecPosition,
    pub conditions: Seq<SpecExpr>,
}

pub struct SpecNotExpr {
    pub position: SpecPosition,
    pub condition: Box<SpecExpr>,
}

pub enum SpecExpr {
    Literal(SpecLiteral),
    Variable(SpecVariable),
    Defun(SpecDefun),
    Declaration(SpecDeclaration),
    Assignment(SpecAssignment),
    Block(SpecBlock),
    IfExpr(SpecIfExpr),
    Funcall(SpecFuncall),
    Closure(SpecClosure),
    Or(SpecConditions),
    And(SpecConditions),
    Not(SpecNotExpr),
    Error,
}

pub struct SpecProgram {
    pub name: Seq<char>,
    pub expressions: Seq<SpecExpr>,
}

impl SpecExpr {
    /// Where the expression stands in the source (undefined for `Error`).
    pub open spec fn position(self) -> SpecPosition {
        match self {
            SpecExpr::Literal(l) => l.position,
            SpecExpr::Variable(v) => v.position,
            SpecExpr::Defun(d) => d.position,
            SpecExpr::Declaration(d) => d.position,
            SpecExpr::Assignment(a) => a.position,
            SpecExpr::Block(b) => b.position,
            SpecExpr::IfExpr(i) => i.position,
            SpecExpr::Funcall(f) => f.position,
            SpecExpr::Closure(c) => c.position,
            SpecExpr::Or(o) => o.position,
            SpecExpr::And(a) => a.position,
            SpecExpr::Not(n) => n.position,
            SpecExpr::Error => arbitrary(),
        }
    }
}

/// Whether an `Error` stands anywhere in `e`.
pub open spec fn has_error(e: SpecExpr) -> bool
    decreases e,
{
    match e {
        SpecExpr::Error => true,
        SpecExpr::Literal(_) | SpecExpr::Variable(_) => false,
        SpecExpr::Defun(d) => exprs_have_error(d.closure.body.contents),
        SpecExpr::Declaration(d) => has_error(*d.value),
        SpecExpr::Assignment(a) => has_error(*a.value),
        SpecExpr::Block(b) => exprs_have_error(b.contents),
        SpecExpr::IfExpr(i) => branches_have_error(i.branches) || match i.else_branch {
            Some(eb) => has_error(*eb),
            None => false,
        },
        SpecExpr::Funcall(f) => has_error(*f.callee) || exprs_have_error(f.args),
        SpecExpr::Closure(c) => exprs_have_error(c.body.contents),
        SpecExpr::Or(c) => exprs_have_error(c.conditions),
        SpecExpr::And(c) => exprs_have_error(c.conditions),
        SpecExpr::Not(n) => has_error(*n.condition),
    }
}

/// Whether an `Error` stands anywhere in one of `s`.
pub open spec fn exprs_have_error(s: Seq<SpecExpr>) -> bool
    decreases s,
{
    if s.len() == 0 {
        false
    } else {
        exprs_have_error(s.drop_last()) || has_error(s.last())
    }
}

/// Whether an `Error` stands anywhere in one of the branches `s`.
pub open spec fn branches_have_error(s: Seq<SpecBranch>) -> bool
    decreases s,
{
    if s.len() == 0 {
        false
    } else {
        branches_have_error(s.drop_last()) || has_error(*s.last().condition) || exprs_have_error(
            s.last().block.contents,
        )
    }
}

// ---------------------------------------------------------------------------
// Views
// ---------------------------------------------------------------------------

pub open spec fn view_variable(v: Variable) -> SpecVariable {
    SpecVariable { position: v.position@, value: v.value@ }
}

pub open spec fn view_type_annotation(t: TypeAnnotation) -> SpecTypeAnnotation
    decreases t,
{
    SpecTypeAnnotation {
        position: t.position@,
        value: match t.value {
            TypeExpr::Named(n) => SpecTypeExpr::Named(n@),
            TypeExpr::Function { params, ret } => SpecTypeExpr::Function {
                params: view_type_annotations(params@),
                ret: Box::new(view_type_annotation(*ret)),
            },
        },
    }
}

pub open spec fn view_type_annotations(s: Seq<TypeAnnotation>) -> Seq<SpecTypeAnnotation>
    decreases s,
{
    if s.len() == 0 {
        Seq::empty()
    } else {
        view_type_annotations(s.drop_last()).push(view_type_annotation(s.last()))
    }
}

pub open spec fn view_parameter(p: Parameter) -> SpecParameter {
    SpecParameter {
        position: p.position@,
        name: view_variable(p.name),
        ty: view_type_annotation(p.ty),
    }
}

pub open spec fn view_parameters(s: Seq<Parameter>) -> Seq<SpecParameter> {
    s.map_values(|p: Parameter| view_parameter(p))
}

pub open spec fn view_block(b: Block) -> SpecBlock
    decreases b,
{
    SpecBlock { position: b.position@, contents: view_exprs(b.contents@) }
}

pub open spec fn view_closure(c: Closure) -> SpecClosure
    decreases c,
{
    SpecClosure {
        position: c.position@,
        params: view_parameters(c.params@),
        return_type: view_type_annotation(c.return_type),
        body: view_block(c.body),
    }
}

pub open spec fn view_branch(b: Branch) -> SpecBranch
    decreases b,
{
    SpecBranch { condition: Box::new(view_expr(*b.condition)), block: view_block(b.block) }
}

pub open spec fn view_branches(s: Seq<Branch>) -> Seq<SpecBranch>
    decreases s,
{
    if s.len() == 0 {
        Seq::empty()
    } else {
        view_branches(s.drop_last()).push(view_branch(s.last()))
    }
}

pub open spec fn view_expr(e: Expr) -> SpecExpr
    decreases e,
{
    match e {
        Expr::Literal(l) => SpecExpr::Literal(
            SpecLiteral { position: l.position@, ty: l.ty, value: l.value@ },
        ),
        Expr::Variable(v) => SpecExpr::Variable(view_variable(v)),
        Expr::Defun(d) => SpecExpr::Defun(
            SpecDefun {
                position: d.position@,
                name: view_variable(d.name),
                closure: view_closure(d.closure),
            },
        ),
        Expr::Declaration(d) => SpecExpr::Declaration(
            SpecDeclaration {
                position: d.position@,
                signature: SpecVariableSignature {
                    ty: view_type_annotation(d.signature.ty),
                    name: view_variable(d.signature.name),
                },
                value: Box::new(view_expr(*d.value)),
                mutable: d.mutable,
            },
        ),
        Expr::Assignment(a) => SpecExpr::Assignment(
            SpecAssignment {
                position: a.position@,
                variable: view_variable(a.variable),
                value: Box::new(view_expr(*a.value)),
            },
        ),
        Expr::Block(b) => SpecExpr::Block(view_block(b)),
        Expr::IfExpr(i) => SpecExpr::IfExpr(
            SpecIfExpr {
                position: i.position@,
                branches: view_branches(i.branches@),
                else_branch: match i.else_branch {
                    Some(e) => Some(Box::new(view_expr(*e))),
                    None => None,
                },
            },
        ),
        Expr::Funcall(f) => SpecExpr::Funcall(
            SpecFuncall {
                position: f.position@,
                callee: Box::new(view_expr(*f.callee)),
                args: view_exprs(f.args@),
            },
        ),
        Expr::Closure(c) => SpecExpr::Closure(view_closure(c)),
        Expr::Or(o) => SpecExpr::Or(
            SpecConditions { position: o.position@, conditions: view_exprs(o.conditions@) },
        ),
        Expr::And(a) => SpecExpr::And(
            SpecConditions { position: a.position@, conditions: view_exprs(a.conditions@) },
        ),
        Expr::Not(n) => SpecExpr::Not(
            SpecNotExpr { position: n.position@, condition: Box::new(view_expr(*n.condition)) },
        ),
        Expr::Error => SpecExpr::Error,
    }
}

pub open spec fn view_exprs(s: Seq<Expr>) -> Seq<SpecExpr>
    decreases s,
{
    if s.len() == 0 {
        Seq::empty()
    } else {
        view_exprs(s.drop_last()).push(view_expr(s.last()))
    }
}

impl View for Variable {
    type V = SpecVariable;

    open spec fn view(&self) -> SpecVariable {
        view_variable(*self)
    }
}

impl View for TypeAnnotation {
    type V = SpecTypeAnnotation;

    open spec fn view(&self) -> SpecTypeAnnotation {
        view_type_annotation(*self)
    }
}

impl View for VariableSignature {
    type V = SpecVariableSignature;

    open spec fn view(&self) -> SpecVariableSignature {
        SpecVariableSignature { ty: view_type_annotation(self.ty), name: view_variable(self.name) }
    }
}

impl View for Parameter {
    type V = SpecParameter;

    open spec fn view(&self) -> SpecParameter {
        view_parameter(*self)
    }
}

impl View for Block {
    type V = SpecBlock;

    open spec fn view(&self) -> SpecBlock {
        view_block(*self)
    }
}

impl View for Closure {
    type V = SpecClosure;

    open spec fn view(&self) -> SpecClosure {
        view_closure(*self)
    }
}

impl View for Branch {
    type V = SpecBranch;

    open spec fn view(&self) -> SpecBranch {
        view_branch(*self)
    }
}

impl View for Funcall {
    type V = SpecFuncall;

    open spec fn view(&self) -> SpecFuncall {
        SpecFuncall { position: self.position@, callee: Box::new(view_expr(*self.callee)), args: view_exprs(self.args@) }
    }
}

impl View for Expr {
    type V = SpecExpr;

    open spec fn view(&self) -> SpecExpr {
        view_expr(*self)
    }
}

impl View for Program {
    type V = SpecProgram;

    open spec fn view(&self) -> SpecProgram {
        SpecProgram { name: self.name@, expressions: view_exprs(self.expressions@) }
    }
}

/// Appending an expression appends its value.
pub proof fn lemma_view_exprs_push(s: Seq<Expr>, e: Expr)
    ensures
        view_exprs(s.push(e)) == view_exprs(s).push(view_expr(e)),
{
    assert(s.push(e).drop_last() =~= s);
}

/// The value of each element is the value at the same index.
pub proof fn lemma_view_exprs_index(s: Seq<Expr>)
    ensures
        view_exprs(s).len() == s.len(),
        forall|i: int| 0 <= i < s.len() ==> #[trigger] view_exprs(s)[i] == view_expr(s[i]),
    decreases s.len(),
{
    if s.len() > 0 {
        lemma_view_exprs_index(s.drop_last());
    }
}

pub proof fn lemma_view_branches_push(s: Seq<Branch>, b: Branch)
    ensures
        view_branches(s.push(b)) == view_branches(s).push(view_branch(b)),
{
    assert(s.push(b).drop_last() =~= s);
}

pub proof fn lemma_view_branches_index(s: Seq<Branch>)
    ensures
        view_branches(s).len() == s.len(),
        forall|i: int| 0 <= i < s.len() ==> #[trigger] view_branches(s)[i] == view_branch(s[i]),
    decreases s.len(),
{
    if s.len() > 0 {
        lemma_view_branches_index(s.drop_last());
    }
}

pub proof fn lemma_view_type_annotations_index(s: Seq<TypeAnnotation>)
    ensures
        view_type_annotations(s).len() == s.len(),
        forall|i: int| 0 <= i < s.len() ==> #[trigger] view_type_annotations(s)[i] == view_type_annotation(s[i]),
    decreases s.len(),
{
    if s.len() > 0 {
        lemma_view_type_annotations_index(s.drop_last());
    }
}

impl Expr {
    /// Where the expression stands in the source; an `Error` has no position.
    pub fn get_position(&self) -> (r: Position)
        requires
            !(self@ is Error),
        ensures
            r@ == self@.position(),
    {
        let p = match self {
            Expr::Literal(literal) => &literal.position,
            Expr::Variable(variable) => &variable.position,
            Expr::Block(block) => { assert(view_block(*block).position == block.position@); &block.position },
            Expr::Defun(defun) => &defun.position,
            Expr::Declaration(decl) => &decl.position,
            Expr::Assignment(assignment) => &assignment.position,
            Expr::IfExpr(if_expr) => &if_expr.position,
            Expr::Funcall(funcall) => &funcall.position,
            Expr::Closure(closure) => { assert(view_closure(*closure).position == closure.position@); &closure.position },
            Expr::Or(or_expr) => &or_expr.position,
            Expr::And(and_expr) => &and_expr.position,
            Expr::Not(not_expr) => &not_expr.position,
            Expr::Error => {
                assert(false);
                return Position { file: String::new(), line: 0, col: 0 };
            },
        };
        p.duplicate()
    }
}

proof fn lemma_view_type_annotations_push(s: Seq<TypeAnnotation>, t: TypeAnnotation)
    ensures
        view_type_annotations(s.push(t)) == view_type_annotations(s).push(view_type_annotation(t)),
{
    assert(s.push(t).drop_last() =~= s);
}

impl Variable {
    /// A copy of this variable.
    pub fn duplicate(&self) -> (r: Variable)
        ensures
            r@ == self@,
    {
        Variable { position: self.position.duplicate(), value: self.value.clone() }
    }
}

impl TypeAnnotation {
    /// A copy of this annotation.
    #[verifier::loop_isolation(false)]
    pub fn duplicate(&self) -> (r: TypeAnnotation)
        ensures
            r@ == self@,
        decreases self,
    {
        let value = match &self.value {
            TypeExpr::Named(name) => TypeExpr::Named(name.clone()),
            TypeExpr::Function { params, ret } => {
                proof {
                    lemma_view_type_annotations_index(params@);
                }
                let mut ps: Vec<TypeAnnotation> = Vec::new();
                let mut i: usize = 0;
                while i < params.len()
                    invariant
                        i <= params@.len(),
                        view_type_annotations(params@).len() == params@.len(),
                        forall|j: int|
                            0 <= j < params@.len() ==> #[trigger] view_type_annotations(params@)[j]
                                == view_type_annotation(params@[j]),
                        view_type_annotations(ps@) == view_type_annotations(params@).take(i as int),
                    decreases params.len() - i,
                {
                    let t = params[i].duplicate();
                    proof {
                        lemma_view_type_annotations_push(ps@, t);
                        assert(view_type_annotations(params@).take(i + 1) =~= view_type_annotations(params@).take(
                            i as int,
                        ).push(view_type_annotation(params@[i as int])));
                    }
                    ps.push(t);
                    i = i + 1;
                }
                assert(view_type_annotations(params@).take(params@.len() as int) =~= view_type_annotations(params@));
                TypeExpr::Function { params: ps, ret: Box::new(ret.duplicate()) }
            },
        };
        TypeAnnotation { position: self.position.duplicate(), value }
    }
}

impl Parameter {
    /// A copy of this parameter.
    pub fn duplicate(&self) -> (r: Parameter)
        ensures
            r@ == self@,
    {
        Parameter { position: self.position.duplicate(), name: self.name.duplicate(), ty: self.ty.duplicate() }
    }
}

fn copy_parameters(ps: &Vec<Parameter>) -> (r: Vec<Parameter>)
    ensures
        view_parameters(r@) == view_parameters(ps@),
{
    let mut out: Vec<Parameter> = Vec::new();
    let mut i: usize = 0;
    while i < ps.len()
        invariant
            i <= ps@.len(),
            view_parameters(out@) =~= view_parameters(ps@).take(i as int),
        decreases ps.len() - i,
    {
        let p = ps[i].duplicate();
        let ghost before = out@;
        out.push(p);
        assert(view_parameters(out@) =~= view_parameters(before).push(view_parameter(p)));
        assert(view_parameters(ps@).take(i + 1) =~= view_parameters(ps@).take(i as int).push(
            view_parameter(ps@[i as int]),
        ));
        i = i + 1;
    }
    assert(view_parameters(ps@).take(ps@.len() as int) =~= view_parameters(ps@));
    out
}

fn copy_exprs(s: &Vec<Expr>) -> (r: Vec<Expr>)
    ensures
        view_exprs(r@) == view_exprs(s@),
    decreases s,
{
    proof {
        lemma_view_exprs_index(s@);
    }
    let mut out: Vec<Expr> = Vec::new();
    let mut i: usize = 0;
    while i < s.len()
        invariant
            i <= s@.len(),
            view_exprs(s@).len() == s@.len(),
            forall|j: int| 0 <= j < s@.len() ==> #[trigger] view_exprs(s@)[j] == view_expr(s@[j]),
            view_exprs(out@) == view_exprs(s@).take(i as int),
        decreases s.len() - i,
    {
        let e = s[i].duplicate();
        proof {
            lemma_view_exprs_push(out@, e);
            assert(view_exprs(s@).take(i + 1) =~= view_exprs(s@).take(i as int).push(view_expr(s@[i as int])));
        }
        out.push(e);
        i = i + 1;
    }
    assert(view_exprs(s@).take(s@.len() as int) =~= view_exprs(s@));
    out
}

fn copy_branches(s: &Vec<Branch>) -> (r: Vec<Branch>)
    ensures
        view_branches(r@) == view_branches(s@),
    decreases s,
{
    proof {
        lemma_view_branches_index(s@);
    }
    let mut out: Vec<Branch> = Vec::new();
    let mut i: usize = 0;
    while i < s.len()
        invariant
            i <= s@.len(),
            view_branches(s@).len() == s@.len(),
            forall|j: int| 0 <= j < s@.len() ==> #[trigger] view_branches(s@)[j] == view_branch(s@[j]),
            view_branches(out@) == view_branches(s@).take(i as int),
        decreases s.len() - i,
    {
        let b = s[i].duplicate();
        proof {
            lemma_view_branches_push(out@, b);
            assert(view_branches(s@).take(i + 1) =~= view_branches(s@).take(i as int).push(view_branch(s@[i as int])));
        }
        out.push(b);
        i = i + 1;
    }
    assert(view_branches(s@).take(s@.len() as int) =~= view_branches(s@));
    out
}

impl Block {
    /// A copy of this block.
    pub fn duplicate(&self) -> (r: Block)
        ensures
            r@ == self@,
        decreases self,
    {
        Block { position: self.position.duplicate(), contents: copy_exprs(&self.contents) }
    }
}

impl Closure {
    /// A copy of this closure.
    pub fn duplicate(&self) -> (r: Closure)
        ensures
            r@ == self@,
        decreases self,
    {
        Closure {
            position: self.position.duplicate(),
            params: copy_parameters(&self.params),
            return_type: self.return_type.duplicate(),
            body: self.body.duplicate(),
        }
    }
}

impl Branch {
    /// A copy of this branch.
    pub fn duplicate(&self) -> (r: Branch)
        ensures
            r@ == self@,
        decreases self,
    {
        Branch { condition: Box::new(self.condition.duplicate()), block: self.block.duplicate() }
    }
}

impl Expr {
    /// A copy of this expression.
    pub fn duplicate(&self) -> (r: Expr)
        ensures
            r@ == self@,
        decreases self,
    {
        match self {
            Expr::Literal(l) => Expr::Literal(
                Literal { position: l.position.duplicate(), ty: l.ty, value: l.value.clone() },
            ),
            Expr::Variable(v) => Expr::Variable(v.duplicate()),
            Expr::Defun(d) => Expr::Defun(
                Defun { position: d.position.duplicate(), name: d.name.duplicate(), closure: d.closure.duplicate() },
            ),
            Expr::Declaration(d) => Expr::Declaration(
                Declaration {
                    position: d.position.duplicate(),
                    signature: VariableSignature {
                        ty: d.signature.ty.duplicate(),
                        name: d.signature.name.duplicate(),
                    },
                    value: Box::new(d.value.duplicate()),
                    mutable: d.mutable,
                },
            ),
            Expr::Assignment(a) => Expr::Assignment(
                Assignment {
                    position: a.position.duplicate(),
                    variable: a.variable.duplicate(),
                    value: Box::new(a.value.duplicate()),
                },
            ),
            Expr::Block(b) => Expr::Block(b.duplicate()),
            Expr::IfExpr(i) => Expr::IfExpr(
                IfExpr {
                    position: i.position.duplicate(),
                    branches: copy_branches(&i.branches),
                    else_branch: match &i.else_branch {
                        Some(e) => Some(Box::new(e.duplicate())),
                        None => None,
                    },
                },
            ),
            Expr::Funcall(f) => Expr::Funcall(
                Funcall {
                    position: f.position.duplicate(),
                    callee: Box::new(f.callee.duplicate()),
                    args: copy_exprs(&f.args),
                },
            ),
            Expr::Closure(c) => Expr::Closure(c.duplicate()),
            Expr::Or(o) => Expr::Or(OrExpr { position: o.position.duplicate(), conditions: copy_exprs(&o.conditions) }),
            Expr::And(a) => Expr::And(
                AndExpr { position: a.position.duplicate(), conditions: copy_exprs(&a.conditions) },
            ),
            Expr::Not(n) => Expr::Not(
                NotExpr { position: n.position.duplicate(), condition: Box::new(n.condition.duplicate()) },
            ),
            Expr::Error => Expr::Error,
        }
    }
}

} // verus!
