//! The syntax tree and its mathematical views.
use crate::types::{Op, Primitive};
use vstd::prelude::*;

verus! {

/// A syntactic type reference; names are not resolved here.
#[derive(Debug, PartialEq, Eq)]
pub enum Type {
    Primitive(Primitive),
    Struct(String),
    Interface(String),
    Pointer(Box<Type>),
}

#[derive(Debug, PartialEq, Eq)]
pub enum Literal {
    Number(i64),
    Str(String),
}

#[derive(Debug, PartialEq, Eq)]
pub enum Expression {
    Literal(Literal),
    Identifier(String),
    UnaryOp(Op, Box<Expression>),
    BinaryOp(Op, Box<Expression>, Box<Expression>),
    Call(String, Vec<Expression>),
}

#[derive(Debug, PartialEq, Eq)]
pub enum Statement {
    Block(Vec<Statement>),
    Declaration(String, Type, Option<Expression>),
    ExpressionStmt(Expression),
    Assign(Expression, Expression),
    If(Expression, Box<Statement>, Option<Box<Statement>>),
    While(Expression, Box<Statement>),
    ForIn(String, Expression, Box<Statement>),
    /// `for (init cond; step) body`: `init` ends with its own `;`.
    For(Box<Statement>, Expression, Box<Statement>, Box<Statement>),
    Return(Option<Expression>),
    /// The body `{}` with nothing inside.
    Empty,
}

/// A struct definition: its name and its fields in order of declaration.
/// No two fields share a name (`wf`).
#[derive(Debug, PartialEq, Eq)]
pub struct Struct {
    pub name: String,
    pub fields: Vec<(String, Type)>,
}

#[derive(Debug, PartialEq, Eq)]
pub enum Definition {
    FnDef(String, Vec<(String, Type)>, Option<Type>, Statement),
    GlobalDef(String, Type, Option<Expression>),
    StructDef(Struct),
}

/// A parsed source file: its definitions in order.
#[derive(Debug, PartialEq, Eq)]
pub struct Program {
    pub definitions: Vec<Definition>,
}

impl Program {
    /// Every struct among the definitions has fields with distinct names.
    pub open spec fn wf(&self) -> bool {
        structs_unique(self.definitions@)
    }

    pub fn new() -> (r: Program)
        ensures
            r.definitions@.len() == 0,
            r.wf(),
    {
        proof {
            reveal(structs_unique);
        }
        Program { definitions: Vec::new() }
    }
}

pub enum TypeView {
    Primitive(Primitive),
    Struct(Seq<char>),
    Interface(Seq<char>),
    Pointer(Box<TypeView>),
}

pub enum LiteralView {
    Number(int),
    Str(Seq<char>),
}

pub enum ExprView {
    Literal(LiteralView),
    Identifier(Seq<char>),
    UnaryOp(Op, Box<ExprView>),
    BinaryOp(Op, Box<ExprView>, Box<ExprView>),
    Call(Seq<char>, Seq<ExprView>),
}

pub enum StmtView {
    Block(Seq<StmtView>),
    Declaration(Seq<char>, TypeView, Option<ExprView>),
    ExpressionStmt(ExprView),
    Assign(ExprView, ExprView),
    If(ExprView, Box<StmtView>, Option<Box<StmtView>>),
    While(ExprView, Box<StmtView>),
    ForIn(Seq<char>, ExprView, Box<StmtView>),
    For(Box<StmtView>, ExprView, Box<StmtView>, Box<StmtView>),
    Return(Option<ExprView>),
    Empty,
}

pub enum DefView {
    FnDef(Seq<char>, Seq<(Seq<char>, TypeView)>, Option<TypeView>, StmtView),
    GlobalDef(Seq<char>, TypeView, Option<ExprView>),
    StructDef(Seq<char>, Seq<(Seq<char>, TypeView)>),
}

pub open spec fn type_view(t: Type) -> TypeView
    decreases t,
{
    match t {
        Type::Primitive(p) => TypeView::Primitive(p),
        Type::Struct(s) => TypeView::Struct(s@),
        Type::Interface(s) => TypeView::Interface(s@),
        Type::Pointer(b) => TypeView::Pointer(Box::new(type_view(*b))),
    }
}

impl View for Type {
    type V = TypeView;

    open spec fn view(&self) -> TypeView {
        type_view(*self)
    }
}

pub open spec fn literal_view(l: Literal) -> LiteralView {
    match l {
        Literal::Number(n) => LiteralView::Number(n as int),
        Literal::Str(s) => LiteralView::Str(s@),
    }
}

pub open spec fn expr_view(e: Expression) -> ExprView
    decreases e,
{
    match e {
        Expression::Literal(l) => ExprView::Literal(literal_view(l)),
        Expression::Identifier(s) => ExprView::Identifier(s@),
        Expression::UnaryOp(op, a) => ExprView::UnaryOp(op, Box::new(expr_view(*a))),
        Expression::BinaryOp(op, a, b) => ExprView::BinaryOp(
            op,
            Box::new(expr_view(*a)),
            Box::new(expr_view(*b)),
        ),
        Expression::Call(name, args) => ExprView::Call(name@, exprs_view(args@)),
    }
}

pub open spec fn exprs_view(s: Seq<Expression>) -> Seq<ExprView>
    decreases s,
{
    if s.len() == 0 {
        seq![]
    } else {
        exprs_view(s.subrange(0, s.len() - 1)).push(expr_view(s[s.len() - 1]))
    }
}

impl View for Expression {
    type V = ExprView;

    open spec fn view(&self) -> ExprView {
        expr_view(*self)
    }
}

pub open spec fn opt_expr_view(e: Option<Expression>) -> Option<ExprView> {
    match e {
        Some(x) => Some(expr_view(x)),
        None => None,
    }
}

pub open spec fn stmt_view(s: Statement) -> StmtView
    decreases s,
{
    match s {
        Statement::Block(v) => StmtView::Block(stmts_view(v@)),
        Statement::Declaration(n, t, init) => StmtView::Declaration(
            n@,
            type_view(t),
            opt_expr_view(init),
        ),
        Statement::ExpressionStmt(e) => StmtView::ExpressionStmt(expr_view(e)),
        Statement::Assign(a, b) => StmtView::Assign(expr_view(a), expr_view(b)),
        Statement::If(c, t, e) => StmtView::If(
            expr_view(c),
            Box::new(stmt_view(*t)),
            match e {
                Some(x) => Some(Box::new(stmt_view(*x))),
                None => None,
            },
        ),
        Statement::While(c, b) => StmtView::While(expr_view(c), Box::new(stmt_view(*b))),
        Statement::ForIn(n, e, b) => StmtView::ForIn(n@, expr_view(e), Box::new(stmt_view(*b))),
        Statement::For(init, c, step, b) => StmtView::For(
            Box::new(stmt_view(*init)),
            expr_view(c),
            Box::new(stmt_view(*step)),
            Box::new(stmt_view(*b)),
        ),
        Statement::Return(e) => StmtView::Return(opt_expr_view(e)),
        Statement::Empty => StmtView::Empty,
    }
}

pub open spec fn stmts_view(s: Seq<Statement>) -> Seq<StmtView>
    decreases s,
{
    if s.len() == 0 {
        seq![]
    } else {
        stmts_view(s.subrange(0, s.len() - 1)).push(stmt_view(s[s.len() - 1]))
    }
}

impl View for Statement {
    type V = StmtView;

    open spec fn view(&self) -> StmtView {
        stmt_view(*self)
    }
}

pub open spec fn fields_view(s: Seq<(String, Type)>) -> Seq<(Seq<char>, TypeView)> {
    s.map_values(|f: (String, Type)| (f.0@, type_view(f.1)))
}

pub open spec fn opt_type_view(t: Option<Type>) -> Option<TypeView> {
    match t {
        Some(x) => Some(type_view(x)),
        None => None,
    }
}

impl View for Definition {
    type V = DefView;

    open spec fn view(&self) -> DefView {
        match self {
            Definition::FnDef(n, ps, r, b) => DefView::FnDef(
                n@,
                fields_view(ps@),
                opt_type_view(*r),
                stmt_view(*b),
            ),
            Definition::GlobalDef(n, t, e) => DefView::GlobalDef(n@, type_view(*t), opt_expr_view(*e)),
            Definition::StructDef(s) => DefView::StructDef(s.name@, fields_view(s.fields@)),
        }
    }
}

pub open spec fn defs_view(s: Seq<Definition>) -> Seq<DefView> {
    s.map_values(|d: Definition| d@)
}

/// No two fields of a struct share a name.
pub open spec fn unique_names(fields: Seq<(Seq<char>, TypeView)>) -> bool {
    forall|a: int, b: int|
        0 <= a < b < fields.len() ==> (#[trigger] fields[a]).0 != (#[trigger] fields[b]).0
}

impl Struct {
    pub open spec fn wf(&self) -> bool {
        unique_names(fields_view(self.fields@))
    }
}

pub proof fn lemma_exprs_view(s: Seq<Expression>)
    ensures
        exprs_view(s).len() == s.len(),
        forall|k: int| 0 <= k < s.len() ==> #[trigger] exprs_view(s)[k] == expr_view(s[k]),
    decreases s.len(),
{
    if s.len() > 0 {
        lemma_exprs_view(s.subrange(0, s.len() - 1));
    }
}

/// Every struct definition in `defs` has fields with distinct names.
#[verifier::opaque]
pub open spec fn structs_unique(defs: Seq<Definition>) -> bool {
    forall|k: int|
        0 <= k < defs.len() && (#[trigger] defs[k]) is StructDef ==> defs[k]->StructDef_0.wf()
}

pub proof fn lemma_structs_unique_push(defs: Seq<Definition>, d: Definition)
    requires
        structs_unique(defs),
        d is StructDef ==> d->StructDef_0.wf(),
    ensures
        structs_unique(defs.push(d)),
{
    reveal(structs_unique);
    assert forall|k: int|
        0 <= k < defs.push(d).len() && (#[trigger] defs.push(d)[k]) is StructDef implies defs.push(
        d,
    )[k]->StructDef_0.wf() by {
        if k < defs.len() {
            assert(defs.push(d)[k] == defs[k]);
        }
    }
}

} // verus!
