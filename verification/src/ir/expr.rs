//! The core intermediate representation: a small expression language
//! whose nodes are immutable once built and shared by reference count.
//! Recursion is expressed by name only, through recursive let bindings.

use vstd::prelude::*;
use std::sync::Arc;
use crate::base::pos::{BytePos, Span};
use crate::base::shared::share;
use crate::base::symbol::Symbol;
use crate::base::types::{type_view, ArcType, TypeView, TypedIdent, TypedIdentView};

verus! {

/// A constant of the language.
#[derive(Clone, Debug, PartialEq, Eq)]
pub enum Literal {
    Byte(u8),
    Int(i64),
    Char(char),
    String(String),
}

/// An expression as the nodes above it hold it.
pub type CExpr = Arc<Expr>;

/// A node of the core representation.
#[derive(Clone, Debug, PartialEq, Eq)]
pub enum Expr {
    Const(Literal, Span),
    Ident(TypedIdent, Span),
    /// The construction of a value of the type of the identifier from
    /// its fields.
    Data(TypedIdent, Vec<CExpr>, BytePos),
    Call(CExpr, Vec<CExpr>),
    Let(Arc<LetBinding>, CExpr),
    Match(CExpr, Vec<Alternative>),
    Cast(CExpr, ArcType),
}

/// What a let binds: a name to an expression, or the names of a group
/// of closures to these. The name of the binding of a group stands for
/// nothing.
#[derive(Clone, Debug, PartialEq, Eq)]
pub struct LetBinding {
    pub name: TypedIdent,
    pub expr: Named,
    pub span_start: BytePos,
}

/// What a let binding binds.
#[derive(Clone, Debug, PartialEq, Eq)]
pub enum Named {
    /// A group of closures that may refer to each other by name.
    Recursive(Vec<Closure>),
    Expr(CExpr),
}

/// A named function: its parameters and its body.
#[derive(Clone, Debug, PartialEq, Eq)]
pub struct Closure {
    pub pos: BytePos,
    pub name: TypedIdent,
    pub args: Vec<TypedIdent>,
    pub expr: CExpr,
}

/// An alternative of a match.
#[derive(Clone, Debug, PartialEq, Eq)]
pub struct Alternative {
    pub pattern: Pattern,
    pub expr: CExpr,
}

/// A pattern of an alternative, with the symbols that it binds.
#[derive(Clone, Debug, PartialEq, Eq)]
pub enum Pattern {
    Constructor(TypedIdent, Vec<TypedIdent>),
    /// The fields that a record pattern names, each with the symbol that
    /// it binds where that is not the field's own name.
    Record(Vec<(TypedIdent, Option<Symbol>)>),
    Ident(TypedIdent),
    Literal(Literal),
}

pub ghost enum LiteralView {
    Byte(u8),
    Int(i64),
    Char(char),
    String(Seq<char>),
}

/// An expression as the contracts speak of it: a tree of values,
/// without regard to which nodes are shared.
pub ghost enum ExprView {
    Const(LiteralView, Span),
    Ident(TypedIdentView, Span),
    Data(TypedIdentView, Seq<ExprView>, BytePos),
    Call(Box<ExprView>, Seq<ExprView>),
    Let(Box<LetBindingView>, Box<ExprView>),
    Match(Box<ExprView>, Seq<AlternativeView>),
    Cast(Box<ExprView>, TypeView),
}

pub ghost struct LetBindingView {
    pub name: TypedIdentView,
    pub expr: NamedView,
    pub span_start: BytePos,
}

pub ghost enum NamedView {
    Recursive(Seq<ClosureView>),
    Expr(Box<ExprView>),
}

pub ghost struct ClosureView {
    pub pos: BytePos,
    pub name: TypedIdentView,
    pub args: Seq<TypedIdentView>,
    pub expr: ExprView,
}

pub ghost struct AlternativeView {
    pub pattern: PatternView,
    pub expr: ExprView,
}

pub ghost enum PatternView {
    Constructor(TypedIdentView, Seq<TypedIdentView>),
    Record(Seq<(TypedIdentView, Option<Seq<char>>)>),
    Ident(TypedIdentView),
    Literal(LiteralView),
}

impl View for Literal {
    type V = LiteralView;

    open spec fn view(&self) -> LiteralView {
        match self {
            Literal::Byte(b) => LiteralView::Byte(*b),
            Literal::Int(i) => LiteralView::Int(*i),
            Literal::Char(c) => LiteralView::Char(*c),
            Literal::String(s) => LiteralView::String(s@),
        }
    }
}

pub open spec fn idents_view(s: Seq<TypedIdent>) -> Seq<TypedIdentView> {
    Seq::new(s.len(), |i: int| s[i]@)
}

pub open spec fn record_field_view(f: (TypedIdent, Option<Symbol>)) -> (
    TypedIdentView,
    Option<Seq<char>>,
) {
    (
        f.0@,
        match f.1 {
            Some(s) => Some(s@),
            None => None,
        },
    )
}

impl View for Pattern {
    type V = PatternView;

    open spec fn view(&self) -> PatternView {
        match self {
            Pattern::Constructor(id, args) => PatternView::Constructor(id@, idents_view(args@)),
            Pattern::Record(fields) => PatternView::Record(
                Seq::new(fields@.len(), |i: int| record_field_view(fields@[i])),
            ),
            Pattern::Ident(id) => PatternView::Ident(id@),
            Pattern::Literal(l) => PatternView::Literal(l@),
        }
    }
}

/// The tree that an expression stands for.
pub open spec fn expr_view(e: Expr) -> ExprView
    decreases e,
{
    match e {
        Expr::Const(l, span) => ExprView::Const(l@, span),
        Expr::Ident(id, span) => ExprView::Ident(id@, span),
        Expr::Data(id, args, pos) => ExprView::Data(id@, exprs_view(args@), pos),
        Expr::Call(f, args) => ExprView::Call(Box::new(expr_view(*f)), exprs_view(args@)),
        Expr::Let(bind, body) => ExprView::Let(
            Box::new(binding_view(*bind)),
            Box::new(expr_view(*body)),
        ),
        Expr::Match(scrutinee, alts) => ExprView::Match(
            Box::new(expr_view(*scrutinee)),
            alts_view(alts@),
        ),
        Expr::Cast(inner, typ) => ExprView::Cast(Box::new(expr_view(*inner)), type_view(*typ)),
    }
}

pub open spec fn exprs_view(s: Seq<CExpr>) -> Seq<ExprView>
    decreases s,
{
    Seq::new(
        s.len(),
        |i: int|
            if 0 <= i < s.len() {
                expr_view(*s[i])
            } else {
                arbitrary()
            },
    )
}

pub open spec fn alts_view(s: Seq<Alternative>) -> Seq<AlternativeView>
    decreases s,
{
    Seq::new(
        s.len(),
        |i: int|
            if 0 <= i < s.len() {
                alt_view(s[i])
            } else {
                arbitrary()
            },
    )
}

pub open spec fn alt_view(a: Alternative) -> AlternativeView
    decreases a,
{
    AlternativeView { pattern: a.pattern@, expr: expr_view(*a.expr) }
}

pub open spec fn binding_view(b: LetBinding) -> LetBindingView
    decreases b,
{
    LetBindingView { name: b.name@, expr: named_view(b.expr), span_start: b.span_start }
}

pub open spec fn named_view(n: Named) -> NamedView
    decreases n,
{
    match n {
        Named::Recursive(closures) => NamedView::Recursive(closures_view(closures@)),
        Named::Expr(e) => NamedView::Expr(Box::new(expr_view(*e))),
    }
}

pub open spec fn closures_view(s: Seq<Closure>) -> Seq<ClosureView>
    decreases s,
{
    Seq::new(
        s.len(),
        |i: int|
            if 0 <= i < s.len() {
                closure_view(s[i])
            } else {
                arbitrary()
            },
    )
}

pub open spec fn closure_view(c: Closure) -> ClosureView
    decreases c,
{
    ClosureView { pos: c.pos, name: c.name@, args: idents_view(c.args@), expr: expr_view(*c.expr) }
}

impl View for Expr {
    type V = ExprView;

    open spec fn view(&self) -> ExprView {
        expr_view(*self)
    }
}

impl View for Alternative {
    type V = AlternativeView;

    open spec fn view(&self) -> AlternativeView {
        alt_view(*self)
    }
}

impl View for LetBinding {
    type V = LetBindingView;

    open spec fn view(&self) -> LetBindingView {
        binding_view(*self)
    }
}

impl View for Named {
    type V = NamedView;

    open spec fn view(&self) -> NamedView {
        named_view(*self)
    }
}

impl View for Closure {
    type V = ClosureView;

    open spec fn view(&self) -> ClosureView {
        closure_view(*self)
    }
}

impl Literal {
    pub fn duplicate(&self) -> (r: Literal)
        ensures
            r@ == self@,
    {
        match self {
            Literal::Byte(b) => Literal::Byte(*b),
            Literal::Int(i) => Literal::Int(*i),
            Literal::Char(c) => Literal::Char(*c),
            Literal::String(s) => Literal::String(s.clone()),
        }
    }
}

/// A copy of a list of typed identifiers.
pub fn duplicate_idents(v: &Vec<TypedIdent>) -> (r: Vec<TypedIdent>)
    ensures
        idents_view(r@) == idents_view(v@),
{
    let mut out: Vec<TypedIdent> = Vec::new();
    let mut i: usize = 0;
    while i < v.len()
        invariant
            i <= v.len(),
            out@.len() == i,
            forall|j: int| 0 <= j < i ==> out@[j] == v@[j],
        decreases v.len() - i,
    {
        out.push(v[i].duplicate());
        i += 1;
    }
    assert(idents_view(out@) =~= idents_view(v@));
    out
}

impl Pattern {
    pub fn duplicate(&self) -> (r: Pattern)
        ensures
            r@ == self@,
    {
        match self {
            Pattern::Constructor(id, args) => Pattern::Constructor(
                id.duplicate(),
                duplicate_idents(args),
            ),
            Pattern::Record(fields) => {
                let mut out: Vec<(TypedIdent, Option<Symbol>)> = Vec::new();
                let mut i: usize = 0;
                while i < fields.len()
                    invariant
                        i <= fields.len(),
                        out@.len() == i,
                        forall|j: int| 0 <= j < i ==> out@[j] == fields@[j],
                    decreases fields.len() - i,
                {
                    let binding = match &fields[i].1 {
                        Some(s) => Some(s.duplicate()),
                        None => None,
                    };
                    out.push((fields[i].0.duplicate(), binding));
                    i += 1;
                }
                let r = Pattern::Record(out);
                assert(r@->Record_0 =~= self@->Record_0);
                r
            },
            Pattern::Ident(id) => Pattern::Ident(id.duplicate()),
            Pattern::Literal(l) => Pattern::Literal(l.duplicate()),
        }
    }
}

impl Expr {
    /// A node equal to this one that shares the nodes below it.
    pub fn duplicate(&self) -> (r: Expr)
        ensures
            r@ == self@,
    {
        match self {
            Expr::Const(l, span) => Expr::Const(l.duplicate(), *span),
            Expr::Ident(id, span) => Expr::Ident(id.duplicate(), *span),
            Expr::Data(id, args, pos) => Expr::Data(id.duplicate(), duplicate_exprs(args), *pos),
            Expr::Call(f, args) => Expr::Call(share(f), duplicate_exprs(args)),
            Expr::Let(bind, body) => Expr::Let(share(bind), share(body)),
            Expr::Match(scrutinee, alts) => Expr::Match(share(scrutinee), duplicate_alts(alts)),
            Expr::Cast(inner, typ) => Expr::Cast(share(inner), share(typ)),
        }
    }
}

/// A list of pointers to the expressions of `v`.
pub fn duplicate_exprs(v: &Vec<CExpr>) -> (r: Vec<CExpr>)
    ensures
        exprs_view(r@) == exprs_view(v@),
{
    let mut out: Vec<CExpr> = Vec::new();
    let mut i: usize = 0;
    while i < v.len()
        invariant
            i <= v.len(),
            out@.len() == i,
            forall|j: int| 0 <= j < i ==> out@[j]@ == v@[j]@,
        decreases v.len() - i,
    {
        out.push(share(&v[i]));
        i += 1;
    }
    assert(exprs_view(out@) =~= exprs_view(v@));
    out
}

impl Alternative {
    pub fn duplicate(&self) -> (r: Alternative)
        ensures
            r@ == self@,
    {
        Alternative { pattern: self.pattern.duplicate(), expr: share(&self.expr) }
    }
}

/// A copy of a list of alternatives that shares their expressions.
pub fn duplicate_alts(v: &Vec<Alternative>) -> (r: Vec<Alternative>)
    ensures
        alts_view(r@) == alts_view(v@),
{
    let mut out: Vec<Alternative> = Vec::new();
    let mut i: usize = 0;
    while i < v.len()
        invariant
            i <= v.len(),
            out@.len() == i,
            forall|j: int| 0 <= j < i ==> out@[j]@ == v@[j]@,
        decreases v.len() - i,
    {
        out.push(v[i].duplicate());
        i += 1;
    }
    assert(alts_view(out@) =~= alts_view(v@));
    out
}

impl Closure {
    pub fn duplicate(&self) -> (r: Closure)
        ensures
            r@ == self@,
    {
        Closure {
            pos: self.pos,
            name: self.name.duplicate(),
            args: duplicate_idents(&self.args),
            expr: share(&self.expr),
        }
    }
}

/// An expression that is handed out of the phase that built it: it is
/// complete, nothing can change it, and any number of readers can hold
/// it.
#[derive(Debug, PartialEq, Eq)]
pub struct CoreExpr {
    expr: CExpr,
}

impl View for CoreExpr {
    type V = ExprView;

    closed spec fn view(&self) -> ExprView {
        expr_view(*self.expr)
    }
}

impl CoreExpr {
    /// The expression.
    pub fn expr(&self) -> (r: &CExpr)
        ensures
            r@ == self@,
    {
        &self.expr
    }

    pub fn duplicate(&self) -> (r: CoreExpr)
        ensures
            r@ == self@,
    {
        CoreExpr { expr: share(&self.expr) }
    }
}

impl Clone for CoreExpr {
    fn clone(&self) -> (r: CoreExpr)
        ensures
            r@ == self@,
    {
        self.duplicate()
    }
}

/// Seals an expression for handing it out.
pub fn freeze_expr(expr: &CExpr) -> (r: CoreExpr)
    ensures
        r@ == expr@,
{
    CoreExpr { expr: share(expr) }
}

} // verus!
