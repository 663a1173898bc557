//! The traversal framework of the optimizer and its first pass, which
//! removes records that are taken apart as soon as they are built.
//!
//! A visitor rewrites single nodes; the traversal visits the nodes from
//! the root down until the visitor rewrites one, and rebuilds a parent
//! only where something below it changed. A parent for which nothing
//! changed is reported as `None`, so that its owner keeps the pointer it
//! has.

use vstd::prelude::*;
use std::sync::Arc;
use crate::base::pos::BytePos;
use crate::base::shared::share;
use crate::base::symbol::Symbol;
use crate::base::types::{row_fields, ArcType, FieldView, TypedIdent, TypedIdentView};
use crate::ir::expr::{
    alts_view, closures_view, duplicate_idents, exprs_view, idents_view, record_field_view,
    Alternative, AlternativeView, CExpr, Closure, ClosureView, Expr, ExprView, LetBinding,
    LetBindingView, Named, NamedView, Pattern, PatternView,
};

verus! {

/// What a visitor does to single nodes, as functions on views: the
/// rewrite of an expression and the new name of a bound symbol, each
/// `None` where the visitor leaves the node as it is.
pub ghost struct Rewrites {
    pub expr: spec_fn(ExprView) -> Option<ExprView>,
    pub binding: spec_fn(Seq<char>) -> Option<Seq<char>>,
}

/// The value that a merge keeps for one part: the new one where there is
/// one, else the original.
pub open spec fn or_original<A>(original: A, new: Option<A>) -> A {
    match new {
        Some(x) => x,
        None => original,
    }
}

/// The merge of the results for the items of a list: `None` where no
/// item changed, else the list with each changed item replaced.
pub open spec fn merged<A>(original: Seq<A>, new: Seq<Option<A>>) -> Option<Seq<A>> {
    if forall|i: int| 0 <= i < original.len() ==> new[i] is None {
        None
    } else {
        Some(Seq::new(original.len(), |i: int| or_original(original[i], new[i])))
    }
}

/// What the traversal makes of an expression: the visitor's rewrite of
/// the node where it has one, else the merge of what it makes of the
/// nodes below.
pub open spec fn visit_spec(rw: Rewrites, e: ExprView) -> Option<ExprView>
    decreases e, 1int,
{
    match (rw.expr)(e) {
        Some(r) => Some(r),
        None => walk_expr_spec(rw, e),
    }
}

pub open spec fn visit_all_spec(rw: Rewrites, s: Seq<ExprView>) -> Seq<Option<ExprView>>
    decreases s, 0int,
{
    Seq::new(
        s.len(),
        |i: int|
            if 0 <= i < s.len() {
                visit_spec(rw, s[i])
            } else {
                None
            },
    )
}

/// What the traversal makes of the alternative of a match: its
/// expression is visited, its pattern is kept.
pub open spec fn visit_alt_spec(rw: Rewrites, a: AlternativeView) -> Option<AlternativeView>
    decreases a, 0int,
{
    match visit_spec(rw, a.expr) {
        Some(e) => Some(AlternativeView { pattern: a.pattern, expr: e }),
        None => None,
    }
}

pub open spec fn visit_alts_spec(rw: Rewrites, s: Seq<AlternativeView>) -> Seq<
    Option<AlternativeView>,
>
    decreases s, 0int,
{
    Seq::new(
        s.len(),
        |i: int|
            if 0 <= i < s.len() {
                visit_alt_spec(rw, s[i])
            } else {
                None
            },
    )
}

/// The merge of what the traversal makes of the nodes below `e`.
pub open spec fn walk_expr_spec(rw: Rewrites, e: ExprView) -> Option<ExprView>
    decreases e, 0int,
{
    match e {
        ExprView::Const(_, _) => None,
        ExprView::Ident(_, _) => None,
        ExprView::Data(id, args, pos) => match merged(args, visit_all_spec(rw, args)) {
            Some(new_args) => Some(ExprView::Data(id, new_args, pos)),
            None => None,
        },
        ExprView::Call(f, args) => {
            let new_f = visit_spec(rw, *f);
            let new_args = merged(args, visit_all_spec(rw, args));
            if new_f is None && new_args is None {
                None
            } else {
                Some(
                    ExprView::Call(
                        Box::new(or_original(*f, new_f)),
                        or_original(args, new_args),
                    ),
                )
            }
        },
        ExprView::Let(bind, body) => {
            let new_bind = walk_bind_spec(rw, *bind);
            let new_body = visit_spec(rw, *body);
            if new_bind is None && new_body is None {
                None
            } else {
                Some(
                    ExprView::Let(
                        Box::new(or_original(*bind, new_bind)),
                        Box::new(or_original(*body, new_body)),
                    ),
                )
            }
        },
        ExprView::Match(scrutinee, alts) => {
            let new_scrutinee = visit_spec(rw, *scrutinee);
            let new_alts = merged(alts, visit_alts_spec(rw, alts));
            if new_scrutinee is None && new_alts is None {
                None
            } else {
                Some(
                    ExprView::Match(
                        Box::new(or_original(*scrutinee, new_scrutinee)),
                        or_original(alts, new_alts),
                    ),
                )
            }
        },
        ExprView::Cast(inner, typ) => match visit_spec(rw, *inner) {
            Some(new_inner) => Some(ExprView::Cast(Box::new(new_inner), typ)),
            None => None,
        },
    }
}

/// The new name of a let binding: that of a recursive group is kept.
pub open spec fn bind_name_spec(rw: Rewrites, b: LetBindingView) -> Option<TypedIdentView> {
    match b.expr {
        NamedView::Recursive(_) => None,
        NamedView::Expr(_) => match (rw.binding)(b.name.name) {
            Some(name) => Some(TypedIdentView { name, typ: b.name.typ }),
            None => None,
        },
    }
}

pub open spec fn walk_bind_spec(rw: Rewrites, b: LetBindingView) -> Option<LetBindingView>
    decreases b, 1int,
{
    let new_named = walk_named_spec(rw, b.expr);
    let new_name = bind_name_spec(rw, b);
    if new_name is None && new_named is None {
        None
    } else {
        Some(
            LetBindingView {
                name: or_original(b.name, new_name),
                expr: or_original(b.expr, new_named),
                span_start: b.span_start,
            },
        )
    }
}

pub open spec fn walk_named_spec(rw: Rewrites, n: NamedView) -> Option<NamedView>
    decreases n, 0int,
{
    match n {
        NamedView::Recursive(closures) => match walk_closures_spec(rw, closures) {
            Some(new_closures) => Some(NamedView::Recursive(new_closures)),
            None => None,
        },
        NamedView::Expr(e) => match visit_spec(rw, *e) {
            Some(new_e) => Some(NamedView::Expr(Box::new(new_e))),
            None => None,
        },
    }
}

pub open spec fn visit_closure_spec(rw: Rewrites, c: ClosureView) -> Option<ClosureView>
    decreases c, 0int,
{
    match visit_spec(rw, c.expr) {
        Some(e) => Some(ClosureView { pos: c.pos, name: c.name, args: c.args, expr: e }),
        None => None,
    }
}

pub open spec fn visit_closures_spec(rw: Rewrites, s: Seq<ClosureView>) -> Seq<
    Option<ClosureView>,
>
    decreases s, 0int,
{
    Seq::new(
        s.len(),
        |i: int|
            if 0 <= i < s.len() {
                visit_closure_spec(rw, s[i])
            } else {
                None
            },
    )
}

pub open spec fn walk_closures_spec(rw: Rewrites, s: Seq<ClosureView>) -> Option<
    Seq<ClosureView>,
>
    decreases s, 1int,
{
    merged(s, visit_closures_spec(rw, s))
}

/// The new form of a typed identifier that a pattern binds.
pub open spec fn rename_ident_spec(rw: Rewrites, id: TypedIdentView) -> Option<TypedIdentView> {
    match (rw.binding)(id.name) {
        Some(name) => Some(TypedIdentView { name, typ: id.typ }),
        None => None,
    }
}

/// The new form of a field of a record pattern: the visitor is asked for
/// the symbol that the field binds, which is the field's own name where
/// the pattern gives no other.
pub open spec fn rename_field_spec(rw: Rewrites, f: (TypedIdentView, Option<Seq<char>>)) -> Option<
    (TypedIdentView, Option<Seq<char>>),
> {
    match (rw.binding)(or_original(f.0.name, f.1)) {
        Some(name) => Some((f.0, Some(name))),
        None => None,
    }
}

pub open spec fn walk_pattern_spec(rw: Rewrites, p: PatternView) -> Option<PatternView> {
    match p {
        PatternView::Ident(id) => match rename_ident_spec(rw, id) {
            Some(new_id) => Some(PatternView::Ident(new_id)),
            None => None,
        },
        PatternView::Literal(_) => None,
        PatternView::Constructor(id, fields) => match merged(
            fields,
            Seq::new(fields.len(), |i: int| rename_ident_spec(rw, fields[i])),
        ) {
            Some(new_fields) => Some(PatternView::Constructor(id, new_fields)),
            None => None,
        },
        PatternView::Record(fields) => match merged(
            fields,
            Seq::new(fields.len(), |i: int| rename_field_spec(rw, fields[i])),
        ) {
            Some(new_fields) => Some(PatternView::Record(new_fields)),
            None => None,
        },
    }
}

/// The view of an optional node.
pub open spec fn opt_view<T: View>(o: Option<T>) -> Option<T::V> {
    match o {
        Some(x) => Some(x@),
        None => None,
    }
}

/// What the optimizer can ask about the modules that are compiled
/// already.
pub trait OptimizeEnv {
    /// The value of the module whose resolved symbol has the name `id`,
    /// as the optimizer left it, where that is known.
    spec fn find_expr_spec(&self, id: Seq<char>) -> Option<crate::ir::interpreter::GlobalView>;

    fn find_expr(&self, id: &Symbol) -> (r: Option<
        crate::ir::interpreter::Global<crate::ir::expr::CoreExpr>,
    >)
        ensures
            opt_view(r) == self.find_expr_spec(id@),
    ;
}

/// Lifts a subtree that did not change into the tree that is being built.
pub trait ExprProducer: Sized {
    fn new() -> Self;

    fn produce(&mut self, expr: &CExpr) -> (r: CExpr)
        ensures
            r@ == expr@,
    ;

    fn produce_slice(&mut self, exprs: &Vec<CExpr>) -> (r: Vec<CExpr>)
        ensures
            exprs_view(r@) == exprs_view(exprs@),
    ;

    fn produce_alt(&mut self, alt: &Alternative) -> (r: Alternative)
        ensures
            r@ == alt@,
    ;
}

/// A rewrite of single nodes of an expression.
pub trait Visitor {
    type Producer: ExprProducer;

    /// What the visitor does, whatever its state.
    spec fn rewrites(&self) -> Rewrites;

    /// The rewrite of one node, or `None` where the visitor has none for
    /// it; the traversal then goes on below the node.
    fn visit_expr(&mut self, expr: &CExpr) -> (r: Option<CExpr>)
        ensures
            opt_view(r) == (old(self).rewrites().expr)(expr@),
            final(self).rewrites() == old(self).rewrites(),
    ;

    /// The new name of a symbol that a let binding or a pattern binds.
    fn visit_binding(&mut self, symbol: &Symbol) -> (r: Option<Symbol>)
        ensures
            opt_view(r) == (old(self).rewrites().binding)(symbol@),
            final(self).rewrites() == old(self).rewrites(),
    ;
}

/// The visitor's rewrite of a node or, where it has none, the merge of
/// the traversal below the node.
pub fn visit<V: Visitor>(visitor: &mut V, expr: &CExpr) -> (r: Option<CExpr>)
    ensures
        opt_view(r) == visit_spec(old(visitor).rewrites(), expr@),
        final(visitor).rewrites() == old(visitor).rewrites(),
    decreases **expr, 2int,
{
    match visitor.visit_expr(expr) {
        Some(r) => Some(r),
        None => walk_expr_alloc(visitor, expr),
    }
}

/// The merge of the traversal below a node, as a node of its own.
pub fn walk_expr_alloc<V: Visitor>(visitor: &mut V, expr: &CExpr) -> (r: Option<CExpr>)
    ensures
        opt_view(r) == walk_expr_spec(old(visitor).rewrites(), expr@),
        final(visitor).rewrites() == old(visitor).rewrites(),
    decreases **expr, 1int,
{
    match walk_expr(visitor, &**expr) {
        Some(e) => Some(Arc::new(e)),
        None => None,
    }
}

/// Visits a list of expressions and merges the results.
fn visit_exprs<V: Visitor>(visitor: &mut V, exprs: &Vec<CExpr>) -> (r: Option<Vec<CExpr>>)
    ensures
        match r {
            Some(v) => Some(exprs_view(v@)),
            None => None,
        } == merged(
            exprs_view(exprs@),
            visit_all_spec(old(visitor).rewrites(), exprs_view(exprs@)),
        ),
        final(visitor).rewrites() == old(visitor).rewrites(),
    decreases exprs, 0int,
{
    let ghost rw = visitor.rewrites();
    let ghost original = exprs_view(exprs@);
    let ghost results = visit_all_spec(rw, original);
    let mut out: Vec<CExpr> = Vec::new();
    let mut changed = false;
    let mut i: usize = 0;
    while i < exprs.len()
        invariant
            i <= exprs.len(),
            out@.len() == i,
            visitor.rewrites() == rw,
            original == exprs_view(exprs@),
            results == visit_all_spec(rw, original),
            changed ==> exists|j: int| 0 <= j < i && results[j] is Some,
            !changed ==> forall|j: int| 0 <= j < i ==> results[j] is None,
            forall|j: int|
                0 <= j < i ==> (#[trigger] out@[j])@ == or_original(original[j], results[j]),
        decreases exprs.len() - i,
    {
        assert(results[i as int] == visit_spec(rw, exprs@[i as int]@));
        match visit(visitor, &exprs[i]) {
            Some(e) => {
                changed = true;
                out.push(e);
            },
            None => {
                let mut producer = V::Producer::new();
                out.push(producer.produce(&exprs[i]));
            },
        }
        i += 1;
    }
    if changed {
        proof {
            let new = Seq::new(original.len(), |j: int| or_original(original[j], results[j]));
            assert(exprs_view(out@) =~= new);
        }
        Some(out)
    } else {
        None
    }
}

/// What the traversal makes of the alternative of a match.
pub fn visit_alt<V: Visitor>(visitor: &mut V, alt: &Alternative) -> (r: Option<Alternative>)
    ensures
        opt_view(r) == visit_alt_spec(old(visitor).rewrites(), alt@),
        final(visitor).rewrites() == old(visitor).rewrites(),
    decreases alt, 0int,
{
    match visit(visitor, &alt.expr) {
        Some(expr) => Some(Alternative { pattern: alt.pattern.duplicate(), expr }),
        None => None,
    }
}

/// Visits the alternatives of a match and merges the results.
fn visit_alts<V: Visitor>(visitor: &mut V, alts: &Vec<Alternative>) -> (r: Option<
    Vec<Alternative>,
>)
    ensures
        match r {
            Some(v) => Some(alts_view(v@)),
            None => None,
        } == merged(alts_view(alts@), visit_alts_spec(old(visitor).rewrites(), alts_view(alts@))),
        final(visitor).rewrites() == old(visitor).rewrites(),
    decreases alts, 1int,
{
    let ghost rw = visitor.rewrites();
    let ghost original = alts_view(alts@);
    let ghost results = visit_alts_spec(rw, original);
    let mut out: Vec<Alternative> = Vec::new();
    let mut changed = false;
    let mut i: usize = 0;
    while i < alts.len()
        invariant
            i <= alts.len(),
            out@.len() == i,
            visitor.rewrites() == rw,
            original == alts_view(alts@),
            results == visit_alts_spec(rw, original),
            changed ==> exists|j: int| 0 <= j < i && results[j] is Some,
            !changed ==> forall|j: int| 0 <= j < i ==> results[j] is None,
            forall|j: int|
                0 <= j < i ==> (#[trigger] out@[j])@ == or_original(original[j], results[j]),
        decreases alts.len() - i,
    {
        assert(results[i as int] == visit_alt_spec(rw, alts@[i as int]@));
        match visit_alt(visitor, &alts[i]) {
            Some(a) => {
                changed = true;
                out.push(a);
            },
            None => {
                let mut producer = V::Producer::new();
                out.push(producer.produce_alt(&alts[i]));
            },
        }
        i += 1;
    }
    if changed {
        proof {
            let new = Seq::new(original.len(), |j: int| or_original(original[j], results[j]));
            assert(alts_view(out@) =~= new);
        }
        Some(out)
    } else {
        None
    }
}

/// A closure equal to `closure` whose body the producer has lifted.
fn produce_closure<P: ExprProducer>(producer: &mut P, closure: &Closure) -> (r: Closure)
    ensures
        r@ == closure@,
{
    Closure {
        pos: closure.pos,
        name: closure.name.duplicate(),
        args: duplicate_idents(&closure.args),
        expr: producer.produce(&closure.expr),
    }
}

/// What a let binding binds, equal to `named`, lifted by the producer.
fn produce_named<P: ExprProducer>(producer: &mut P, named: &Named) -> (r: Named)
    ensures
        r@ == named@,
{
    match named {
        Named::Recursive(closures) => {
            let mut out: Vec<Closure> = Vec::new();
            let mut i: usize = 0;
            while i < closures.len()
                invariant
                    i <= closures.len(),
                    out@.len() == i,
                    forall|j: int| 0 <= j < i ==> (#[trigger] out@[j])@ == closures@[j]@,
                decreases closures.len() - i,
            {
                out.push(produce_closure(producer, &closures[i]));
                i += 1;
            }
            assert(closures_view(out@) =~= closures_view(closures@));
            Named::Recursive(out)
        },
        Named::Expr(e) => Named::Expr(producer.produce(e)),
    }
}

/// Visits the closures of a recursive group and merges the results.
pub fn walk_closures<V: Visitor>(visitor: &mut V, closures: &Vec<Closure>) -> (r: Option<
    Vec<Closure>,
>)
    ensures
        match r {
            Some(v) => Some(closures_view(v@)),
            None => None,
        } == walk_closures_spec(old(visitor).rewrites(), closures_view(closures@)),
        final(visitor).rewrites() == old(visitor).rewrites(),
    decreases closures, 1int,
{
    let ghost rw = visitor.rewrites();
    let ghost original = closures_view(closures@);
    let ghost results = visit_closures_spec(rw, original);
    let mut out: Vec<Closure> = Vec::new();
    let mut changed = false;
    let mut i: usize = 0;
    while i < closures.len()
        invariant
            i <= closures.len(),
            out@.len() == i,
            visitor.rewrites() == rw,
            original == closures_view(closures@),
            results == visit_closures_spec(rw, original),
            changed ==> exists|j: int| 0 <= j < i && results[j] is Some,
            !changed ==> forall|j: int| 0 <= j < i ==> results[j] is None,
            forall|j: int|
                0 <= j < i ==> (#[trigger] out@[j])@ == or_original(original[j], results[j]),
        decreases closures.len() - i,
    {
        let closure = &closures[i];
        assert(results[i as int] == visit_closure_spec(rw, closure@));
        match visit(visitor, &closure.expr) {
            Some(expr) => {
                changed = true;
                out.push(
                    Closure {
                        pos: closure.pos,
                        name: closure.name.duplicate(),
                        args: duplicate_idents(&closure.args),
                        expr,
                    },
                );
            },
            None => {
                let mut producer = V::Producer::new();
                out.push(produce_closure(&mut producer, closure));
            },
        }
        i += 1;
    }
    if changed {
        proof {
            let new = Seq::new(original.len(), |j: int| or_original(original[j], results[j]));
            assert(closures_view(out@) =~= new);
        }
        Some(out)
    } else {
        None
    }
}

/// The merge of the traversal of what a let binding binds.
pub fn walk_named<V: Visitor>(visitor: &mut V, bind: &Named) -> (r: Option<Named>)
    ensures
        opt_view(r) == walk_named_spec(old(visitor).rewrites(), bind@),
        final(visitor).rewrites() == old(visitor).rewrites(),
    decreases bind, 2int,
{
    match bind {
        Named::Recursive(closures) => match walk_closures(visitor, closures) {
            Some(new_closures) => Some(Named::Recursive(new_closures)),
            None => None,
        },
        Named::Expr(bind_expr) => match visit(visitor, bind_expr) {
            Some(new_expr) => Some(Named::Expr(new_expr)),
            None => None,
        },
    }
}

/// The merge of the traversal of a let binding: of what it binds and,
/// unless it is a recursive group, of its name.
pub fn walk_bind<V: Visitor>(visitor: &mut V, bind: &LetBinding) -> (r: Option<Arc<LetBinding>>)
    ensures
        opt_view(r) == walk_bind_spec(old(visitor).rewrites(), bind@),
        final(visitor).rewrites() == old(visitor).rewrites(),
    decreases bind, 3int,
{
    let new_named = walk_named(visitor, &bind.expr);
    let new_name = match &bind.expr {
        Named::Recursive(_) => None,
        Named::Expr(_) => match visitor.visit_binding(&bind.name.name) {
            Some(name) => Some(TypedIdent { name, typ: share(&bind.name.typ) }),
            None => None,
        },
    };
    if new_name.is_none() && new_named.is_none() {
        None
    } else {
        let name = match new_name {
            Some(name) => name,
            None => bind.name.duplicate(),
        };
        let expr = match new_named {
            Some(expr) => expr,
            None => {
                let mut producer = V::Producer::new();
                produce_named(&mut producer, &bind.expr)
            },
        };
        Some(Arc::new(LetBinding { name, expr, span_start: bind.span_start }))
    }
}

/// A let binding equal to `bind`, lifted by the producer.
fn produce_bind<P: ExprProducer>(producer: &mut P, bind: &LetBinding) -> (r: Arc<LetBinding>)
    ensures
        r@ == bind@,
{
    Arc::new(
        LetBinding {
            name: bind.name.duplicate(),
            expr: produce_named(producer, &bind.expr),
            span_start: bind.span_start,
        },
    )
}

/// The merge of the traversal below a node.
pub fn walk_expr<V: Visitor>(visitor: &mut V, expr: &Expr) -> (r: Option<Expr>)
    ensures
        opt_view(r) == walk_expr_spec(old(visitor).rewrites(), expr@),
        final(visitor).rewrites() == old(visitor).rewrites(),
    decreases expr, 0int,
{
    match expr {
        Expr::Const(_, _) => None,
        Expr::Ident(_, _) => None,
        Expr::Data(id, args, pos) => match visit_exprs(visitor, args) {
            Some(new_args) => Some(Expr::Data(id.duplicate(), new_args, *pos)),
            None => None,
        },
        Expr::Call(f, args) => {
            let new_f = visit(visitor, f);
            let new_args = visit_exprs(visitor, args);
            if new_f.is_none() && new_args.is_none() {
                None
            } else {
                let mut producer = V::Producer::new();
                let f = match new_f {
                    Some(f) => f,
                    None => producer.produce(f),
                };
                let args = match new_args {
                    Some(args) => args,
                    None => producer.produce_slice(args),
                };
                Some(Expr::Call(f, args))
            }
        },
        Expr::Let(bind, body) => {
            let new_bind = walk_bind(visitor, &**bind);
            let new_body = visit(visitor, body);
            if new_bind.is_none() && new_body.is_none() {
                None
            } else {
                let mut producer = V::Producer::new();
                let bind = match new_bind {
                    Some(bind) => bind,
                    None => produce_bind(&mut producer, &**bind),
                };
                let body = match new_body {
                    Some(body) => body,
                    None => producer.produce(body),
                };
                Some(Expr::Let(bind, body))
            }
        },
        Expr::Match(scrutinee, alts) => {
            let new_scrutinee = visit(visitor, scrutinee);
            let new_alts = visit_alts(visitor, alts);
            if new_scrutinee.is_none() && new_alts.is_none() {
                None
            } else {
                let mut producer = V::Producer::new();
                let scrutinee = match new_scrutinee {
                    Some(scrutinee) => scrutinee,
                    None => producer.produce(scrutinee),
                };
                let alts = match new_alts {
                    Some(alts) => alts,
                    None => produce_alts(&mut producer, alts),
                };
                Some(Expr::Match(scrutinee, alts))
            }
        },
        Expr::Cast(inner, typ) => match visit(visitor, inner) {
            Some(new_inner) => Some(Expr::Cast(new_inner, share(typ))),
            None => None,
        },
    }
}

/// The alternatives of a match, each lifted by the producer.
fn produce_alts<P: ExprProducer>(producer: &mut P, alts: &Vec<Alternative>) -> (r: Vec<
    Alternative,
>)
    ensures
        alts_view(r@) == alts_view(alts@),
{
    let mut out: Vec<Alternative> = Vec::new();
    let mut i: usize = 0;
    while i < alts.len()
        invariant
            i <= alts.len(),
            out@.len() == i,
            forall|j: int| 0 <= j < i ==> (#[trigger] out@[j])@ == alts@[j]@,
        decreases alts.len() - i,
    {
        out.push(producer.produce_alt(&alts[i]));
        i += 1;
    }
    assert(alts_view(out@) =~= alts_view(alts@));
    out
}

/// The merge of the traversal of a pattern: the visitor is asked for a
/// new name for each symbol that the pattern binds.
pub fn walk_pattern<V: Visitor>(visitor: &mut V, pattern: &Pattern) -> (r: Option<Pattern>)
    ensures
        opt_view(r) == walk_pattern_spec(old(visitor).rewrites(), pattern@),
        final(visitor).rewrites() == old(visitor).rewrites(),
{
    let ghost rw = visitor.rewrites();
    match pattern {
        Pattern::Ident(id) => match visitor.visit_binding(&id.name) {
            Some(name) => Some(Pattern::Ident(TypedIdent { name, typ: share(&id.typ) })),
            None => None,
        },
        Pattern::Literal(_) => None,
        Pattern::Constructor(id, fields) => {
            let ghost original = idents_view(fields@);
            let ghost results = Seq::new(
                original.len(),
                |i: int| rename_ident_spec(rw, original[i]),
            );
            let mut out: Vec<TypedIdent> = Vec::new();
            let mut changed = false;
            let mut i: usize = 0;
            while i < fields.len()
                invariant
                    i <= fields.len(),
                    out@.len() == i,
                    visitor.rewrites() == rw,
                    original == idents_view(fields@),
                    results == Seq::new(
                        original.len(),
                        |i: int| rename_ident_spec(rw, original[i]),
                    ),
                    changed ==> exists|j: int| 0 <= j < i && results[j] is Some,
                    !changed ==> forall|j: int| 0 <= j < i ==> results[j] is None,
                    forall|j: int|
                        0 <= j < i ==> (#[trigger] out@[j])@ == or_original(
                            original[j],
                            results[j],
                        ),
                decreases fields.len() - i,
            {
                let field = &fields[i];
                assert(results[i as int] == rename_ident_spec(rw, field@));
                match visitor.visit_binding(&field.name) {
                    Some(name) => {
                        changed = true;
                        out.push(TypedIdent { name, typ: share(&field.typ) });
                    },
                    None => {
                        out.push(field.duplicate());
                    },
                }
                i += 1;
            }
            if changed {
                proof {
                    let new = Seq::new(
                        original.len(),
                        |j: int| or_original(original[j], results[j]),
                    );
                    assert(idents_view(out@) =~= new);
                }
                Some(Pattern::Constructor(id.duplicate(), out))
            } else {
                None
            }
        },
        Pattern::Record(fields) => {
            let ghost original = pattern@->Record_0;
            let ghost results = Seq::new(
                original.len(),
                |i: int| rename_field_spec(rw, original[i]),
            );
            let mut out: Vec<(TypedIdent, Option<Symbol>)> = Vec::new();
            let mut changed = false;
            let mut i: usize = 0;
            while i < fields.len()
                invariant
                    i <= fields.len(),
                    out@.len() == i,
                    visitor.rewrites() == rw,
                    original.len() == fields@.len(),
                    forall|j: int|
                        0 <= j < fields@.len() ==> #[trigger] original[j] == record_field_view(
                            fields@[j],
                        ),
                    results == Seq::new(
                        original.len(),
                        |i: int| rename_field_spec(rw, original[i]),
                    ),
                    changed ==> exists|j: int| 0 <= j < i && results[j] is Some,
                    !changed ==> forall|j: int| 0 <= j < i ==> results[j] is None,
                    forall|j: int|
                        0 <= j < i ==> record_field_view(#[trigger] out@[j]) == or_original(
                            original[j],
                            results[j],
                        ),
                decreases fields.len() - i,
            {
                let field = &fields[i];
                assert(results[i as int] == rename_field_spec(rw, record_field_view(*field)));
                let bound = match &field.1 {
                    Some(s) => s,
                    None => &field.0.name,
                };
                match visitor.visit_binding(bound) {
                    Some(name) => {
                        changed = true;
                        out.push((field.0.duplicate(), Some(name)));
                    },
                    None => {
                        let binding = match &field.1 {
                            Some(s) => Some(s.duplicate()),
                            None => None,
                        };
                        out.push((field.0.duplicate(), binding));
                    },
                }
                i += 1;
            }
            if changed {
                let r = Pattern::Record(out);
                proof {
                    let new = Seq::new(
                        original.len(),
                        |j: int| or_original(original[j], results[j]),
                    );
                    assert(r@->Record_0 =~= new);
                }
                Some(r)
            } else {
                None
            }
        },
    }
}

/// The merge of the two parts of a match: `None` where neither changed,
/// else the match of the new parts, with the original in place of a part
/// that did not change.
pub fn merge_match(
    expr: &CExpr,
    new_expr: Option<CExpr>,
    alts: &Vec<Alternative>,
    new_alts: Option<Vec<Alternative>>,
) -> (r: Option<CExpr>)
    ensures
        match r {
            Some(m) => (new_expr is Some || new_alts is Some) && m@ == ExprView::Match(
                Box::new(or_original(expr@, opt_view(new_expr))),
                match new_alts {
                    Some(a) => alts_view(a@),
                    None => alts_view(alts@),
                },
            ),
            None => new_expr is None && new_alts is None,
        },
{
    if new_expr.is_none() && new_alts.is_none() {
        None
    } else {
        let mut producer = SameLifetime::new();
        let scrutinee = match new_expr {
            Some(e) => e,
            None => producer.produce(expr),
        };
        let alternatives = match new_alts {
            Some(a) => a,
            None => produce_alts(&mut producer, alts),
        };
        Some(Arc::new(Expr::Match(scrutinee, alternatives)))
    }
}

/// The producer for a rewrite that stays in the tree it reads: a subtree
/// that did not change is lifted by handing out its pointer.
pub struct SameLifetime;

impl ExprProducer for SameLifetime {
    fn new() -> Self {
        SameLifetime
    }

    fn produce(&mut self, expr: &CExpr) -> (r: CExpr)
        ensures
            r == *expr,
    {
        share(expr)
    }

    fn produce_slice(&mut self, exprs: &Vec<CExpr>) -> (r: Vec<CExpr>) {
        crate::ir::expr::duplicate_exprs(exprs)
    }

    fn produce_alt(&mut self, alt: &Alternative) -> (r: Alternative) {
        alt.duplicate()
    }
}

/// The rewrites of a producer that is used as a visitor: every
/// expression is rewritten to itself, so that the traversal stops at it
/// and the node above it is built anew.
pub open spec fn producer_rewrites() -> Rewrites {
    Rewrites { expr: |e: ExprView| Some(e), binding: |s: Seq<char>| None }
}

impl Visitor for SameLifetime {
    type Producer = SameLifetime;

    open spec fn rewrites(&self) -> Rewrites {
        producer_rewrites()
    }

    fn visit_expr(&mut self, expr: &CExpr) -> (r: Option<CExpr>) {
        Some(self.produce(expr))
    }

    fn visit_binding(&mut self, symbol: &Symbol) -> (r: Option<Symbol>) {
        None
    }
}

/// A structural copy of an expression that shares no node with it.
pub fn copy_expr(expr: &CExpr) -> (r: CExpr)
    ensures
        r@ == expr@,
    decreases **expr, 0int,
{
    let e = match &**expr {
        Expr::Const(l, span) => Expr::Const(l.duplicate(), *span),
        Expr::Ident(id, span) => Expr::Ident(id.duplicate(), *span),
        Expr::Data(id, args, pos) => Expr::Data(id.duplicate(), copy_exprs(args), *pos),
        Expr::Call(f, args) => Expr::Call(copy_expr(f), copy_exprs(args)),
        Expr::Let(bind, body) => Expr::Let(copy_bind(&**bind), copy_expr(body)),
        Expr::Match(scrutinee, alts) => Expr::Match(copy_expr(scrutinee), copy_alts(alts)),
        Expr::Cast(inner, typ) => Expr::Cast(copy_expr(inner), share(typ)),
    };
    Arc::new(e)
}

/// A structural copy of each expression of a list.
pub fn copy_exprs(exprs: &Vec<CExpr>) -> (r: Vec<CExpr>)
    ensures
        exprs_view(r@) == exprs_view(exprs@),
    decreases exprs, 0int,
{
    let mut out: Vec<CExpr> = Vec::new();
    let mut i: usize = 0;
    while i < exprs.len()
        invariant
            i <= exprs.len(),
            out@.len() == i,
            forall|j: int| 0 <= j < i ==> (#[trigger] out@[j])@ == exprs@[j]@,
        decreases exprs.len() - i,
    {
        out.push(copy_expr(&exprs[i]));
        i += 1;
    }
    assert(exprs_view(out@) =~= exprs_view(exprs@));
    out
}

/// A structural copy of an alternative of a match.
pub fn copy_alt(alt: &Alternative) -> (r: Alternative)
    ensures
        r@ == alt@,
    decreases alt, 0int,
{
    Alternative { pattern: alt.pattern.duplicate(), expr: copy_expr(&alt.expr) }
}

fn copy_alts(alts: &Vec<Alternative>) -> (r: Vec<Alternative>)
    ensures
        alts_view(r@) == alts_view(alts@),
    decreases alts, 1int,
{
    let mut out: Vec<Alternative> = Vec::new();
    let mut i: usize = 0;
    while i < alts.len()
        invariant
            i <= alts.len(),
            out@.len() == i,
            forall|j: int| 0 <= j < i ==> (#[trigger] out@[j])@ == alts@[j]@,
        decreases alts.len() - i,
    {
        out.push(copy_alt(&alts[i]));
        i += 1;
    }
    assert(alts_view(out@) =~= alts_view(alts@));
    out
}

fn copy_closures(closures: &Vec<Closure>) -> (r: Vec<Closure>)
    ensures
        closures_view(r@) == closures_view(closures@),
    decreases closures, 0int,
{
    let mut out: Vec<Closure> = Vec::new();
    let mut i: usize = 0;
    while i < closures.len()
        invariant
            i <= closures.len(),
            out@.len() == i,
            forall|j: int| 0 <= j < i ==> (#[trigger] out@[j])@ == closures@[j]@,
        decreases closures.len() - i,
    {
        let closure = &closures[i];
        out.push(
            Closure {
                pos: closure.pos,
                name: closure.name.duplicate(),
                args: duplicate_idents(&closure.args),
                expr: copy_expr(&closure.expr),
            },
        );
        i += 1;
    }
    assert(closures_view(out@) =~= closures_view(closures@));
    out
}

fn copy_bind(bind: &LetBinding) -> (r: Arc<LetBinding>)
    ensures
        r@ == bind@,
    decreases bind, 0int,
{
    let expr = match &bind.expr {
        Named::Recursive(closures) => Named::Recursive(copy_closures(closures)),
        Named::Expr(e) => Named::Expr(copy_expr(e)),
    };
    Arc::new(LetBinding { name: bind.name.duplicate(), expr, span_start: bind.span_start })
}

/// The producer for a rewrite whose result must not share nodes with the
/// tree it reads: a subtree that did not change is copied node by node.
pub struct DifferentLifetime;

impl ExprProducer for DifferentLifetime {
    fn new() -> Self {
        DifferentLifetime
    }

    fn produce(&mut self, expr: &CExpr) -> (r: CExpr) {
        copy_expr(expr)
    }

    fn produce_slice(&mut self, exprs: &Vec<CExpr>) -> (r: Vec<CExpr>) {
        copy_exprs(exprs)
    }

    fn produce_alt(&mut self, alt: &Alternative) -> (r: Alternative) {
        copy_alt(alt)
    }
}

impl Visitor for DifferentLifetime {
    type Producer = DifferentLifetime;

    open spec fn rewrites(&self) -> Rewrites {
        producer_rewrites()
    }

    fn visit_expr(&mut self, expr: &CExpr) -> (r: Option<CExpr>) {
        Some(self.produce(expr))
    }

    fn visit_binding(&mut self, symbol: &Symbol) -> (r: Option<Symbol>) {
        None
    }
}

/// A kind of node that a producer can lift from an input of the kind
/// `Input`.
pub trait Produce<P, Input>: Sized {
    /// Whether `output` is the node `input`, lifted.
    spec fn lifted(input: &Input, output: &Self) -> bool;

    fn produce_with(input: &Input, producer: &mut P) -> (r: Self)
        ensures
            Self::lifted(input, &r),
    ;
}

impl<P: ExprProducer> Produce<P, CExpr> for CExpr {
    open spec fn lifted(input: &CExpr, output: &CExpr) -> bool {
        output@ == input@
    }

    fn produce_with(input: &CExpr, producer: &mut P) -> (r: CExpr) {
        producer.produce(input)
    }
}

impl<P: ExprProducer> Produce<P, CExpr> for Expr {
    open spec fn lifted(input: &CExpr, output: &Expr) -> bool {
        output@ == input@
    }

    fn produce_with(input: &CExpr, producer: &mut P) -> (r: Expr) {
        let lifted = producer.produce(input);
        (*lifted).duplicate()
    }
}

impl<P: ExprProducer> Produce<P, Alternative> for Alternative {
    open spec fn lifted(input: &Alternative, output: &Alternative) -> bool {
        output@ == input@
    }

    fn produce_with(input: &Alternative, producer: &mut P) -> (r: Alternative) {
        producer.produce_alt(input)
    }
}

/// Applies `action` to each item of `slice` and merges the results:
/// `None` where the action returned `None` for every item, else a list
/// that holds, for each item, what the action returned for it or, where
/// that was `None`, the item as the producer `P` lifts it.
pub fn merge_slice_produce<P, T, U, F>(slice: &Vec<U>, action: F) -> (r: Option<Vec<T>>) where
    T: Produce<P, U>,
    P: ExprProducer,
    F: Fn(&U) -> Option<T>,

    requires
        forall|i: int| 0 <= i < slice@.len() ==> call_requires(action, (&#[trigger] slice@[i],)),
    ensures
        match r {
            None => forall|i: int|
                0 <= i < slice@.len() ==> call_ensures(
                    action,
                    (&#[trigger] slice@[i],),
                    None::<T>,
                ),
            Some(v) => {
                &&& v@.len() == slice@.len()
                &&& exists|i: int|
                    0 <= i < slice@.len() && call_ensures(
                        action,
                        (&slice@[i],),
                        Some(#[trigger] v@[i]),
                    )
                &&& forall|i: int|
                    0 <= i < slice@.len() ==> {
                        ||| call_ensures(action, (&slice@[i],), Some(#[trigger] v@[i]))
                        ||| call_ensures(action, (&slice@[i],), None::<T>) && T::lifted(
                            &slice@[i],
                            &v@[i],
                        )
                    }
            },
        },
{
    let mut out: Vec<T> = Vec::new();
    let mut changed = false;
    let mut i: usize = 0;
    while i < slice.len()
        invariant
            i <= slice@.len(),
            out@.len() == i,
            forall|i: int|
                0 <= i < slice@.len() ==> call_requires(action, (&#[trigger] slice@[i],)),
            changed ==> exists|j: int|
                0 <= j < i && call_ensures(action, (&slice@[j],), Some(#[trigger] out@[j])),
            !changed ==> forall|j: int|
                0 <= j < i ==> call_ensures(action, (&#[trigger] slice@[j],), None::<T>),
            forall|j: int|
                0 <= j < i ==> {
                    ||| call_ensures(action, (&slice@[j],), Some(#[trigger] out@[j]))
                    ||| call_ensures(action, (&slice@[j],), None::<T>) && T::lifted(
                        &slice@[j],
                        &out@[j],
                    )
                },
        decreases slice@.len() - i,
    {
        let ghost before = out@;
        match action(&slice[i]) {
            Some(x) => {
                out.push(x);
                proof {
                    if changed {
                        let j = choose|j: int|
                            0 <= j < i && call_ensures(
                                action,
                                (&slice@[j],),
                                Some(#[trigger] before[j]),
                            );
                        assert(out@[j] == before[j]);
                    }
                    assert(call_ensures(action, (&slice@[i as int],), Some(out@[i as int])));
                }
                changed = true;
            },
            None => {
                let mut producer = P::new();
                out.push(T::produce_with(&slice[i], &mut producer));
                proof {
                    if changed {
                        let j = choose|j: int|
                            0 <= j < i && call_ensures(
                                action,
                                (&slice@[j],),
                                Some(#[trigger] before[j]),
                            );
                        assert(out@[j] == before[j]);
                    }
                }
            },
        }
        assert(forall|j: int| 0 <= j < i ==> out@[j] == before[j]);
        i += 1;
    }
    if changed {
        assert(exists|j: int|
            0 <= j < slice@.len() && call_ensures(action, (&slice@[j],), Some(#[trigger] out@[j])));
        assert(forall|j: int|
            0 <= j < slice@.len() ==> {
                ||| call_ensures(action, (&slice@[j],), Some(#[trigger] out@[j]))
                ||| call_ensures(action, (&slice@[j],), None::<T>) && T::lifted(
                    &slice@[j],
                    &out@[j],
                )
            });
        Some(out)
    } else {
        assert(forall|j: int|
            0 <= j < slice@.len() ==> call_ensures(action, (&#[trigger] slice@[j],), None::<T>));
        None
    }
}

/// `merge_slice_produce` for a rewrite that stays in the tree it reads.
pub fn merge_slice<T, U, F>(slice: &Vec<U>, action: F) -> (r: Option<Vec<T>>) where
    T: Produce<SameLifetime, U>,
    F: Fn(&U) -> Option<T>,

    requires
        forall|i: int| 0 <= i < slice@.len() ==> call_requires(action, (&#[trigger] slice@[i],)),
    ensures
        match r {
            None => forall|i: int|
                0 <= i < slice@.len() ==> call_ensures(
                    action,
                    (&#[trigger] slice@[i],),
                    None::<T>,
                ),
            Some(v) => {
                &&& v@.len() == slice@.len()
                &&& exists|i: int|
                    0 <= i < slice@.len() && call_ensures(
                        action,
                        (&slice@[i],),
                        Some(#[trigger] v@[i]),
                    )
                &&& forall|i: int|
                    0 <= i < slice@.len() ==> {
                        ||| call_ensures(action, (&slice@[i],), Some(#[trigger] v@[i]))
                        ||| call_ensures(action, (&slice@[i],), None::<T>) && T::lifted(
                            &slice@[i],
                            &v@[i],
                        )
                    }
            },
        },
{
    merge_slice_produce::<SameLifetime, T, U, F>(slice, action)
}

/// The symbol that the let binding for the record field `name` binds:
/// the one that the first pattern field of that name binds, or `dummy`
/// where the pattern does not name the field.
pub open spec fn binding_for_field(
    fields: Seq<(TypedIdentView, Option<Seq<char>>)>,
    name: Seq<char>,
    from: int,
) -> Seq<char>
    decreases fields.len() - from,
{
    if 0 <= from < fields.len() {
        if fields[from].0.name == name {
            or_original(fields[from].0.name, fields[from].1)
        } else {
            binding_for_field(fields, name, from + 1)
        }
    } else {
        "dummy"@
    }
}

/// The let bindings that stand for a record that is taken apart at once:
/// one for each field of the record's type that has a value, from index
/// `from` on, the first outermost, around `body`.
pub open spec fn bind_fields(
    row: Seq<FieldView>,
    exprs: Seq<ExprView>,
    fields: Seq<(TypedIdentView, Option<Seq<char>>)>,
    body: ExprView,
    from: int,
) -> ExprView
    decreases row.len() - from,
{
    if 0 <= from < row.len() && from < exprs.len() {
        ExprView::Let(
            Box::new(
                LetBindingView {
                    name: TypedIdentView {
                        name: binding_for_field(fields, row[from].name, 0),
                        typ: row[from].typ,
                    },
                    expr: NamedView::Expr(Box::new(exprs[from])),
                    span_start: BytePos(0),
                },
            ),
            Box::new(bind_fields(row, exprs, fields, body, from + 1)),
        )
    } else {
        body
    }
}

/// The rewrite of a match on a record literal with a single alternative
/// whose pattern is a record pattern; `None` for any other expression.
pub open spec fn unnecessary_allocation(e: ExprView) -> Option<ExprView> {
    match e {
        ExprView::Match(scrutinee, alts) => match *scrutinee {
            ExprView::Data(id, exprs, _) => if alts.len() == 1 {
                match alts[0].pattern {
                    PatternView::Record(fields) => Some(
                        bind_fields(row_fields(id.typ), exprs, fields, alts[0].expr, 0),
                    ),
                    _ => None,
                }
            } else {
                None
            },
            _ => None,
        },
        _ => None,
    }
}

/// What the visitor of the first pass does.
pub open spec fn unnecessary_allocation_rewrites() -> Rewrites {
    Rewrites { expr: |e: ExprView| unnecessary_allocation(e), binding: |s: Seq<char>| None }
}

/// The visitor that replaces a record which is taken apart as soon as it
/// is built by one let binding for each of its fields.
pub struct RecognizeUnnecessaryAllocation;

/// The symbol that the let binding for the record field `name` binds.
pub fn pattern_binding(fields: &Vec<(TypedIdent, Option<Symbol>)>, name: &Symbol) -> (r: Symbol)
    ensures
        r@ == binding_for_field(
            Seq::new(fields@.len(), |i: int| record_field_view(fields@[i])),
            name@,
            0,
        ),
{
    let ghost views = Seq::new(fields@.len(), |i: int| record_field_view(fields@[i]));
    let mut i: usize = 0;
    while i < fields.len()
        invariant
            i <= fields.len(),
            views == Seq::new(fields@.len(), |i: int| record_field_view(fields@[i])),
            binding_for_field(views, name@, 0) == binding_for_field(views, name@, i as int),
        decreases fields.len() - i,
    {
        let field = &fields[i];
        assert(views[i as int] == record_field_view(*field));
        if field.0.name.name_eq(name) {
            return match &field.1 {
                Some(s) => s.duplicate(),
                None => field.0.name.duplicate(),
            };
        }
        i += 1;
    }
    Symbol::from("dummy")
}

/// The let bindings that stand for the record of the type `typ` with
/// the field values `exprs`, taken apart by the record pattern `fields`,
/// around `body`.
pub fn bind_record_fields(
    typ: &ArcType,
    exprs: &Vec<CExpr>,
    fields: &Vec<(TypedIdent, Option<Symbol>)>,
    body: CExpr,
) -> (r: CExpr)
    ensures
        r@ == bind_fields(
            row_fields(typ@),
            exprs_view(exprs@),
            Seq::new(fields@.len(), |i: int| record_field_view(fields@[i])),
            body@,
            0,
        ),
{
    let ghost row = row_fields(typ@);
    let ghost values = exprs_view(exprs@);
    let ghost pattern = Seq::new(fields@.len(), |i: int| record_field_view(fields@[i]));
    let ghost inner = body@;
    let mut next = body;
    match (**typ).record_fields() {
        Some(row_fields) => {
            let mut i: usize = if row_fields.len() < exprs.len() {
                row_fields.len()
            } else {
                exprs.len()
            };
            assert(bind_fields(row, values, pattern, inner, i as int) == inner);
            while i > 0
                invariant
                    i <= row_fields@.len(),
                    i <= exprs@.len(),
                    row_fields@.len() == row.len(),
                    forall|j: int|
                        0 <= j < row_fields@.len() ==> (#[trigger] row_fields@[j])@ == row[j],
                    values == exprs_view(exprs@),
                    pattern == Seq::new(fields@.len(), |i: int| record_field_view(fields@[i])),
                    next@ == bind_fields(row, values, pattern, inner, i as int),
                decreases i,
            {
                i -= 1;
                let field = &row_fields[i];
                let name = pattern_binding(fields, &field.name);
                assert(row[i as int] == field@);
                assert(values[i as int] == exprs@[i as int]@);
                let ghost rest = next@;
                let bind = LetBinding {
                    name: TypedIdent { name, typ: share(&field.typ) },
                    expr: Named::Expr(share(&exprs[i])),
                    span_start: BytePos::none(),
                };
                assert(bind@ == LetBindingView {
                    name: TypedIdentView {
                        name: binding_for_field(pattern, row[i as int].name, 0),
                        typ: row[i as int].typ,
                    },
                    expr: NamedView::Expr(Box::new(values[i as int])),
                    span_start: BytePos(0),
                });
                next = Arc::new(Expr::Let(Arc::new(bind), next));
                assert(next@ == ExprView::Let(Box::new(bind@), Box::new(rest)));
            }
        },
        None => {},
    }
    next
}

impl Visitor for RecognizeUnnecessaryAllocation {
    type Producer = SameLifetime;

    open spec fn rewrites(&self) -> Rewrites {
        unnecessary_allocation_rewrites()
    }

    fn visit_expr(&mut self, expr: &CExpr) -> (r: Option<CExpr>) {
        proof {
            reveal_with_fuel(crate::ir::expr::expr_view, 3);
        }
        match &**expr {
            Expr::Match(scrutinee, alts) => match &**scrutinee {
                Expr::Data(id, exprs, _) => {
                    if alts.len() != 1 {
                        return None;
                    }
                    match &alts[0].pattern {
                        Pattern::Record(fields) => {
                            assert(alts_view(alts@)[0] == alts@[0]@);
                            Some(bind_record_fields(&id.typ, exprs, fields, share(&alts[0].expr)))
                        },
                        _ => None,
                    }
                },
                _ => None,
            },
            _ => None,
        }
    }

    fn visit_binding(&mut self, symbol: &Symbol) -> (r: Option<Symbol>) {
        None
    }
}

/// What the first pass of the optimizer makes of an expression: every
/// record that is taken apart as soon as it is built, and that the
/// traversal reaches, is replaced by let bindings.
pub open spec fn optimize_unnecessary_allocation_spec(e: ExprView) -> ExprView {
    or_original(e, visit_spec(unnecessary_allocation_rewrites(), e))
}

/// The first pass of the optimizer. An expression in which the pass
/// finds nothing to replace is handed back as it is.
pub fn optimize_unnecessary_allocation(expr: &CExpr) -> (r: CExpr)
    ensures
        r@ == optimize_unnecessary_allocation_spec(expr@),
{
    let mut optimizer = RecognizeUnnecessaryAllocation;
    match visit(&mut optimizer, expr) {
        Some(e) => e,
        None => share(expr),
    }
}

/// Whether a visitor rewrites an expression only to one that uses no
/// symbol which the expression does not use, and gives no symbol a new
/// name.
pub open spec fn keeps_uses(rw: Rewrites) -> bool {
    &&& forall|e: ExprView, t: Seq<char>|
        (rw.expr)(e) is Some && crate::ir::dead_code::mentions((rw.expr)(e)->0, t)
            ==> #[trigger] crate::ir::dead_code::mentions(e, t)
    &&& forall|s: Seq<char>| (#[trigger] (rw.binding)(s)) is None
}

/// What the traversal makes of an expression with a visitor that keeps
/// uses, uses no symbol that the expression does not use.
pub proof fn lemma_visit_keeps_uses(rw: Rewrites, e: ExprView, t: Seq<char>)
    requires
        keeps_uses(rw),
        crate::ir::dead_code::mentions(or_original(e, visit_spec(rw, e)), t),
    ensures
        crate::ir::dead_code::mentions(e, t),
    decreases e, 1int,
{
    match (rw.expr)(e) {
        Some(r) => {},
        None => {
            if walk_expr_spec(rw, e) is Some {
                lemma_walk_keeps_uses(rw, e, t);
            }
        },
    }
}

proof fn lemma_walk_keeps_uses(rw: Rewrites, e: ExprView, t: Seq<char>)
    requires
        keeps_uses(rw),
        walk_expr_spec(rw, e) matches Some(r) && crate::ir::dead_code::mentions(r, t),
    ensures
        crate::ir::dead_code::mentions(e, t),
    decreases e, 0int,
{
    reveal_with_fuel(crate::ir::dead_code::mentions, 2);
    reveal_with_fuel(crate::ir::dead_code::mentions_in_binding, 2);
    let r = walk_expr_spec(rw, e)->0;
    match e {
        ExprView::Const(_, _) => {},
        ExprView::Ident(_, _) => {},
        ExprView::Data(_, args, _) => {
            let new_args = r->Data_1;
            let i = choose|i: int|
                0 <= i < new_args.len() && crate::ir::dead_code::mentions(
                    #[trigger] new_args[i],
                    t,
                );
            assert(new_args[i] == or_original(args[i], visit_all_spec(rw, args)[i]));
            lemma_visit_keeps_uses(rw, args[i], t);
            assert(crate::ir::dead_code::mentions(args[i], t));
        },
        ExprView::Call(f, args) => {
            if crate::ir::dead_code::mentions(*r->Call_0, t) {
                lemma_visit_keeps_uses(rw, *f, t);
            } else {
                let new_args = r->Call_1;
                let i = choose|i: int|
                    0 <= i < new_args.len() && crate::ir::dead_code::mentions(
                        #[trigger] new_args[i],
                        t,
                    );
                if merged(args, visit_all_spec(rw, args)) is Some {
                    assert(new_args[i] == or_original(args[i], visit_all_spec(rw, args)[i]));
                    lemma_visit_keeps_uses(rw, args[i], t);
                }
                assert(crate::ir::dead_code::mentions(args[i], t));
            }
        },
        ExprView::Let(bind, body) => {
            if crate::ir::dead_code::mentions(*r->Let_1, t) {
                lemma_visit_keeps_uses(rw, *body, t);
            } else {
                let new_bind = *r->Let_0;
                assert(crate::ir::dead_code::mentions_in_binding(new_bind, t));
                if walk_bind_spec(rw, *bind) is Some {
                    assert(new_bind.expr == or_original(bind.expr, walk_named_spec(rw, bind.expr)));
                    match bind.expr {
                        NamedView::Expr(rhs) => {
                            lemma_visit_keeps_uses(rw, *rhs, t);
                        },
                        NamedView::Recursive(closures) => {
                            if walk_closures_spec(rw, closures) is Some {
                                let new_closures = walk_closures_spec(rw, closures)->0;
                                let i = choose|i: int|
                                    0 <= i < new_closures.len() && crate::ir::dead_code::mentions(
                                        (#[trigger] new_closures[i]).expr,
                                        t,
                                    );
                                assert(new_closures[i] == or_original(
                                    closures[i],
                                    visit_closures_spec(rw, closures)[i],
                                ));
                                lemma_visit_keeps_uses(rw, closures[i].expr, t);
                                assert(crate::ir::dead_code::mentions(closures[i].expr, t));
                            }
                        },
                    }
                }
                assert(crate::ir::dead_code::mentions_in_binding(*bind, t));
            }
        },
        ExprView::Match(scrutinee, alts) => {
            if crate::ir::dead_code::mentions(*r->Match_0, t) {
                lemma_visit_keeps_uses(rw, *scrutinee, t);
            } else {
                let new_alts = r->Match_1;
                let i = choose|i: int|
                    0 <= i < new_alts.len() && crate::ir::dead_code::mentions(
                        (#[trigger] new_alts[i]).expr,
                        t,
                    );
                if merged(alts, visit_alts_spec(rw, alts)) is Some {
                    assert(new_alts[i] == or_original(alts[i], visit_alts_spec(rw, alts)[i]));
                    lemma_visit_keeps_uses(rw, alts[i].expr, t);
                }
                assert(crate::ir::dead_code::mentions(alts[i].expr, t));
            }
        },
        ExprView::Cast(inner, _) => {
            lemma_visit_keeps_uses(rw, *inner, t);
        },
    }
}

/// The let bindings that stand for a record use no symbol that the
/// fields of the record and the body do not use.
pub proof fn lemma_bind_fields_keeps_uses(
    row: Seq<FieldView>,
    exprs: Seq<ExprView>,
    fields: Seq<(TypedIdentView, Option<Seq<char>>)>,
    body: ExprView,
    from: int,
    t: Seq<char>,
)
    requires
        0 <= from,
        crate::ir::dead_code::mentions(bind_fields(row, exprs, fields, body, from), t),
    ensures
        crate::ir::dead_code::mentions(body, t) || exists|i: int|
            0 <= i < exprs.len() && crate::ir::dead_code::mentions(#[trigger] exprs[i], t),
    decreases row.len() - from,
{
    reveal_with_fuel(crate::ir::dead_code::mentions, 2);
    reveal_with_fuel(crate::ir::dead_code::mentions_in_binding, 2);
    if from < row.len() && from < exprs.len() {
        let rest = bind_fields(row, exprs, fields, body, from + 1);
        if !crate::ir::dead_code::mentions(exprs[from], t) {
            assert(crate::ir::dead_code::mentions(rest, t));
            lemma_bind_fields_keeps_uses(row, exprs, fields, body, from + 1, t);
        }
    }
}

/// The first pass of the optimizer introduces no use of a symbol: what
/// it makes of an expression uses no symbol that the expression does
/// not use.
pub proof fn lemma_unnecessary_allocation_keeps_uses(e: ExprView, t: Seq<char>)
    requires
        crate::ir::dead_code::mentions(optimize_unnecessary_allocation_spec(e), t),
    ensures
        crate::ir::dead_code::mentions(e, t),
{
    let rw = unnecessary_allocation_rewrites();
    assert forall|x: ExprView, u: Seq<char>|
        (rw.expr)(x) is Some && crate::ir::dead_code::mentions(
            (rw.expr)(x)->0,
            u,
        ) implies #[trigger] crate::ir::dead_code::mentions(x, u) by {
        reveal_with_fuel(crate::ir::dead_code::mentions, 2);
        assert((rw.expr)(x) == unnecessary_allocation(x));
        match x {
            ExprView::Match(scrutinee, alts) => match *scrutinee {
                ExprView::Data(id, exprs, _) => {
                    match alts[0].pattern {
                        PatternView::Record(fields) => {
                            lemma_bind_fields_keeps_uses(
                                row_fields(id.typ),
                                exprs,
                                fields,
                                alts[0].expr,
                                0,
                                u,
                            );
                            if crate::ir::dead_code::mentions(alts[0].expr, u) {
                                assert(crate::ir::dead_code::mentions(x, u));
                            } else {
                                assert(crate::ir::dead_code::mentions(*scrutinee, u));
                            }
                        },
                        _ => {},
                    }
                },
                _ => {},
            },
            _ => {},
        }
    }
    lemma_visit_keeps_uses(rw, e, t);
}

/// The purity analysis that the optimizer works with: that of the
/// expression after the first pass.
pub open spec fn optimize_purity(e: ExprView) -> Map<Seq<char>, crate::ir::purity::Pureness> {
    crate::ir::purity::purity_of(Map::empty(), optimize_unnecessary_allocation_spec(e))
}

/// The expression after the first pass and the first removal of dead
/// bindings.
pub open spec fn optimize_reduced(e: ExprView) -> ExprView {
    let e1 = optimize_unnecessary_allocation_spec(e);
    let pure = optimize_purity(e);
    crate::ir::dead_code::dce(crate::ir::dead_code::used_symbols(pure, e1), pure, e1)
}

/// The cost table that the interpreter works with: that of the
/// expression after the first removal of dead bindings, with the
/// symbols marked that the expression after the first pass shows to be
/// cyclic.
pub open spec fn optimize_costs(e: ExprView) -> Map<Seq<char>, crate::ir::costs::Cost> {
    crate::ir::costs::costs_of(
        Map::empty(),
        crate::ir::dead_code::cyclic_symbols(
            optimize_purity(e),
            optimize_unnecessary_allocation_spec(e),
        ),
        optimize_reduced(e),
    )
}

/// The expression after the interpreter: what it makes of the reduced
/// expression, or the reduced expression itself where it fails.
pub open spec fn optimize_interpreted<E: OptimizeEnv>(env: &E, e: ExprView) -> ExprView {
    let e2 = optimize_reduced(e);
    match crate::ir::interpreter::interp(
        env,
        crate::ir::interpreter::Limits {
            costs: optimize_costs(e),
            budget: crate::ir::interpreter::DEFAULT_BUDGET as nat,
            pure: optimize_purity(e),
        },
        1,
        Seq::empty(),
        e2,
    ) {
        Ok(e3) => e3,
        Err(_) => e2,
    }
}

/// The symbols that are used after the interpreter.
pub open spec fn optimize_used<E: OptimizeEnv>(env: &E, e: ExprView) -> Set<Seq<char>> {
    crate::ir::dead_code::used_symbols(optimize_purity(e), optimize_interpreted(env, e))
}

/// What the optimizer makes of an expression: the first pass, the
/// removal of dead bindings, the interpreter, and the removal of the
/// bindings that the interpreter has left without a use.
pub open spec fn optimize_spec<E: OptimizeEnv>(env: &E, e: ExprView) -> ExprView {
    crate::ir::dead_code::dce(
        optimize_used(env, e),
        optimize_purity(e),
        optimize_interpreted(env, e),
    )
}

/// Optimizes the expression of a module: records that are taken apart
/// at once are replaced by let bindings, dead bindings are removed, the
/// interpreter simplifies what is left, and the bindings that it has
/// left without a use are removed. The result has the optimized
/// expression, sealed, and the summary for the modules that import this
/// one. The optimized expression holds no let binding that is both
/// unused and pure.
pub fn optimize<E: OptimizeEnv>(env: &E, expr: &CExpr) -> (r: crate::ir::interpreter::Global<
    crate::ir::expr::CoreExpr,
>)
    ensures
        r.value@ == optimize_spec(env, expr@),
        r.info@ == (crate::ir::interpreter::OptimizerInfoView {
            pure_symbols: optimize_purity(expr@),
            costs: optimize_costs(expr@),
        }),
        crate::ir::dead_code::no_dead_binding(
            optimize_used(env, expr@),
            optimize_purity(expr@),
            r.value@,
        ),
{
    let expr = optimize_unnecessary_allocation(expr);

    let pure_symbols = crate::ir::purity::purity(&expr);

    let mut dep_graph = crate::ir::dead_code::DepGraph::new();
    let used_bindings = dep_graph.used_bindings(&pure_symbols, &expr);
    let cyclic_bindings = dep_graph.cycles();
    assert(cyclic_bindings@ =~= crate::ir::dead_code::cyclic_symbols(pure_symbols@, expr@));

    let expr = crate::ir::dead_code::dead_code_elimination(&used_bindings, &pure_symbols, &expr);

    let costs = crate::ir::costs::analyze_costs(&cyclic_bindings, &expr);

    let interpreter = crate::ir::interpreter::Compiler::new(env).costs(costs).pure_symbols(
        &pure_symbols,
    );
    let expr = match interpreter.compile_expr(&expr) {
        Ok(e) => e,
        Err(_) => expr,
    };
    let costs = interpreter.into_costs();

    let mut dep_graph = crate::ir::dead_code::DepGraph::new();
    let used_bindings = dep_graph.used_bindings(&pure_symbols, &expr);
    let ghost interpreted = expr@;
    let expr = crate::ir::dead_code::dead_code_elimination(&used_bindings, &pure_symbols, &expr);
    proof {
        crate::ir::dead_code::lemma_dce_minimal(used_bindings@, pure_symbols@, interpreted);
    }

    crate::ir::interpreter::Global {
        value: crate::ir::expr::freeze_expr(&expr),
        info: Arc::new(crate::ir::interpreter::OptimizerInfo::new(pure_symbols, costs)),
    }
}

} // verus!
