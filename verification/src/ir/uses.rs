//! The symbols that the optimizer leaves in use: the interpreter, and
//! with it the optimizer as a whole, introduces no use of a local
//! symbol.

use vstd::prelude::*;
use crate::base::symbol::is_global_name;
use crate::ir::dead_code::{
    lemma_dce_keeps_uses, lemma_dce_leaves_used_symbols, mentions, mentions_in_binding,
    used_symbols,
};
use crate::ir::expr::{AlternativeView, ClosureView, ExprView, LetBindingView, NamedView};
use crate::ir::interpreter::{
    atom, callee, closure_names, fold_call, folded, ident_names, interp, interp_alts,
    interp_call, interp_closures, interp_from, interp_ident, interp_let, interp_match,
    interp_projection, interp_rec, known, known_closure, lookup, pattern_binders, projection,
    resolved, resolved_all, simple_body, with_arguments, with_closures, with_fields, with_unknown,
    InterpreterError, KnownView, Limits, ScopeView,
};
use crate::ir::optimize::{
    lemma_unnecessary_allocation_keeps_uses, optimize_costs, optimize_interpreted,
    optimize_purity, optimize_reduced, optimize_spec, optimize_unnecessary_allocation_spec,
    optimize_used, OptimizeEnv,
};
use crate::ir::purity::is_primitive;

verus! {

/// Whether `t` is the name of a local symbol: neither that of a module's
/// global nor that of a primitive.
pub open spec fn local_name(t: Seq<char>) -> bool {
    !is_global_name(t) && !is_primitive(t)
}

/// Whether what the scope knows reads nothing local: each value is
/// built from constants and the names of globals and primitives, and
/// the body of each closure reads its parameters alone.
pub open spec fn scope_closed(scope: ScopeView) -> bool {
    forall|i: int|
        0 <= i < scope.len() ==> match (#[trigger] scope[i]).1 {
            Some(KnownView::Value(v)) => atom(v),
            Some(KnownView::Argument(v)) => atom(v),
            Some(KnownView::Closure(params, body)) => simple_body(params, body),
            None => true,
        }
}

/// A value that reads nothing local uses no local symbol.
pub proof fn lemma_atom_uses_nothing_local(v: ExprView, t: Seq<char>)
    requires
        atom(v),
        local_name(t),
    ensures
        !mentions(v, t),
    decreases v,
{
    match v {
        ExprView::Data(_, args, _) => {
            if mentions(v, t) {
                let i = choose|i: int| 0 <= i < args.len() && mentions(#[trigger] args[i], t);
                lemma_atom_uses_nothing_local(args[i], t);
            }
        },
        _ => {},
    }
}

/// What a closed scope knows of a symbol reads nothing local.
proof fn lemma_lookup_closed(scope: ScopeView, name: Seq<char>, n: int)
    requires
        scope_closed(scope),
    ensures
        match lookup(scope, name, n) {
            Some(Some(KnownView::Value(v))) => atom(v),
            Some(Some(KnownView::Argument(v))) => atom(v),
            Some(Some(KnownView::Closure(params, body))) => simple_body(params, body),
            _ => true,
        },
    decreases n,
{
    if n <= 0 || n > scope.len() {
    } else if scope[n - 1].0 == name {
    } else {
        lemma_lookup_closed(scope, name, n - 1);
    }
}

/// The value that an expression counts as in a closed scope uses a
/// local symbol only where it is the expression itself.
proof fn lemma_resolved_closed(scope: ScopeView, e: ExprView, t: Seq<char>)
    requires
        scope_closed(scope),
        local_name(t),
        mentions(resolved(scope, e), t),
    ensures
        resolved(scope, e) == e,
{
    match e {
        ExprView::Ident(id, _) => {
            lemma_lookup_closed(scope, id.name, scope.len() as int);
            if resolved(scope, e) != e {
                lemma_atom_uses_nothing_local(resolved(scope, e), t);
            }
        },
        _ => {},
    }
}

/// In the scope of the body of a closure that takes the place of a
/// call, a parameter is known as its argument, and nothing is known of
/// any other symbol.
proof fn lemma_lookup_argument(
    params: Seq<Seq<char>>,
    vals: Seq<ExprView>,
    name: Seq<char>,
    n: int,
)
    requires
        0 <= n <= params.len(),
    ensures
        match lookup(with_arguments(params, vals), name, n) {
            Some(k) => exists|j: int| 0 <= j < n && k == Some(KnownView::Argument(vals[j])),
            None => forall|j: int| 0 <= j < n ==> params[j] != name,
        },
    decreases n,
{
    let scope = with_arguments(params, vals);
    if n > 0 {
        if scope[n - 1].0 == name {
            assert(scope[n - 1].1 == Some(KnownView::Argument(vals[n - 1])));
        } else {
            lemma_lookup_argument(params, vals, name, n - 1);
        }
    }
}

/// What the interpreter makes of the body of a closure, with values
/// that read nothing local in the place of its parameters, uses no
/// local symbol.
proof fn lemma_body_uses_nothing_local<E: OptimizeEnv>(
    globals: &E,
    limits: Limits,
    depth: nat,
    params: Seq<Seq<char>>,
    vals: Seq<ExprView>,
    body: ExprView,
    t: Seq<char>,
)
    requires
        simple_body(params, body),
        params.len() == vals.len(),
        forall|i: int| 0 <= i < vals.len() ==> atom(#[trigger] vals[i]),
        local_name(t),
    ensures
        interp(globals, limits, depth, with_arguments(params, vals), body) matches Ok(r)
            ==> !mentions(r, t),
    decreases body, 0int,
{
    let scope = with_arguments(params, vals);
    match body {
        ExprView::Const(_, _) => {},
        ExprView::Ident(id, _) => {
            lemma_lookup_argument(params, vals, id.name, params.len() as int);
            let r = interp_ident(globals, limits.budget, scope, body, id.name);
            match lookup(scope, id.name, scope.len() as int) {
                Some(k) => {
                    let j = choose|j: int|
                        0 <= j < params.len() && k == Some(KnownView::Argument(vals[j]));
                    assert(r == vals[j]);
                    lemma_atom_uses_nothing_local(vals[j], t);
                },
                None => {
                    if params.contains(id.name) {
                        let j = choose|j: int| 0 <= j < params.len() && params[j] == id.name;
                        assert(false);
                    }
                    if r != body {
                        lemma_atom_uses_nothing_local(r, t);
                    }
                },
            }
        },
        ExprView::Data(id, args, pos) => {
            lemma_bodies_use_nothing_local(globals, limits, depth, params, vals, args, 0, t);
            match interp_from(globals, limits, depth, scope, args, 0) {
                Ok(new_args) => {
                    assert(!mentions(ExprView::Data(id, new_args, pos), t));
                },
                Err(_) => {},
            }
        },
        ExprView::Call(f, args) => {
            lemma_body_uses_nothing_local(globals, limits, depth, params, vals, *f, t);
            lemma_bodies_use_nothing_local(globals, limits, depth, params, vals, args, 0, t);
            match interp(globals, limits, depth, scope, *f) {
                Ok(new_f) => match interp_from(globals, limits, depth, scope, args, 0) {
                    Ok(new_args) => {
                        match new_f {
                            ExprView::Ident(id, _) => {
                                lemma_lookup_argument(params, vals, id.name, params.len() as int);
                            },
                            _ => {},
                        }
                        assert(callee(limits, scope, new_f, resolved_all(scope, new_args)) is None);
                        assert(interp(globals, limits, depth, scope, body) == interp_call(
                            globals,
                            limits,
                            depth,
                            scope,
                            body,
                        ));
                        assert(interp_call(globals, limits, depth, scope, body) == fold_call(
                            scope,
                            new_f,
                            new_args,
                        ));
                        match folded(new_f, resolved_all(scope, new_args)) {
                            Some(_) => {},
                            None => {
                                let r = ExprView::Call(Box::new(new_f), new_args);
                                assert(!mentions(r, t));
                            },
                        }
                    },
                    Err(_) => {},
                },
                Err(_) => {},
            }
        },
        ExprView::Cast(inner, typ) => {
            lemma_body_uses_nothing_local(globals, limits, depth, params, vals, *inner, t);
            match interp(globals, limits, depth, scope, *inner) {
                Ok(new_inner) => {
                    assert(!mentions(ExprView::Cast(Box::new(new_inner), typ), t));
                },
                Err(_) => {},
            }
        },
        _ => {},
    }
}

proof fn lemma_bodies_use_nothing_local<E: OptimizeEnv>(
    globals: &E,
    limits: Limits,
    depth: nat,
    params: Seq<Seq<char>>,
    vals: Seq<ExprView>,
    s: Seq<ExprView>,
    from: int,
    t: Seq<char>,
)
    requires
        forall|i: int| 0 <= i < s.len() ==> simple_body(params, #[trigger] s[i]),
        params.len() == vals.len(),
        forall|i: int| 0 <= i < vals.len() ==> atom(#[trigger] vals[i]),
        local_name(t),
        0 <= from,
    ensures
        interp_from(globals, limits, depth, with_arguments(params, vals), s, from) matches Ok(rs)
            ==> forall|i: int| 0 <= i < rs.len() ==> !mentions(#[trigger] rs[i], t),
    decreases s, s.len() - from,
{
    let scope = with_arguments(params, vals);
    if from < s.len() {
        lemma_body_uses_nothing_local(globals, limits, depth, params, vals, s[from], t);
        lemma_bodies_use_nothing_local(globals, limits, depth, params, vals, s, from + 1, t);
        match interp(globals, limits, depth, scope, s[from]) {
            Ok(x) => match interp_from(globals, limits, depth, scope, s, from + 1) {
                Ok(rest) => {
                    let rs = seq![x] + rest;
                    assert forall|i: int| 0 <= i < rs.len() implies !mentions(
                        #[trigger] rs[i],
                        t,
                    ) by {
                        if i > 0 {
                            assert(rs[i] == rest[i - 1]);
                        }
                    }
                },
                Err(_) => {},
            },
            Err(_) => {},
        }
    }
}

proof fn lemma_closed_push(scope: ScopeView, name: Seq<char>, limits: Limits, v: ExprView)
    requires
        scope_closed(scope),
    ensures
        scope_closed(scope.push((name, known(limits, name, v)))),
{
    let new = scope.push((name, known(limits, name, v)));
    assert forall|i: int| 0 <= i < new.len() implies match (#[trigger] new[i]).1 {
        Some(KnownView::Value(v)) => atom(v),
        Some(KnownView::Argument(v)) => atom(v),
        Some(KnownView::Closure(params, body)) => simple_body(params, body),
        None => true,
    } by {
        if i < scope.len() {
            assert(new[i] == scope[i]);
        }
    }
}

proof fn lemma_closed_unknown(scope: ScopeView, names: Seq<Seq<char>>)
    requires
        scope_closed(scope),
    ensures
        scope_closed(with_unknown(scope, names)),
{
    let new = with_unknown(scope, names);
    assert forall|i: int| 0 <= i < new.len() implies match (#[trigger] new[i]).1 {
        Some(KnownView::Value(v)) => atom(v),
        Some(KnownView::Argument(v)) => atom(v),
        Some(KnownView::Closure(params, body)) => simple_body(params, body),
        None => true,
    } by {
        if i < scope.len() {
            assert(new[i] == scope[i]);
        }
    }
}

proof fn lemma_closed_closures(limits: Limits, scope: ScopeView, s: Seq<ClosureView>)
    requires
        scope_closed(scope),
    ensures
        scope_closed(with_closures(limits, scope, s)),
{
    let new = with_closures(limits, scope, s);
    assert forall|i: int| 0 <= i < new.len() implies match (#[trigger] new[i]).1 {
        Some(KnownView::Value(v)) => atom(v),
        Some(KnownView::Argument(v)) => atom(v),
        Some(KnownView::Closure(params, body)) => simple_body(params, body),
        None => true,
    } by {
        if i < scope.len() {
            assert(new[i] == scope[i]);
        } else {
            assert(new[i].1 == known_closure(limits, s[i - scope.len()]));
        }
    }
}

proof fn lemma_closed_fields(
    limits: Limits,
    scope: ScopeView,
    row: Seq<crate::base::types::FieldView>,
    exprs: Seq<ExprView>,
    fields: Seq<(crate::base::types::TypedIdentView, Option<Seq<char>>)>,
)
    requires
        scope_closed(scope),
    ensures
        scope_closed(with_fields(limits, scope, row, exprs, fields)),
{
    let new = with_fields(limits, scope, row, exprs, fields);
    assert forall|i: int| 0 <= i < new.len() implies match (#[trigger] new[i]).1 {
        Some(KnownView::Value(v)) => atom(v),
        Some(KnownView::Argument(v)) => atom(v),
        Some(KnownView::Closure(params, body)) => simple_body(params, body),
        None => true,
    } by {
        if i < scope.len() {
            assert(new[i] == scope[i]);
        }
    }
}

/// The interpreter introduces no use of a local symbol: in a scope
/// whose known values read nothing local, what it makes of an
/// expression uses no local symbol that the expression does not use.
pub proof fn lemma_interp_keeps_uses<E: OptimizeEnv>(
    globals: &E,
    limits: Limits,
    depth: nat,
    scope: ScopeView,
    e: ExprView,
    t: Seq<char>,
)
    requires
        scope_closed(scope),
        local_name(t),
        interp(globals, limits, depth, scope, e) matches Ok(r) && mentions(r, t),
    ensures
        mentions(e, t),
    decreases depth, e, 1int,
{
    match e {
        ExprView::Const(_, _) => {},
        ExprView::Ident(id, _) => {
            lemma_lookup_closed(scope, id.name, scope.len() as int);
            let r = interp_ident(globals, limits.budget, scope, e, id.name);
            if r != e {
                lemma_atom_uses_nothing_local(r, t);
            }
        },
        ExprView::Data(id, args, pos) => {
            let new_args = interp_from(globals, limits, depth, scope, args, 0)->Ok_0;
            assert(mentions(ExprView::Data(id, new_args, pos), t));
            let i = choose|i: int| 0 <= i < new_args.len() && mentions(#[trigger] new_args[i], t);
            lemma_from_keeps_uses(globals, limits, depth, scope, args, 0, i, t);
        },
        ExprView::Call(_, _) => {
            lemma_call_keeps_uses(globals, limits, depth, scope, e, t);
        },
        ExprView::Let(bind, _) => match bind.expr {
            NamedView::Expr(_) => {
                lemma_let_keeps_uses(globals, limits, depth, scope, e, t);
            },
            NamedView::Recursive(_) => {
                lemma_rec_keeps_uses(globals, limits, depth, scope, e, t);
            },
        },
        ExprView::Match(_, _) => {
            lemma_match_keeps_uses(globals, limits, depth, scope, e, t);
        },
        ExprView::Cast(inner, typ) => {
            let new_inner = interp(globals, limits, depth, scope, *inner)->Ok_0;
            assert(mentions(ExprView::Cast(Box::new(new_inner), typ), t));
            lemma_interp_keeps_uses(globals, limits, depth, scope, *inner, t);
        },
    }
}

proof fn lemma_from_keeps_uses<E: OptimizeEnv>(
    globals: &E,
    limits: Limits,
    depth: nat,
    scope: ScopeView,
    s: Seq<ExprView>,
    from: int,
    i: int,
    t: Seq<char>,
)
    requires
        scope_closed(scope),
        local_name(t),
        0 <= from,
        interp_from(globals, limits, depth, scope, s, from) matches Ok(rs) && 0 <= i < rs.len()
            && mentions(rs[i], t),
    ensures
        exists|j: int| 0 <= j < s.len() && mentions(#[trigger] s[j], t),
    decreases depth, s, s.len() - from,
{
    if from < s.len() {
        let x = interp(globals, limits, depth, scope, s[from])->Ok_0;
        let rest = interp_from(globals, limits, depth, scope, s, from + 1)->Ok_0;
        let rs = seq![x] + rest;
        assert(interp_from(globals, limits, depth, scope, s, from) == Ok::<
            Seq<ExprView>,
            InterpreterError,
        >(rs));
        if i == 0 {
            assert(rs[0] == x);
            lemma_interp_keeps_uses(globals, limits, depth, scope, s[from], t);
        } else {
            assert(rs[i] == rest[i - 1]);
            lemma_from_keeps_uses(globals, limits, depth, scope, s, from + 1, i - 1, t);
        }
    }
}

proof fn lemma_call_keeps_uses<E: OptimizeEnv>(
    globals: &E,
    limits: Limits,
    depth: nat,
    scope: ScopeView,
    e: ExprView,
    t: Seq<char>,
)
    requires
        scope_closed(scope),
        local_name(t),
        e is Call,
        interp_call(globals, limits, depth, scope, e) matches Ok(r) && mentions(r, t),
    ensures
        mentions(e, t),
    decreases depth, e, 0int,
{
    match e {
        ExprView::Call(f, args) => {
            let new_f = interp(globals, limits, depth, scope, *f)->Ok_0;
            let new_args = interp_from(globals, limits, depth, scope, args, 0)->Ok_0;
            let vals = resolved_all(scope, new_args);
            let r = interp_call(globals, limits, depth, scope, e)->Ok_0;
            match callee(limits, scope, new_f, vals) {
                Some((params, body)) => {
                    if depth > 0 {
                        match new_f {
                            ExprView::Ident(id, _) => {
                                lemma_lookup_closed(scope, id.name, scope.len() as int);
                            },
                            _ => {},
                        }
                        lemma_body_uses_nothing_local(
                            globals,
                            limits,
                            (depth - 1) as nat,
                            params,
                            vals,
                            body,
                            t,
                        );
                        assert(false);
                    }
                },
                None => {},
            }
            assert(Ok::<ExprView, InterpreterError>(r) == fold_call(scope, new_f, new_args));
            match folded(new_f, vals) {
                Some(_) => {
                    assert(false);
                },
                None => {
                    assert(r == ExprView::Call(Box::new(new_f), new_args));
                    if mentions(new_f, t) {
                        lemma_interp_keeps_uses(globals, limits, depth, scope, *f, t);
                    } else {
                        let i = choose|i: int|
                            0 <= i < new_args.len() && mentions(#[trigger] new_args[i], t);
                        lemma_from_keeps_uses(globals, limits, depth, scope, args, 0, i, t);
                    }
                },
            }
        },
        _ => {},
    }
}

proof fn lemma_let_keeps_uses<E: OptimizeEnv>(
    globals: &E,
    limits: Limits,
    depth: nat,
    scope: ScopeView,
    e: ExprView,
    t: Seq<char>,
)
    requires
        scope_closed(scope),
        local_name(t),
        e matches ExprView::Let(bind, _) && bind.expr is Expr,
        interp_let(globals, limits, depth, scope, e) matches Ok(r) && mentions(r, t),
    ensures
        mentions(e, t),
    decreases depth, e, 0int,
{
    match e {
        ExprView::Let(bind, body) => match bind.expr {
            NamedView::Expr(rhs) => {
                let new_rhs = interp(globals, limits, depth, scope, *rhs)->Ok_0;
                let name = bind.name.name;
                let inner = scope.push((name, known(limits, name, resolved(scope, new_rhs))));
                let new_body = interp(globals, limits, depth, inner, *body)->Ok_0;
                let new_bind = LetBindingView {
                    name: bind.name,
                    expr: NamedView::Expr(Box::new(new_rhs)),
                    span_start: bind.span_start,
                };
                let r = ExprView::Let(Box::new(new_bind), Box::new(new_body));
                assert(interp_let(globals, limits, depth, scope, e) == Ok::<
                    ExprView,
                    InterpreterError,
                >(r));
                assert(mentions(r, t) == (mentions_in_binding(new_bind, t) || mentions(
                    new_body,
                    t,
                )));
                if mentions(new_body, t) {
                    lemma_closed_push(scope, name, limits, resolved(scope, new_rhs));
                    lemma_interp_keeps_uses(globals, limits, depth, inner, *body, t);
                } else {
                    assert(mentions(new_rhs, t));
                    lemma_interp_keeps_uses(globals, limits, depth, scope, *rhs, t);
                    assert(mentions_in_binding(*bind, t));
                }
            },
            _ => {},
        },
        _ => {},
    }
}

proof fn lemma_rec_keeps_uses<E: OptimizeEnv>(
    globals: &E,
    limits: Limits,
    depth: nat,
    scope: ScopeView,
    e: ExprView,
    t: Seq<char>,
)
    requires
        scope_closed(scope),
        local_name(t),
        e matches ExprView::Let(bind, _) && bind.expr is Recursive,
        interp_rec(globals, limits, depth, scope, e) matches Ok(r) && mentions(r, t),
    ensures
        mentions(e, t),
    decreases depth, e, 0int,
{
    match e {
        ExprView::Let(bind, body) => match bind.expr {
            NamedView::Recursive(closures) => {
                let inner = with_unknown(scope, closure_names(closures));
                let new_closures = interp_closures(globals, limits, depth, inner, closures, 0)->Ok_0;
                let outer = with_closures(limits, scope, new_closures);
                let new_body = interp(globals, limits, depth, outer, *body)->Ok_0;
                let new_bind = LetBindingView {
                    name: bind.name,
                    expr: NamedView::Recursive(new_closures),
                    span_start: bind.span_start,
                };
                let r = ExprView::Let(Box::new(new_bind), Box::new(new_body));
                assert(interp_rec(globals, limits, depth, scope, e) == Ok::<
                    ExprView,
                    InterpreterError,
                >(r));
                assert(mentions(r, t) == (mentions_in_binding(new_bind, t) || mentions(
                    new_body,
                    t,
                )));
                if mentions(new_body, t) {
                    lemma_closed_closures(limits, scope, new_closures);
                    lemma_interp_keeps_uses(globals, limits, depth, outer, *body, t);
                } else {
                    let i = choose|i: int|
                        0 <= i < new_closures.len() && mentions(
                            (#[trigger] new_closures[i]).expr,
                            t,
                        );
                    lemma_closed_unknown(scope, closure_names(closures));
                    lemma_closures_keep_uses(globals, limits, depth, inner, closures, 0, i, t);
                    assert(mentions_in_binding(*bind, t));
                }
            },
            _ => {},
        },
        _ => {},
    }
}

proof fn lemma_closures_keep_uses<E: OptimizeEnv>(
    globals: &E,
    limits: Limits,
    depth: nat,
    scope: ScopeView,
    s: Seq<ClosureView>,
    from: int,
    i: int,
    t: Seq<char>,
)
    requires
        scope_closed(scope),
        local_name(t),
        0 <= from,
        interp_closures(globals, limits, depth, scope, s, from) matches Ok(rs) && 0 <= i
            < rs.len() && mentions(rs[i].expr, t),
    ensures
        exists|j: int| 0 <= j < s.len() && mentions((#[trigger] s[j]).expr, t),
    decreases depth, s, s.len() - from,
{
    if from < s.len() {
        let inner = with_unknown(scope, ident_names(s[from].args));
        let x = interp(globals, limits, depth, inner, s[from].expr)->Ok_0;
        let first = ClosureView { pos: s[from].pos, name: s[from].name, args: s[from].args, expr: x };
        let rest = interp_closures(globals, limits, depth, scope, s, from + 1)->Ok_0;
        let rs = seq![first] + rest;
        assert(interp_closures(globals, limits, depth, scope, s, from) == Ok::<
            Seq<ClosureView>,
            InterpreterError,
        >(rs));
        if i == 0 {
            assert(rs[0] == first);
            lemma_closed_unknown(scope, ident_names(s[from].args));
            lemma_interp_keeps_uses(globals, limits, depth, inner, s[from].expr, t);
        } else {
            assert(rs[i] == rest[i - 1]);
            lemma_closures_keep_uses(globals, limits, depth, scope, s, from + 1, i - 1, t);
        }
    }
}

proof fn lemma_alts_keep_uses<E: OptimizeEnv>(
    globals: &E,
    limits: Limits,
    depth: nat,
    scope: ScopeView,
    s: Seq<AlternativeView>,
    from: int,
    i: int,
    t: Seq<char>,
)
    requires
        scope_closed(scope),
        local_name(t),
        0 <= from,
        interp_alts(globals, limits, depth, scope, s, from) matches Ok(rs) && 0 <= i < rs.len()
            && mentions(rs[i].expr, t),
    ensures
        exists|j: int| 0 <= j < s.len() && mentions((#[trigger] s[j]).expr, t),
    decreases depth, s, s.len() - from,
{
    if from < s.len() {
        let inner = with_unknown(scope, pattern_binders(s[from].pattern));
        let x = interp(globals, limits, depth, inner, s[from].expr)->Ok_0;
        let first = AlternativeView { pattern: s[from].pattern, expr: x };
        let rest = interp_alts(globals, limits, depth, scope, s, from + 1)->Ok_0;
        let rs = seq![first] + rest;
        assert(interp_alts(globals, limits, depth, scope, s, from) == Ok::<
            Seq<AlternativeView>,
            InterpreterError,
        >(rs));
        if i == 0 {
            assert(rs[0] == first);
            lemma_closed_unknown(scope, pattern_binders(s[from].pattern));
            lemma_interp_keeps_uses(globals, limits, depth, inner, s[from].expr, t);
        } else {
            assert(rs[i] == rest[i - 1]);
            lemma_alts_keep_uses(globals, limits, depth, scope, s, from + 1, i - 1, t);
        }
    }
}

proof fn lemma_projection_keeps_uses<E: OptimizeEnv>(
    globals: &E,
    limits: Limits,
    depth: nat,
    scope: ScopeView,
    row: Seq<crate::base::types::FieldView>,
    exprs: Seq<ExprView>,
    fields: Seq<(crate::base::types::TypedIdentView, Option<Seq<char>>)>,
    body: ExprView,
    t: Seq<char>,
)
    requires
        scope_closed(scope),
        local_name(t),
        interp_projection(globals, limits, depth, scope, row, exprs, fields, body) matches Ok(r)
            && mentions(r, t),
    ensures
        mentions(body, t) || exists|i: int| 0 <= i < exprs.len() && mentions(#[trigger] exprs[i], t),
    decreases depth, body, 2int,
{
    let inner = with_fields(limits, scope, row, resolved_all(scope, exprs), fields);
    let new_body = interp(globals, limits, depth, inner, body)->Ok_0;
    crate::ir::optimize::lemma_bind_fields_keeps_uses(row, exprs, fields, new_body, 0, t);
    if mentions(new_body, t) {
        lemma_closed_fields(limits, scope, row, resolved_all(scope, exprs), fields);
        lemma_interp_keeps_uses(globals, limits, depth, inner, body, t);
    }
}

proof fn lemma_match_keeps_uses<E: OptimizeEnv>(
    globals: &E,
    limits: Limits,
    depth: nat,
    scope: ScopeView,
    e: ExprView,
    t: Seq<char>,
)
    requires
        scope_closed(scope),
        local_name(t),
        e is Match,
        interp_match(globals, limits, depth, scope, e) matches Ok(r) && mentions(r, t),
    ensures
        mentions(e, t),
    decreases depth, e, 0int,
{
    match e {
        ExprView::Match(scrutinee, alts) => {
            let new_scrutinee = interp(globals, limits, depth, scope, *scrutinee)->Ok_0;
            let record = resolved(scope, new_scrutinee);
            match projection(record, alts) {
                Some((row, exprs, fields)) => {
                    lemma_projection_keeps_uses(
                        globals,
                        limits,
                        depth,
                        scope,
                        row,
                        exprs,
                        fields,
                        alts[0].expr,
                        t,
                    );
                    if !mentions(alts[0].expr, t) {
                        let i = choose|i: int|
                            0 <= i < exprs.len() && mentions(#[trigger] exprs[i], t);
                        assert(mentions(record, t));
                        lemma_resolved_closed(scope, new_scrutinee, t);
                        lemma_interp_keeps_uses(globals, limits, depth, scope, *scrutinee, t);
                    }
                },
                None => {
                    let new_alts = interp_alts(globals, limits, depth, scope, alts, 0)->Ok_0;
                    let r = ExprView::Match(Box::new(new_scrutinee), new_alts);
                    assert(interp_match(globals, limits, depth, scope, e) == Ok::<
                        ExprView,
                        InterpreterError,
                    >(r));
                    if mentions(new_scrutinee, t) {
                        lemma_interp_keeps_uses(globals, limits, depth, scope, *scrutinee, t);
                    } else {
                        let i = choose|i: int|
                            0 <= i < new_alts.len() && mentions((#[trigger] new_alts[i]).expr, t);
                        lemma_alts_keep_uses(globals, limits, depth, scope, alts, 0, i, t);
                    }
                },
            }
        },
        _ => {},
    }
}

/// The optimizer introduces no use of a local symbol: what it makes of
/// an expression uses no local symbol that the expression does not use.
/// And a symbol that is still used is among the used symbols of the last
/// removal of dead bindings, so that its binding has not gone.
pub proof fn lemma_optimize_keeps_uses<E: OptimizeEnv>(env: &E, e: ExprView, t: Seq<char>)
    requires
        local_name(t),
        mentions(optimize_spec(env, e), t),
    ensures
        mentions(e, t),
        optimize_used(env, e).contains(t),
{
    let pure = optimize_purity(e);
    let first = optimize_unnecessary_allocation_spec(e);
    let reduced = optimize_reduced(e);
    let interpreted = optimize_interpreted(env, e);
    lemma_dce_leaves_used_symbols(pure, interpreted, t);
    lemma_dce_keeps_uses(optimize_used(env, e), pure, interpreted, t);
    let limits = Limits {
        costs: optimize_costs(e),
        budget: crate::ir::interpreter::DEFAULT_BUDGET as nat,
        pure: pure,
    };
    if interp(env, limits, 1, Seq::empty(), reduced) is Ok {
        assert(scope_closed(Seq::empty()));
        lemma_interp_keeps_uses(env, limits, 1, Seq::empty(), reduced, t);
    }
    lemma_dce_keeps_uses(used_symbols(pure, first), pure, first, t);
    lemma_unnecessary_allocation_keeps_uses(e, t);
}

} // verus!
