use std::sync::Arc;

use gluon_core::base::pos::{BytePos, Span};
use gluon_core::base::symbol::Symbol;
use gluon_core::base::types::{ArcType, Field, Type, TypedIdent};
use gluon_core::ir::costs::{analyze_costs, cost, Cost};
use gluon_core::ir::dead_code::{dead_code_elimination, DepGraph, SymbolSet};
use gluon_core::ir::expr::{
    freeze_expr, Alternative, CExpr, Closure, Expr, LetBinding, Literal, Named, Pattern,
};
use gluon_core::ir::interpreter::{Compiler, Global, InterpreterError, OptimizerInfo};
use gluon_core::ir::optimize::{
    copy_expr, merge_match, merge_slice, merge_slice_produce, optimize, visit, walk_bind,
    walk_closures, walk_expr, walk_expr_alloc, walk_named, walk_pattern, DifferentLifetime,
    ExprProducer, OptimizeEnv, Produce, Rewrites, SameLifetime, Visitor,
};
use gluon_core::ir::purity::{purity, Pureness};
use gluon_core::query::database::CompilerDatabase;
use gluon_core::query::env::Env;

fn int_type() -> ArcType {
    Type::ident("Int")
}

fn typed(name: &str) -> TypedIdent {
    TypedIdent::new(Symbol::from(name), int_type())
}

fn ident(name: &str) -> CExpr {
    Arc::new(Expr::Ident(typed(name), Span::none()))
}

fn int_lit(i: i64) -> CExpr {
    Arc::new(Expr::Const(Literal::Int(i), Span::none()))
}

fn call(f: &str, args: Vec<CExpr>) -> CExpr {
    Arc::new(Expr::Call(ident(f), args))
}

fn let_(name: &str, value: CExpr, body: CExpr) -> CExpr {
    Arc::new(Expr::Let(
        Arc::new(LetBinding {
            name: typed(name),
            expr: Named::Expr(value),
            span_start: BytePos::none(),
        }),
        body,
    ))
}

fn closure(name: &str, args: &[&str], body: CExpr) -> Closure {
    Closure {
        pos: BytePos::none(),
        name: typed(name),
        args: args.iter().map(|a| typed(a)).collect(),
        expr: body,
    }
}

fn let_rec(closures: Vec<Closure>, body: CExpr) -> CExpr {
    Arc::new(Expr::Let(
        Arc::new(LetBinding {
            name: typed(""),
            expr: Named::Recursive(closures),
            span_start: BytePos::none(),
        }),
        body,
    ))
}

fn record_type(fields: &[&str]) -> ArcType {
    Type::record(vec![], fields.iter().map(|f| Field::new(f, int_type())).collect())
}

fn record(fields: &[&str], values: Vec<CExpr>) -> CExpr {
    Arc::new(Expr::Data(
        TypedIdent::new(Symbol::from(""), record_type(fields)),
        values,
        BytePos::none(),
    ))
}

fn record_pattern(fields: &[(&str, Option<&str>)]) -> Pattern {
    Pattern::Record(
        fields
            .iter()
            .map(|(f, b)| (typed(f), b.map(Symbol::from)))
            .collect(),
    )
}

fn match_(scrutinee: CExpr, alts: Vec<(Pattern, CExpr)>) -> CExpr {
    Arc::new(Expr::Match(
        scrutinee,
        alts.into_iter()
            .map(|(pattern, expr)| Alternative { pattern, expr })
            .collect(),
    ))
}

fn set_of(names: &[&str]) -> SymbolSet {
    let mut set = SymbolSet::new();
    for n in names {
        set.insert(n.to_string());
    }
    set
}

fn eliminate(expr: &CExpr) -> CExpr {
    let pure = purity(expr);
    let mut graph = DepGraph::new();
    let used = graph.used_bindings(&pure, expr);
    dead_code_elimination(&used, &pure, expr)
}

fn no_modules() -> CompilerDatabase {
    CompilerDatabase::new_base(None)
}

#[test]
fn purity_of_bindings() {
    // let a = 1 in let b = f a in let rec g x = #Int+ x 1 in let c = g a in c
    let expr = let_(
        "a",
        int_lit(1),
        let_(
            "b",
            call("f", vec![ident("a")]),
            let_rec(
                vec![closure("g", &["x"], call("#Int+", vec![ident("x"), int_lit(1)]))],
                let_("c", call("g", vec![ident("a")]), ident("c")),
            ),
        ),
    );
    let pure = purity(&expr);
    assert_eq!(pure.get("a"), Some(Pureness::Load));
    assert_eq!(pure.get("b"), None);
    assert_eq!(pure.get("g"), Some(Pureness::Call(1)));
    assert_eq!(pure.get("c"), Some(Pureness::Load));
    assert_eq!(pure.get("x"), None);
    assert!(pure.is_pure(&int_lit(1)));
    assert!(pure.is_pure(&call("g", vec![int_lit(1)])));
    // A call with more arguments than the closure takes calls what the closure returns.
    assert!(!pure.is_pure(&call("g", vec![int_lit(1), int_lit(2)])));
    assert!(!pure.is_pure(&call("f", vec![int_lit(1)])));
    assert!(pure.is_pure(&call("#Int*", vec![int_lit(1), int_lit(2)])));
}

#[test]
fn purity_of_a_recursive_group_is_all_or_nothing() {
    // let rec f x = g x and g x = effect x in 0
    let expr = let_rec(
        vec![
            closure("f", &["x"], call("g", vec![ident("x")])),
            closure("g", &["x"], call("effect", vec![ident("x")])),
        ],
        int_lit(0),
    );
    let pure = purity(&expr);
    assert_eq!(pure.get("f"), None);
    assert_eq!(pure.get("g"), None);

    let expr = let_rec(
        vec![
            closure("f", &["x"], call("g", vec![ident("x")])),
            closure("g", &["x"], call("f", vec![ident("x")])),
        ],
        int_lit(0),
    );
    let pure = purity(&expr);
    assert_eq!(pure.get("f"), Some(Pureness::Call(1)));
    assert_eq!(pure.get("g"), Some(Pureness::Call(1)));
}

#[test]
fn used_bindings_follow_definitions() {
    // let a = 1 in let b = a in let c = b in let d = 4 in c
    let expr = let_(
        "a",
        int_lit(1),
        let_("b", ident("a"), let_("c", ident("b"), let_("d", int_lit(4), ident("c")))),
    );
    let pure = purity(&expr);
    let mut graph = DepGraph::new();
    let used = graph.used_bindings(&pure, &expr);
    assert!(used.contains("a"));
    assert!(used.contains("b"));
    assert!(used.contains("c"));
    assert!(!used.contains("d"));
    assert_eq!(graph.edges.len(), 3);
    // A graph that holds uses already keeps them.
    let more = graph.used_bindings(&pure, &ident("d"));
    assert!(more.contains("d"));
    assert!(more.contains("a"));
    assert_eq!(graph.edges.len(), 4);
}

#[test]
fn uses_of_an_effect_belong_to_the_scope_around_it() {
    // let a = 1 in let b = effect a in 0
    let expr = let_("a", int_lit(1), let_("b", call("effect", vec![ident("a")]), int_lit(0)));
    let pure = purity(&expr);
    let mut graph = DepGraph::new();
    let used = graph.used_bindings(&pure, &expr);
    assert!(used.contains("a"));
    assert!(used.contains("effect"));
    assert!(!used.contains("b"));
    assert_eq!(eliminate(&expr), expr);
}

#[test]
fn cycles_are_found() {
    // let rec f x = g x and g x = f x and h x = 1 in h
    let expr = let_rec(
        vec![
            closure("f", &["x"], call("g", vec![ident("x")])),
            closure("g", &["x"], call("f", vec![ident("x")])),
            closure("h", &["x"], int_lit(1)),
        ],
        ident("h"),
    );
    let pure = purity(&expr);
    let mut graph = DepGraph::new();
    let used = graph.used_bindings(&pure, &expr);
    assert!(used.contains("h"));
    assert!(!used.contains("f"));
    let cyclic = graph.cycles();
    assert!(cyclic.contains("f"));
    assert!(cyclic.contains("g"));
    assert!(!cyclic.contains("h"));
    assert!(!cyclic.contains("x"));
    let reached = graph.reachable_from(Some("f"));
    assert!(reached.contains("g"));
    assert!(reached.contains("x"));
    assert!(!reached.contains("h"));
}

#[test]
fn dead_code_elimination_removes_unused_pure_bindings() {
    // let a = 1 in let b = 2 in a  ==>  let a = 1 in a
    let expr = let_("a", int_lit(1), let_("b", int_lit(2), ident("a")));
    assert_eq!(eliminate(&expr), let_("a", int_lit(1), ident("a")));
}

#[test]
fn dead_code_elimination_is_transitive() {
    // let a = 1 in let b = a in 0  ==>  0
    let expr = let_("a", int_lit(1), let_("b", ident("a"), int_lit(0)));
    assert_eq!(eliminate(&expr), int_lit(0));
}

#[test]
fn dead_code_elimination_keeps_effects() {
    // let a = effect 1 in 0
    let expr = let_("a", call("effect", vec![int_lit(1)]), int_lit(0));
    assert_eq!(eliminate(&expr), expr);
}

#[test]
fn dead_code_elimination_of_recursive_groups() {
    let unused = let_rec(vec![closure("f", &["x"], call("f", vec![ident("x")]))], int_lit(0));
    assert_eq!(eliminate(&unused), int_lit(0));
    let used = let_rec(
        vec![
            closure("f", &["x"], call("g", vec![ident("x")])),
            closure("g", &["x"], int_lit(1)),
        ],
        ident("f"),
    );
    assert_eq!(eliminate(&used), used);
    // let a = 1 in let rec f x = x and g y = a in f 0: `g` goes, and `a` with it.
    let partly = let_(
        "a",
        int_lit(1),
        let_rec(
            vec![closure("f", &["x"], ident("x")), closure("g", &["y"], ident("a"))],
            call("f", vec![int_lit(0)]),
        ),
    );
    assert_eq!(
        eliminate(&partly),
        let_rec(vec![closure("f", &["x"], ident("x"))], call("f", vec![int_lit(0)]))
    );
}

#[test]
fn dead_code_elimination_below_other_nodes() {
    let dead = |body: CExpr| let_("d", int_lit(9), body);
    let expr = match_(
        dead(ident("v")),
        vec![(Pattern::Ident(typed("x")), call("f", vec![dead(ident("x"))]))],
    );
    let expected = match_(
        ident("v"),
        vec![(Pattern::Ident(typed("x")), call("f", vec![ident("x")]))],
    );
    assert_eq!(eliminate(&expr), expected);
    let cast = Arc::new(Expr::Cast(dead(int_lit(1)), int_type()));
    assert_eq!(eliminate(&cast), Arc::new(Expr::Cast(int_lit(1), int_type())));
}

#[test]
fn dead_code_elimination_with_a_given_set() {
    let expr = let_("a", int_lit(1), let_("b", int_lit(2), int_lit(3)));
    let pure = purity(&expr);
    let result = dead_code_elimination(&set_of(&["b"]), &pure, &expr);
    assert_eq!(result, let_("b", int_lit(2), int_lit(3)));
}

#[test]
fn costs_count_nodes() {
    assert_eq!(cost(&int_lit(1)), 1);
    assert_eq!(cost(&call("f", vec![int_lit(1), ident("x")])), 4);
    let expr = let_("a", call("f", vec![int_lit(1)]), ident("a"));
    assert_eq!(cost(&expr), 5);
    let costs = analyze_costs(&set_of(&["a"]), &expr);
    assert_eq!(costs.get("a"), Some(Cost { cost: 3, cyclic: true }));
    assert_eq!(costs.get("f"), None);
    let group = let_rec(vec![closure("f", &["x"], ident("x"))], ident("f"));
    let costs = analyze_costs(&SymbolSet::new(), &group);
    assert_eq!(costs.get("f"), Some(Cost { cost: 1, cyclic: false }));
}

#[test]
fn interpreter_folds_integer_arithmetic() {
    let db = no_modules();
    let env = Env(&db);
    let interpreter = Compiler::new(&env);
    let sum = call("#Int+", vec![int_lit(1), int_lit(2)]);
    assert_eq!(interpreter.compile_expr(&sum), Ok(int_lit(3)));
    let nested = call(
        "#Int*",
        vec![call("#Int-", vec![int_lit(7), int_lit(2)]), int_lit(4)],
    );
    assert_eq!(interpreter.compile_expr(&nested), Ok(int_lit(20)));
    let other = call("#Int/", vec![int_lit(4), int_lit(2)]);
    assert_eq!(interpreter.compile_expr(&other), Ok(other.clone()));
    let unknown = call("#Int+", vec![ident("x"), int_lit(2)]);
    assert_eq!(interpreter.compile_expr(&unknown), Ok(unknown.clone()));
}

#[test]
fn interpreter_fails_on_overflow() {
    let db = no_modules();
    let env = Env(&db);
    let interpreter = Compiler::new(&env);
    let sum = call("#Int+", vec![int_lit(i64::MAX), int_lit(1)]);
    assert_eq!(interpreter.compile_expr(&sum), Err(InterpreterError::Overflow));
    let product = call("#Int*", vec![int_lit(i64::MIN), int_lit(-1)]);
    assert_eq!(interpreter.compile_expr(&product), Err(InterpreterError::Overflow));
    let difference = call("#Int-", vec![int_lit(i64::MIN), int_lit(1)]);
    assert_eq!(interpreter.compile_expr(&difference), Err(InterpreterError::Overflow));
}

#[test]
fn interpreter_fails_on_a_resolved_binder() {
    let db = no_modules();
    let env = Env(&db);
    let interpreter = Compiler::new(&env);
    let expr = let_("@m", int_lit(1), int_lit(2));
    assert_eq!(interpreter.compile_expr(&expr), Err(InterpreterError::ResolvedBinder));
    let expr = match_(ident("v"), vec![(Pattern::Ident(typed("@m")), int_lit(2))]);
    assert_eq!(interpreter.compile_expr(&expr), Err(InterpreterError::ResolvedBinder));
    let expr = let_rec(vec![closure("f", &["@x"], int_lit(1))], int_lit(2));
    assert_eq!(interpreter.compile_expr(&expr), Err(InterpreterError::ResolvedBinder));
}

#[test]
fn interpreter_propagates_constants() {
    let db = no_modules();
    let env = Env(&db);
    let interpreter = Compiler::new(&env);
    // let a = 1 in let b = #Int+ a 2 in f b a
    let expr = let_(
        "a",
        int_lit(1),
        let_(
            "b",
            call("#Int+", vec![ident("a"), int_lit(2)]),
            call("f", vec![ident("b"), ident("a")]),
        ),
    );
    // The sum is carried out; the uses of `a` and `b` stay.
    let expected = let_(
        "a",
        int_lit(1),
        let_("b", int_lit(3), call("f", vec![ident("b"), ident("a")])),
    );
    assert_eq!(interpreter.compile_expr(&expr), Ok(expected));
    // let a = 1 in let b = a in #Int+ b b
    let expr = let_(
        "a",
        int_lit(1),
        let_("b", ident("a"), call("#Int+", vec![ident("b"), ident("b")])),
    );
    let expected = let_("a", int_lit(1), let_("b", ident("a"), int_lit(2)));
    assert_eq!(interpreter.compile_expr(&expr), Ok(expected));
}

#[test]
fn interpreter_keeps_uses_of_local_constants() {
    let db = no_modules();
    let env = Env(&db);
    let interpreter = Compiler::new(&env);
    // let a = 1 in a
    let expr = let_("a", int_lit(1), ident("a"));
    assert_eq!(interpreter.compile_expr(&expr), Ok(expr.clone()));
    // let a = 1 in { x = a }
    let expr = let_("a", int_lit(1), record(&["x"], vec![ident("a")]));
    assert_eq!(interpreter.compile_expr(&expr), Ok(expr.clone()));
    // let a = 1 in #Int/ a a
    let expr = let_("a", int_lit(1), call("#Int/", vec![ident("a"), ident("a")]));
    assert_eq!(interpreter.compile_expr(&expr), Ok(expr.clone()));
}

#[test]
fn interpreter_respects_shadowing() {
    let db = no_modules();
    let env = Env(&db);
    let interpreter = Compiler::new(&env);
    let twice = |name: &str| call("#Int+", vec![ident(name), ident(name)]);
    // let a = 1 in #Int+ a a
    let expr = let_("a", int_lit(1), twice("a"));
    assert_eq!(interpreter.compile_expr(&expr), Ok(let_("a", int_lit(1), int_lit(2))));
    // let a = 1 in match v with | a -> #Int+ a a end
    let expr = let_(
        "a",
        int_lit(1),
        match_(ident("v"), vec![(Pattern::Ident(typed("a")), twice("a"))]),
    );
    assert_eq!(interpreter.compile_expr(&expr), Ok(expr.clone()));
    // let a = 1 in let rec f a = #Int+ a a in #Int+ a a
    let expr = let_(
        "a",
        int_lit(1),
        let_rec(vec![closure("f", &["a"], twice("a"))], twice("a")),
    );
    let expected = let_(
        "a",
        int_lit(1),
        let_rec(vec![closure("f", &["a"], twice("a"))], int_lit(2)),
    );
    assert_eq!(interpreter.compile_expr(&expr), Ok(expected));
    // let a = 1 in let a = f 2 in #Int+ a a
    let expr = let_("a", int_lit(1), let_("a", call("f", vec![int_lit(2)]), twice("a")));
    assert_eq!(interpreter.compile_expr(&expr), Ok(expr.clone()));
}

#[test]
fn interpreter_projects_fields_of_known_records() {
    let db = no_modules();
    let env = Env(&db);
    let interpreter = Compiler::new(&env);
    // let r = { x = 1, y = 2 } in match r with | { y } -> #Int+ y 1 end
    let expr = let_(
        "r",
        record(&["x", "y"], vec![int_lit(1), int_lit(2)]),
        match_(
            ident("r"),
            vec![(
                record_pattern(&[("y", None)]),
                call("#Int+", vec![ident("y"), int_lit(1)]),
            )],
        ),
    );
    let expected = let_(
        "r",
        record(&["x", "y"], vec![int_lit(1), int_lit(2)]),
        let_("dummy", int_lit(1), let_("y", int_lit(2), int_lit(3))),
    );
    assert_eq!(interpreter.compile_expr(&expr), Ok(expected));
}

#[test]
fn interpreter_leaves_incomplete_records_alone() {
    let db = no_modules();
    let env = Env(&db);
    let interpreter = Compiler::new(&env);
    // The record has a value that its type has no field for.
    let expr = match_(
        record(&["x"], vec![int_lit(1), call("effect", vec![int_lit(2)])]),
        vec![(record_pattern(&[("x", None)]), ident("x"))],
    );
    assert_eq!(interpreter.compile_expr(&expr), Ok(expr.clone()));
}

#[test]
fn interpreter_respects_the_budget_and_cycles() {
    let db = no_modules();
    let env = Env(&db);
    let big = record(&["x", "y"], vec![int_lit(1), int_lit(2)]);
    // let r = { x = 1, y = 2 } in match r with | { y } -> y end
    let expr = let_(
        "r",
        big.clone(),
        match_(ident("r"), vec![(record_pattern(&[("y", None)]), ident("y"))]),
    );
    let small = Compiler::new(&env).budget(2);
    assert_eq!(small.compile_expr(&expr), Ok(expr.clone()));
    let enough = Compiler::new(&env).budget(3);
    assert_eq!(
        enough.compile_expr(&expr),
        Ok(let_(
            "r",
            big.clone(),
            let_("dummy", int_lit(1), let_("y", int_lit(2), ident("y")))
        ))
    );
    let cyclic = Compiler::new(&env).costs(analyze_costs(&set_of(&["r"]), &expr));
    assert_eq!(cyclic.compile_expr(&expr), Ok(expr.clone()));
}

#[test]
fn interpreter_replaces_calls_of_small_pure_closures() {
    let db = no_modules();
    let env = Env(&db);
    let inc = || closure("inc", &["x"], call("#Int+", vec![ident("x"), int_lit(1)]));
    // let rec inc x = #Int+ x 1 in inc 2
    let expr = let_rec(vec![inc()], call("inc", vec![int_lit(2)]));
    let pure = purity(&expr);
    let interpreter = Compiler::new(&env).pure_symbols(&pure);
    assert_eq!(interpreter.compile_expr(&expr), Ok(let_rec(vec![inc()], int_lit(3))));
    // Without the purity analysis no closure is known to be pure.
    assert_eq!(Compiler::new(&env).compile_expr(&expr), Ok(expr.clone()));
    // The whole pipeline then drops the closure.
    assert_eq!(*optimize(&env, &expr).value.expr(), int_lit(3));

    // A local symbol that is bound to a value counts as that value.
    let expr = let_("a", int_lit(2), let_rec(vec![inc()], call("inc", vec![ident("a")])));
    let pure = purity(&expr);
    let interpreter = Compiler::new(&env).pure_symbols(&pure);
    assert_eq!(
        interpreter.compile_expr(&expr),
        Ok(let_("a", int_lit(2), let_rec(vec![inc()], int_lit(3))))
    );

    // An argument that is not a value stays where it is.
    let expr = let_rec(vec![inc()], call("inc", vec![call("f", vec![int_lit(2)])]));
    let pure = purity(&expr);
    let interpreter = Compiler::new(&env).pure_symbols(&pure);
    assert_eq!(interpreter.compile_expr(&expr), Ok(expr.clone()));

    // So does a call with another number of arguments.
    let expr = let_rec(vec![inc()], call("inc", vec![int_lit(2), int_lit(3)]));
    let pure = purity(&expr);
    let interpreter = Compiler::new(&env).pure_symbols(&pure);
    assert_eq!(interpreter.compile_expr(&expr), Ok(expr.clone()));

    // A body that is a parameter gives the argument.
    let expr = let_rec(
        vec![closure("second", &["a", "b"], ident("b"))],
        call("g", vec![call("second", vec![int_lit(1), int_lit(2)])]),
    );
    let pure = purity(&expr);
    let interpreter = Compiler::new(&env).pure_symbols(&pure);
    assert_eq!(
        interpreter.compile_expr(&expr),
        Ok(let_rec(
            vec![closure("second", &["a", "b"], ident("b"))],
            call("g", vec![int_lit(2)])
        ))
    );
}

#[test]
fn interpreter_keeps_calls_that_it_cannot_replace() {
    let db = no_modules();
    let env = Env(&db);
    // A closure with an effect.
    let expr = let_rec(
        vec![closure("log", &["x"], call("effect", vec![ident("x")]))],
        call("log", vec![int_lit(2)]),
    );
    let pure = purity(&expr);
    let interpreter = Compiler::new(&env).pure_symbols(&pure);
    assert_eq!(interpreter.compile_expr(&expr), Ok(expr.clone()));

    // A closure that calls itself.
    let expr = let_rec(
        vec![closure("loop", &["x"], call("loop", vec![ident("x")]))],
        call("loop", vec![int_lit(2)]),
    );
    let pure = purity(&expr);
    let interpreter = Compiler::new(&env).pure_symbols(&pure);
    assert_eq!(interpreter.compile_expr(&expr), Ok(expr.clone()));

    // A closure whose body binds something.
    let expr = let_rec(
        vec![closure("f", &["x"], let_("y", call("g", vec![ident("x")]), ident("y")))],
        call("f", vec![int_lit(2)]),
    );
    let pure = purity(&expr);
    let interpreter = Compiler::new(&env).pure_symbols(&pure);
    assert_eq!(interpreter.compile_expr(&expr), Ok(expr.clone()));

    // A closure whose body reads something local.
    let expr = let_(
        "k",
        call("g", vec![int_lit(0)]),
        let_rec(
            vec![closure("f", &["x"], call("#Int+", vec![ident("x"), ident("k")]))],
            call("f", vec![int_lit(2)]),
        ),
    );
    let pure = purity(&expr);
    let interpreter = Compiler::new(&env).pure_symbols(&pure);
    assert_eq!(interpreter.compile_expr(&expr), Ok(expr.clone()));

    // A closure that is too large for the budget, or marked as cyclic.
    let inc = || closure("inc", &["x"], call("#Int+", vec![ident("x"), int_lit(1)]));
    let expr = let_rec(vec![inc()], call("inc", vec![int_lit(2)]));
    let pure = purity(&expr);
    let interpreter = Compiler::new(&env).pure_symbols(&pure).budget(3);
    assert_eq!(interpreter.compile_expr(&expr), Ok(expr.clone()));
    let interpreter = Compiler::new(&env)
        .pure_symbols(&pure)
        .costs(analyze_costs(&set_of(&["inc"]), &expr));
    assert_eq!(interpreter.compile_expr(&expr), Ok(expr.clone()));

    // A failure in the body is a failure of the whole.
    let expr = let_rec(vec![inc()], call("inc", vec![int_lit(i64::MAX)]));
    let pure = purity(&expr);
    let interpreter = Compiler::new(&env).pure_symbols(&pure);
    assert_eq!(interpreter.compile_expr(&expr), Err(InterpreterError::Overflow));
}

#[test]
fn interpreter_inlines_across_modules() {
    let mut db = no_modules();
    db.set_core_expr(
        "config".to_string(),
        Global { value: freeze_expr(&int_lit(42)), info: Arc::new(OptimizerInfo::empty()) },
    );
    db.set_core_expr(
        "lib".to_string(),
        Global {
            value: freeze_expr(&call("f", vec![int_lit(1)])),
            info: Arc::new(OptimizerInfo::empty()),
        },
    );
    let env = Env(&db);
    assert!(env.find_expr(&Symbol::from("@config")).is_some());
    assert!(env.find_expr(&Symbol::from("config")).is_none());
    assert!(env.find_expr(&Symbol::from("@other")).is_none());
    let interpreter = Compiler::new(&env);
    let expr = call("#Int+", vec![ident("@config"), int_lit(1)]);
    assert_eq!(interpreter.compile_expr(&expr), Ok(int_lit(43)));
    // The value of `lib` is a call: it is not put in the place of the symbol.
    let expr = call("g", vec![ident("@lib"), ident("@missing")]);
    assert_eq!(interpreter.compile_expr(&expr), Ok(expr.clone()));
}

#[test]
fn optimize_runs_the_whole_pipeline() {
    let db = no_modules();
    let env = Env(&db);
    // let a = 1 in let b = 2 in a  ==>  let a = 1 in a
    let expr = let_("a", int_lit(1), let_("b", int_lit(2), ident("a")));
    let result = optimize(&env, &expr);
    assert_eq!(*result.value.expr(), let_("a", int_lit(1), ident("a")));
    assert_eq!(result.info.pure_symbols.get("a"), Some(Pureness::Load));
    assert_eq!(result.info.costs.get("a"), Some(Cost { cost: 1, cyclic: false }));
    assert_eq!(result.info.costs.get("b"), None);

    // match { l = 1, r = effect 2 } with | { l } -> #Int+ l 1 end
    let expr = match_(
        record(&["l", "r"], vec![int_lit(1), call("effect", vec![int_lit(2)])]),
        vec![(
            record_pattern(&[("l", None)]),
            call("#Int+", vec![ident("l"), int_lit(1)]),
        )],
    );
    let result = optimize(&env, &expr);
    let expected = let_("dummy", call("effect", vec![int_lit(2)]), int_lit(2));
    assert_eq!(*result.value.expr(), expected);
}

#[test]
fn optimize_falls_back_when_the_interpreter_fails() {
    let db = no_modules();
    let env = Env(&db);
    // let d = 0 in f (#Int+ MAX 1)
    let overflow = call("f", vec![call("#Int+", vec![int_lit(i64::MAX), int_lit(1)])]);
    let expr = let_("d", int_lit(0), overflow.clone());
    let result = optimize(&env, &expr);
    assert_eq!(*result.value.expr(), overflow);
}

#[test]
fn optimize_is_idempotent_on_examples() {
    let db = no_modules();
    let env = Env(&db);
    let expr = let_(
        "a",
        call("f", vec![int_lit(1)]),
        let_("b", call("#Int+", vec![int_lit(1), int_lit(2)]), call("g", vec![ident("b")])),
    );
    let once = optimize(&env, &expr);
    let twice = optimize(&env, once.value.expr());
    assert_eq!(once.value, twice.value);
}

struct Rename;

impl Visitor for Rename {
    type Producer = SameLifetime;

    // The description of the visitor for proofs; nothing calls it.
    fn rewrites(&self) -> Rewrites {
        unreachable!()
    }

    fn visit_expr(&mut self, expr: &CExpr) -> Option<CExpr> {
        match &**expr {
            Expr::Ident(id, span) if id.name.as_str() == "old" => Some(Arc::new(Expr::Ident(
                TypedIdent::new(Symbol::from("new"), id.typ.clone()),
                *span,
            ))),
            _ => None,
        }
    }

    fn visit_binding(&mut self, symbol: &Symbol) -> Option<Symbol> {
        if symbol.as_str() == "old" {
            Some(Symbol::from("new"))
        } else {
            None
        }
    }
}

#[test]
fn walkers_merge_changes() {
    let mut visitor = Rename;
    let unchanged = call("f", vec![int_lit(1), ident("x")]);
    assert_eq!(visit(&mut visitor, &unchanged), None);
    assert_eq!(walk_expr_alloc(&mut visitor, &unchanged), None);
    assert_eq!(walk_expr(&mut visitor, &unchanged), None);

    let kept = int_lit(1);
    let changed = call("f", vec![kept.clone(), ident("old")]);
    let result = visit(&mut visitor, &changed).unwrap();
    assert_eq!(result, call("f", vec![int_lit(1), ident("new")]));
    match &*result {
        Expr::Call(_, args) => assert!(Arc::ptr_eq(&args[0], &kept)),
        _ => panic!("expected a call"),
    }

    let binding = let_("old", ident("old"), ident("old"));
    assert_eq!(
        visit(&mut visitor, &binding),
        Some(let_("new", ident("new"), ident("new")))
    );
    let cast = Arc::new(Expr::Cast(ident("old"), int_type()));
    assert_eq!(
        walk_expr(&mut visitor, &cast),
        Some(Expr::Cast(ident("new"), int_type()))
    );
    let data = record(&["a"], vec![ident("old")]);
    assert_eq!(visit(&mut visitor, &data), Some(record(&["a"], vec![ident("new")])));
    let matched = match_(ident("v"), vec![(Pattern::Ident(typed("old")), ident("old"))]);
    assert_eq!(
        visit(&mut visitor, &matched),
        Some(match_(ident("v"), vec![(Pattern::Ident(typed("old")), ident("new"))]))
    );
}

#[test]
fn walkers_of_bindings_and_patterns() {
    let mut visitor = Rename;
    let bind = LetBinding {
        name: typed("old"),
        expr: Named::Expr(int_lit(1)),
        span_start: BytePos::none(),
    };
    let renamed = walk_bind(&mut visitor, &bind).unwrap();
    assert_eq!(renamed.name, typed("new"));
    assert_eq!(renamed.expr, Named::Expr(int_lit(1)));

    // The name of a recursive group is not visited.
    let group = LetBinding {
        name: typed("old"),
        expr: Named::Recursive(vec![closure("f", &["x"], ident("x"))]),
        span_start: BytePos::none(),
    };
    assert!(walk_bind(&mut visitor, &group).is_none());

    let closures = vec![closure("f", &["x"], ident("old")), closure("g", &["x"], ident("x"))];
    assert_eq!(
        walk_closures(&mut visitor, &closures),
        Some(vec![closure("f", &["x"], ident("new")), closure("g", &["x"], ident("x"))])
    );
    assert_eq!(walk_closures(&mut visitor, &vec![closure("g", &[], ident("x"))]), None);
    assert_eq!(walk_named(&mut visitor, &Named::Expr(ident("x"))), None);
    assert_eq!(
        walk_named(&mut visitor, &Named::Expr(ident("old"))),
        Some(Named::Expr(ident("new")))
    );

    assert_eq!(
        walk_pattern(&mut visitor, &Pattern::Ident(typed("old"))),
        Some(Pattern::Ident(typed("new")))
    );
    assert_eq!(walk_pattern(&mut visitor, &Pattern::Ident(typed("x"))), None);
    assert_eq!(walk_pattern(&mut visitor, &Pattern::Literal(Literal::Int(1))), None);
    assert_eq!(
        walk_pattern(
            &mut visitor,
            &Pattern::Constructor(typed("Cons"), vec![typed("old"), typed("xs")])
        ),
        Some(Pattern::Constructor(typed("Cons"), vec![typed("new"), typed("xs")]))
    );
    assert_eq!(
        walk_pattern(&mut visitor, &record_pattern(&[("old", None), ("b", Some("old")), ("c", None)])),
        Some(record_pattern(&[("old", Some("new")), ("b", Some("new")), ("c", None)]))
    );
    assert_eq!(walk_pattern(&mut visitor, &record_pattern(&[("a", None)])), None);
}

#[test]
fn producers_lift_subtrees() {
    let expr = let_("a", call("f", vec![int_lit(1)]), match_(ident("a"), vec![]));
    let mut same = <SameLifetime as ExprProducer>::new();
    let lifted = same.produce(&expr);
    assert!(Arc::ptr_eq(&lifted, &expr));
    let mut different = <DifferentLifetime as ExprProducer>::new();
    let copied = different.produce(&expr);
    assert_eq!(copied, expr);
    assert!(!Arc::ptr_eq(&copied, &expr));
    match (&*copied, &*expr) {
        (Expr::Let(b1, body1), Expr::Let(b2, body2)) => {
            assert!(!Arc::ptr_eq(b1, b2));
            assert!(!Arc::ptr_eq(body1, body2));
        }
        _ => panic!("expected lets"),
    }
    assert_eq!(copy_expr(&expr), expr);
    let slice = vec![int_lit(1), ident("x")];
    assert_eq!(same.produce_slice(&slice), slice);
    assert_eq!(different.produce_slice(&slice), slice);
    let alt = Alternative { pattern: Pattern::Ident(typed("x")), expr: ident("x") };
    assert_eq!(same.produce_alt(&alt), alt);
    assert_eq!(different.produce_alt(&alt), alt);
    assert_eq!(same.visit_expr(&expr), Some(expr.clone()));
    assert_eq!(different.visit_expr(&expr), Some(expr.clone()));
    assert_eq!(different.visit_binding(&Symbol::from("a")), None);
    let produced: CExpr = Produce::<SameLifetime, CExpr>::produce_with(&expr, &mut same);
    assert!(Arc::ptr_eq(&produced, &expr));
    let node: Expr = Produce::<SameLifetime, CExpr>::produce_with(&expr, &mut same);
    assert_eq!(node, *expr);
}

#[test]
fn merge_functions() {
    let slice = vec![int_lit(1), int_lit(2), int_lit(3)];
    let none: Option<Vec<CExpr>> = merge_slice(&slice, |_e: &CExpr| None);
    assert_eq!(none, None);
    let some: Option<Vec<CExpr>> = merge_slice(&slice, |e: &CExpr| match &**e {
        Expr::Const(Literal::Int(2), _) => Some(int_lit(20)),
        _ => None,
    });
    let merged = some.unwrap();
    assert_eq!(merged, vec![int_lit(1), int_lit(20), int_lit(3)]);
    assert!(Arc::ptr_eq(&merged[0], &slice[0]));
    let copied: Option<Vec<CExpr>> =
        merge_slice_produce::<DifferentLifetime, CExpr, CExpr, _>(&slice, |e: &CExpr| match &**e {
            Expr::Const(Literal::Int(2), _) => Some(int_lit(20)),
            _ => None,
        });
    let copied = copied.unwrap();
    assert_eq!(copied, vec![int_lit(1), int_lit(20), int_lit(3)]);
    assert!(!Arc::ptr_eq(&copied[0], &slice[0]));
    let empty: Vec<CExpr> = vec![];
    let nothing: Option<Vec<CExpr>> = merge_slice(&empty, |e: &CExpr| Some(e.clone()));
    assert_eq!(nothing, None);

    let scrutinee = ident("v");
    let alts = vec![Alternative { pattern: Pattern::Ident(typed("x")), expr: ident("x") }];
    assert_eq!(merge_match(&scrutinee, None, &alts, None), None);
    assert_eq!(
        merge_match(&scrutinee, Some(ident("w")), &alts, None),
        Some(match_(ident("w"), vec![(Pattern::Ident(typed("x")), ident("x"))]))
    );
    let new_alts = vec![Alternative { pattern: Pattern::Ident(typed("y")), expr: ident("y") }];
    assert_eq!(
        merge_match(&scrutinee, None, &alts, Some(new_alts)),
        Some(match_(ident("v"), vec![(Pattern::Ident(typed("y")), ident("y"))]))
    );
}

fn uses(expr: &CExpr, name: &str) -> bool {
    match &**expr {
        Expr::Const(..) => false,
        Expr::Ident(id, _) => id.name.as_str() == name,
        Expr::Data(_, args, _) => args.iter().any(|arg| uses(arg, name)),
        Expr::Call(f, args) => uses(f, name) || args.iter().any(|arg| uses(arg, name)),
        Expr::Let(bind, body) => {
            let bound = match &bind.expr {
                Named::Expr(rhs) => uses(rhs, name),
                Named::Recursive(closures) => closures.iter().any(|c| uses(&c.expr, name)),
            };
            bound || uses(body, name)
        }
        Expr::Match(scrutinee, alts) => {
            uses(scrutinee, name) || alts.iter().any(|alt| uses(&alt.expr, name))
        }
        Expr::Cast(inner, _) => uses(inner, name),
    }
}

#[test]
fn optimize_introduces_no_use_of_a_local_symbol() {
    let db = no_modules();
    let env = Env(&db);
    let inc = closure("inc", &["x"], call("#Int+", vec![ident("x"), int_lit(1)]));
    // let a = 2 in let rec inc x = #Int+ x 1 in
    // match { l = inc a, r = a } with | { l } -> f l k end
    let expr = let_(
        "a",
        int_lit(2),
        let_rec(
            vec![inc],
            match_(
                record(&["l", "r"], vec![call("inc", vec![ident("a")]), ident("a")]),
                vec![(record_pattern(&[("l", None)]), call("f", vec![ident("l"), ident("k")]))],
            ),
        ),
    );
    let result = optimize(&env, &expr);
    let optimized = result.value.expr();
    for name in ["a", "inc", "x", "l", "r", "f", "k", "dummy"] {
        assert!(!uses(optimized, name) || uses(&expr, name), "{}", name);
    }
    assert!(uses(optimized, "k"));
    assert!(!uses(optimized, "inc"));
}
