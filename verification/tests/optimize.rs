use std::sync::Arc;

use gluon_core::base::pos::{BytePos, Span};
use gluon_core::base::symbol::Symbol;
use gluon_core::base::types::{ArcType, Field, Type, TypedIdent};
use gluon_core::ir::expr::{Alternative, CExpr, Expr, LetBinding, Literal, Named, Pattern};
use gluon_core::ir::optimize::optimize_unnecessary_allocation;

fn int_type() -> ArcType {
    Type::ident("Int")
}

fn typed(name: &str, typ: ArcType) -> TypedIdent {
    TypedIdent::new(Symbol::from(name), typ)
}

fn ident(name: &str) -> CExpr {
    Arc::new(Expr::Ident(typed(name, int_type()), Span::none()))
}

fn int_lit(i: i64) -> CExpr {
    Arc::new(Expr::Const(Literal::Int(i), Span::none()))
}

fn let_(name: &str, value: CExpr, body: CExpr) -> CExpr {
    Arc::new(Expr::Let(
        Arc::new(LetBinding {
            name: typed(name, int_type()),
            expr: Named::Expr(value),
            span_start: BytePos::none(),
        }),
        body,
    ))
}

fn record_type(fields: &[&str]) -> ArcType {
    Type::record(
        vec![],
        fields.iter().map(|f| Field::new(f, int_type())).collect(),
    )
}

fn record(fields: &[&str], values: Vec<CExpr>) -> CExpr {
    Arc::new(Expr::Data(
        typed("", record_type(fields)),
        values,
        BytePos::none(),
    ))
}

fn record_pattern(fields: &[(&str, Option<&str>)]) -> Pattern {
    Pattern::Record(
        fields
            .iter()
            .map(|(f, b)| (typed(f, int_type()), b.map(Symbol::from)))
            .collect(),
    )
}

fn match_(scrutinee: CExpr, alts: Vec<(Pattern, CExpr)>) -> CExpr {
    Arc::new(Expr::Match(
        scrutinee,
        alts.into_iter()
            .map(|(pattern, expr)| Alternative { pattern, expr })
            .collect(),
    ))
}

#[test]
fn unnecessary_allocation() {
    // match { l, r } with | { l, r } -> l end
    let initial = match_(
        record(&["l", "r"], vec![ident("l"), ident("r")]),
        vec![(record_pattern(&[("l", None), ("r", None)]), ident("l"))],
    );
    // let l = l in let r = r in l
    let expected = let_("l", ident("l"), let_("r", ident("r"), ident("l")));
    assert_eq!(optimize_unnecessary_allocation(&initial), expected);
}

#[test]
fn unnecessary_allocation_binds_absent_fields_as_dummy() {
    let initial = match_(
        record(&["l", "r"], vec![int_lit(1), int_lit(2)]),
        vec![(record_pattern(&[("r", Some("x"))]), ident("x"))],
    );
    let expected = let_("dummy", int_lit(1), let_("x", int_lit(2), ident("x")));
    assert_eq!(optimize_unnecessary_allocation(&initial), expected);
}

#[test]
fn unnecessary_allocation_keeps_other_shapes() {
    let two_alternatives = match_(
        record(&["l"], vec![int_lit(1)]),
        vec![
            (record_pattern(&[("l", None)]), ident("l")),
            (Pattern::Ident(typed("other", int_type())), int_lit(0)),
        ],
    );
    let result = optimize_unnecessary_allocation(&two_alternatives);
    assert!(Arc::ptr_eq(&result, &two_alternatives));

    let on_identifier = match_(
        ident("v"),
        vec![(record_pattern(&[("l", None)]), ident("l"))],
    );
    let result = optimize_unnecessary_allocation(&on_identifier);
    assert!(Arc::ptr_eq(&result, &on_identifier));
}

#[test]
fn unnecessary_allocation_below_the_root() {
    let inner = match_(
        record(&["l"], vec![int_lit(1)]),
        vec![(record_pattern(&[("l", None)]), ident("l"))],
    );
    let bound = int_lit(7);
    let initial = let_("a", bound.clone(), inner);
    let result = optimize_unnecessary_allocation(&initial);
    let expected = let_("a", int_lit(7), let_("l", int_lit(1), ident("l")));
    assert_eq!(result, expected);
    // The part that did not change is the node that the input holds.
    match &*result {
        Expr::Let(bind, _) => match &bind.expr {
            Named::Expr(e) => assert!(Arc::ptr_eq(e, &bound)),
            _ => panic!("expected a plain binding"),
        },
        _ => panic!("expected a let"),
    }
}
