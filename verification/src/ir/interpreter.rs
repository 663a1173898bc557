//! The simplifying interpreter of the optimizer.
//!
//! It evaluates an expression as far as that can be done before the
//! program runs: integer arithmetic on constants is carried out; the
//! call of a small pure closure with values for arguments is replaced by
//! the body of the closure; a match that takes apart a record whose
//! fields are known binds the fields directly; and the name of a
//! module's global whose value is small is replaced by that value. A
//! local symbol that is bound to a small value which reads nothing
//! local counts as that value in these places. Where it is merely used,
//! it stays.
//!
//! The interpreter fails, and leaves the expression to its caller as it
//! was, where the result of arithmetic on constants does not fit an
//! integer, and where a local binding has the name of a module's global.

use vstd::prelude::*;
use std::sync::Arc;
use crate::base::shared::share;
use crate::base::strings::{starts_with_char, str_eq, strings_view};
use crate::base::symbol::{is_global_name, Symbol};
use crate::base::types::{row_fields, ArcType, TypedIdent, TypedIdentView};
use crate::ir::costs::{capped, cost, expr_cost, Cost, Costs};
use crate::ir::expr::{
    alts_view, closures_view, duplicate_idents, exprs_view, idents_view, record_field_view,
    Alternative, AlternativeView, CExpr, Closure, ClosureView, CoreExpr, Expr, ExprView,
    LetBinding, LetBindingView, Literal, LiteralView, Named, NamedView, Pattern, PatternView,
};
use crate::ir::optimize::{
    bind_fields, bind_record_fields, binding_for_field, or_original, OptimizeEnv,
};
use crate::ir::purity::{is_primitive, Pureness, PurityMap};

verus! {

/// What the interpreter has found out about the symbols of a module,
/// for the use of the modules that import it.
pub struct OptimizerInfo {
    pub pure_symbols: PurityMap,
    pub costs: Costs,
}

pub ghost struct OptimizerInfoView {
    pub pure_symbols: Map<Seq<char>, Pureness>,
    pub costs: Map<Seq<char>, Cost>,
}

impl View for OptimizerInfo {
    type V = OptimizerInfoView;

    open spec fn view(&self) -> OptimizerInfoView {
        OptimizerInfoView { pure_symbols: self.pure_symbols@, costs: self.costs@ }
    }
}

impl OptimizerInfo {
    /// The summary of a module for the modules that import it: the
    /// purity analysis and the cost table that the interpreter worked
    /// with.
    pub fn new(pure_symbols: PurityMap, costs: Costs) -> (r: OptimizerInfo)
        ensures
            r@ == (OptimizerInfoView { pure_symbols: pure_symbols@, costs: costs@ }),
    {
        OptimizerInfo { pure_symbols, costs }
    }

    /// The summary of a module about which nothing is known.
    pub fn empty() -> (r: OptimizerInfo)
        ensures
            r@ == (OptimizerInfoView { pure_symbols: Map::empty(), costs: Map::empty() }),
    {
        OptimizerInfo { pure_symbols: PurityMap::new(), costs: Costs::new() }
    }
}

/// The value of a module as the optimizer leaves it, with the summary
/// for the modules that import it.
pub struct Global<T> {
    pub value: T,
    pub info: Arc<OptimizerInfo>,
}

pub ghost struct GlobalView {
    pub value: ExprView,
    pub info: OptimizerInfoView,
}

impl View for Global<CoreExpr> {
    type V = GlobalView;

    open spec fn view(&self) -> GlobalView {
        GlobalView { value: self.value@, info: self.info@ }
    }
}

impl Global<CoreExpr> {
    pub fn duplicate(&self) -> (r: Global<CoreExpr>)
        ensures
            r@ == self@,
    {
        Global { value: self.value.duplicate(), info: share(&self.info) }
    }
}

/// Why the interpreter gave up.
#[derive(Clone, Copy, Debug, PartialEq, Eq, Structural)]
pub enum InterpreterError {
    /// The result of arithmetic on constants does not fit an integer.
    Overflow,
    /// A local binding has the name of a module's global.
    ResolvedBinder,
}

/// The most nodes that a value may have for the interpreter to work
/// with it in the place of a symbol, unless another limit is set.
pub const DEFAULT_BUDGET: u32 = 20;

/// What the interpreter knows of a local symbol.
pub ghost enum KnownView {
    /// The value that the symbol is bound to. Arithmetic, calls and
    /// matches on the symbol work on this value; a mere use of the
    /// symbol stays.
    Value(ExprView),
    /// The argument that stands in the place of the symbol, a parameter
    /// of a closure whose body takes the place of a call.
    Argument(ExprView),
    /// The symbol is a closure with these parameters and this body, a
    /// call of which can be replaced by the body.
    Closure(Seq<Seq<char>>, ExprView),
}

/// What the interpreter works with besides the expression: the cost
/// table, the limit on the size of what is inlined, and the purity
/// analysis.
pub ghost struct Limits {
    pub costs: Map<Seq<char>, Cost>,
    pub budget: nat,
    pub pure: Map<Seq<char>, Pureness>,
}

/// What is in scope: each local symbol with what is known of it, if
/// anything. A later entry hides an earlier one of the same name.
pub type ScopeView = Seq<(Seq<char>, Option<KnownView>)>;

/// The entry for `name` among the first `n` entries of `scope`.
pub open spec fn lookup(scope: ScopeView, name: Seq<char>, n: int) -> Option<Option<KnownView>>
    decreases n,
{
    if n <= 0 || n > scope.len() {
        None
    } else if scope[n - 1].0 == name {
        Some(scope[n - 1].1)
    } else {
        lookup(scope, name, n - 1)
    }
}

/// Whether `e` is a value that reads nothing local: a constant, the name
/// of a global or of a primitive, or data built from such values.
pub open spec fn atom(e: ExprView) -> bool
    decreases e,
{
    match e {
        ExprView::Const(_, _) => true,
        ExprView::Ident(id, _) => is_global_name(id.name) || is_primitive(id.name),
        ExprView::Data(_, args, _) => forall|i: int| 0 <= i < args.len() ==> atom(#[trigger] args[i]),
        _ => false,
    }
}

/// Whether `e` is a value that the interpreter works with in the place
/// of a symbol: it reads nothing local, and its cost, as the cost
/// analysis counts it, is within the budget.
pub open spec fn inlinable(budget: nat, e: ExprView) -> bool {
    atom(e) && capped(expr_cost(e)) <= budget
}

/// The value that `e` counts as in arithmetic, calls and matches: the
/// value that the scope knows for it where `e` is a local symbol, else
/// `e`.
pub open spec fn resolved(scope: ScopeView, e: ExprView) -> ExprView {
    match e {
        ExprView::Ident(id, _) => match lookup(scope, id.name, scope.len() as int) {
            Some(Some(KnownView::Value(value))) => value,
            Some(Some(KnownView::Argument(value))) => value,
            _ => e,
        },
        _ => e,
    }
}

/// The values that the expressions `s` count as, one by one.
pub open spec fn resolved_all(scope: ScopeView, s: Seq<ExprView>) -> Seq<ExprView> {
    Seq::new(s.len(), |i: int| resolved(scope, s[i]))
}

/// What is known of the symbol `name`, bound to the value `e`: `e`
/// itself where it reads nothing local and is within the budget, and
/// the cost analysis has not marked the symbol as cyclic.
pub open spec fn known(limits: Limits, name: Seq<char>, e: ExprView) -> Option<KnownView> {
    if inlinable(limits.budget, e) && !(limits.costs.contains_key(name)
        && limits.costs[name].cyclic) {
        Some(KnownView::Value(e))
    } else {
        None
    }
}

/// Whether `e` can take the place of a call: it is built from constants,
/// the parameters `params`, the names of globals and primitives, data,
/// calls and casts, and binds nothing.
pub open spec fn simple_body(params: Seq<Seq<char>>, e: ExprView) -> bool
    decreases e,
{
    match e {
        ExprView::Const(_, _) => true,
        ExprView::Ident(id, _) => params.contains(id.name) || is_global_name(id.name)
            || is_primitive(id.name),
        ExprView::Data(_, args, _) => forall|i: int|
            0 <= i < args.len() ==> simple_body(params, #[trigger] args[i]),
        ExprView::Call(f, args) => simple_body(params, *f) && forall|i: int|
            0 <= i < args.len() ==> simple_body(params, #[trigger] args[i]),
        ExprView::Cast(inner, _) => simple_body(params, *inner),
        _ => false,
    }
}

/// What is known of the closure `c` for the calls in the scope of its
/// group: its parameters and its body, where the closure is proved pure,
/// is not marked as cyclic, and has a body that can take the place of a
/// call and is within the budget.
pub open spec fn known_closure(limits: Limits, c: ClosureView) -> Option<KnownView> {
    let name = c.name.name;
    let params = ident_names(c.args);
    if limits.pure.contains_key(name) && limits.pure[name] == Pureness::Call(
        params.len() as usize,
    ) && !(limits.costs.contains_key(name) && limits.costs[name].cyclic) && simple_body(
        params,
        c.expr,
    ) && capped(expr_cost(c.expr)) <= limits.budget {
        Some(KnownView::Closure(params, c.expr))
    } else {
        None
    }
}

/// The scope with the closures of a group added, each with what is
/// known of it.
pub open spec fn with_closures(limits: Limits, scope: ScopeView, s: Seq<ClosureView>) -> ScopeView {
    scope + Seq::new(s.len(), |i: int| (s[i].name.name, known_closure(limits, s[i])))
}

/// The scope of the body of a closure that takes the place of a call:
/// the parameters, each with its argument.
pub open spec fn with_arguments(params: Seq<Seq<char>>, args: Seq<ExprView>) -> ScopeView {
    Seq::new(params.len(), |i: int| (params[i], Some(KnownView::Argument(args[i]))))
}

/// Whether every argument can be put in the place of a parameter.
pub open spec fn all_inlinable(budget: nat, args: Seq<ExprView>) -> bool {
    forall|i: int| 0 <= i < args.len() ==> inlinable(budget, #[trigger] args[i])
}

/// The closure whose body takes the place of the call of `f` with
/// `args`, where there is one: `f` is a symbol of which the scope knows
/// the closure, the call gives it as many arguments as it has
/// parameters, and each argument can be put in the place of a
/// parameter.
pub open spec fn callee(limits: Limits, scope: ScopeView, f: ExprView, args: Seq<ExprView>) -> Option<
    (Seq<Seq<char>>, ExprView),
> {
    match f {
        ExprView::Ident(id, _) => match lookup(scope, id.name, scope.len() as int) {
            Some(Some(KnownView::Closure(params, body))) => if params.len() == args.len()
                && all_inlinable(limits.budget, args) {
                Some((params, body))
            } else {
                None
            },
            _ => None,
        },
        _ => None,
    }
}

/// The result of the primitive `op` on the integers `a` and `b`: `None`
/// where `op` is no integer arithmetic that the interpreter carries out,
/// `Some(None)` where the result does not fit.
pub open spec fn int_fold(op: Seq<char>, a: i64, b: i64) -> Option<Option<i64>> {
    let r: Option<int> = if op == "#Int+"@ {
        Some(a + b)
    } else if op == "#Int-"@ {
        Some(a - b)
    } else if op == "#Int*"@ {
        Some(a * b)
    } else {
        None
    };
    match r {
        Some(v) => Some(
            if i64::MIN <= v <= i64::MAX {
                Some(v as i64)
            } else {
                None
            },
        ),
        None => None,
    }
}

/// The result of the call of `f` with the values `args`, where it is
/// integer arithmetic on two constants that the interpreter carries
/// out: the constant, or the failure where the result does not fit.
pub open spec fn folded(f: ExprView, args: Seq<ExprView>) -> Option<
    Result<ExprView, InterpreterError>,
> {
    match f {
        ExprView::Ident(op, _) => if args.len() == 2 {
            match (args[0], args[1]) {
                (
                    ExprView::Const(LiteralView::Int(a), span),
                    ExprView::Const(LiteralView::Int(b), _),
                ) => match int_fold(op.name, a, b) {
                    Some(Some(c)) => Some(Ok(ExprView::Const(LiteralView::Int(c), span))),
                    Some(None) => Some(Err(InterpreterError::Overflow)),
                    None => None,
                },
                _ => None,
            }
        } else {
            None
        },
        _ => None,
    }
}

/// The call of `f` with `args` in `scope`, carried out where it is
/// integer arithmetic on two constants, which the arguments are or
/// count as. Any other call stays as it is.
pub open spec fn fold_call(scope: ScopeView, f: ExprView, args: Seq<ExprView>) -> Result<
    ExprView,
    InterpreterError,
> {
    match folded(f, resolved_all(scope, args)) {
        Some(r) => r,
        None => Ok(ExprView::Call(Box::new(f), args)),
    }
}

/// The symbols that a pattern binds, in order.
pub open spec fn pattern_binders(p: PatternView) -> Seq<Seq<char>> {
    match p {
        PatternView::Ident(id) => seq![id.name],
        PatternView::Literal(_) => Seq::empty(),
        PatternView::Constructor(_, fields) => Seq::new(fields.len(), |i: int| fields[i].name),
        PatternView::Record(fields) => Seq::new(
            fields.len(),
            |i: int| or_original(fields[i].0.name, fields[i].1),
        ),
    }
}

pub open spec fn ident_names(s: Seq<TypedIdentView>) -> Seq<Seq<char>> {
    Seq::new(s.len(), |i: int| s[i].name)
}

pub open spec fn closure_names(s: Seq<ClosureView>) -> Seq<Seq<char>> {
    Seq::new(s.len(), |i: int| s[i].name.name)
}

/// Whether one of the names is that of a module's global.
pub open spec fn any_global(names: Seq<Seq<char>>) -> bool {
    exists|i: int| 0 <= i < names.len() && is_global_name(#[trigger] names[i])
}

/// The scope with the symbols `names` added, of which nothing is known.
pub open spec fn with_unknown(scope: ScopeView, names: Seq<Seq<char>>) -> ScopeView {
    scope + Seq::new(names.len(), |i: int| (names[i], None::<KnownView>))
}

/// The number of fields that a record of the type with the fields `row`
/// and the values `exprs` binds.
pub open spec fn bound_count(row_len: nat, exprs_len: nat) -> nat {
    if row_len < exprs_len {
        row_len
    } else {
        exprs_len
    }
}

/// The symbols that the let bindings for a record bind, in order.
pub open spec fn field_binders(
    row: Seq<crate::base::types::FieldView>,
    exprs: Seq<ExprView>,
    fields: Seq<(TypedIdentView, Option<Seq<char>>)>,
) -> Seq<Seq<char>> {
    Seq::new(bound_count(row.len(), exprs.len()), |i: int| binding_for_field(fields, row[i].name, 0))
}

/// The scope with the fields of a record added, each with what is known
/// of it by the value `exprs` has for it.
pub open spec fn with_fields(
    limits: Limits,
    scope: ScopeView,
    row: Seq<crate::base::types::FieldView>,
    exprs: Seq<ExprView>,
    fields: Seq<(TypedIdentView, Option<Seq<char>>)>,
) -> ScopeView {
    scope + Seq::new(
        bound_count(row.len(), exprs.len()),
        |i: int|
            (
                binding_for_field(fields, row[i].name, 0),
                known(limits, binding_for_field(fields, row[i].name, 0), exprs[i]),
            ),
    )
}

/// The record pattern of the single alternative of a match, where the
/// match has that form.
pub open spec fn single_record_pattern(alts: Seq<AlternativeView>) -> Option<
    Seq<(TypedIdentView, Option<Seq<char>>)>,
> {
    if alts.len() == 1 {
        match alts[0].pattern {
            PatternView::Record(fields) => Some(fields),
            _ => None,
        }
    } else {
        None
    }
}

/// What stands in the place of a use of the symbol `name`, written as
/// the expression `e`: the argument, where the symbol is a parameter of
/// a closure whose body takes the place of a call; the value of the
/// module's global of that name, where nothing local has the name and
/// the value can be inlined; else `e`.
pub open spec fn interp_ident<E: OptimizeEnv>(
    globals: &E,
    budget: nat,
    scope: ScopeView,
    e: ExprView,
    name: Seq<char>,
) -> ExprView {
    match lookup(scope, name, scope.len() as int) {
        Some(Some(KnownView::Argument(value))) => value,
        Some(_) => e,
        None => match globals.find_expr_spec(name) {
            Some(g) => if is_global_name(name) && inlinable(budget, g.value) {
                g.value
            } else {
                e
            },
            None => e,
        },
    }
}

/// What the interpreter makes of `e` in `scope`, with the modules that
/// `globals` knows and within the limits `limits`, where it may still
/// put the body of a closure in the place of a call `depth` times inside
/// each other.
pub open spec fn interp<E: OptimizeEnv>(
    globals: &E,
    limits: Limits,
    depth: nat,
    scope: ScopeView,
    e: ExprView,
) -> Result<ExprView, InterpreterError>
    decreases depth, e, 1int,
{
    match e {
        ExprView::Const(_, _) => Ok(e),
        ExprView::Ident(id, _) => Ok(interp_ident(globals, limits.budget, scope, e, id.name)),
        ExprView::Data(id, args, pos) => match interp_from(globals, limits, depth, scope, args, 0) {
            Ok(new_args) => Ok(ExprView::Data(id, new_args, pos)),
            Err(err) => Err(err),
        },
        ExprView::Call(_, _) => interp_call(globals, limits, depth, scope, e),
        ExprView::Let(bind, _) => match bind.expr {
            NamedView::Expr(_) => interp_let(globals, limits, depth, scope, e),
            NamedView::Recursive(_) => interp_rec(globals, limits, depth, scope, e),
        },
        ExprView::Match(_, _) => interp_match(globals, limits, depth, scope, e),
        ExprView::Cast(inner, typ) => match interp(globals, limits, depth, scope, *inner) {
            Ok(new_inner) => Ok(ExprView::Cast(Box::new(new_inner), typ)),
            Err(err) => Err(err),
        },
    }
}

/// What the interpreter makes of a call: the function and the arguments
/// are interpreted first. Where the function is then a symbol of which
/// the scope knows the closure, and each argument is or counts as a
/// value that can be put in the place of a parameter, the call is
/// replaced by the body of the closure, interpreted with these values
/// in the place of its parameters; inside that body no call is
/// replaced. Else the call is carried out where it is integer
/// arithmetic on two constants.
pub open spec fn interp_call<E: OptimizeEnv>(
    globals: &E,
    limits: Limits,
    depth: nat,
    scope: ScopeView,
    e: ExprView,
) -> Result<ExprView, InterpreterError>
    decreases depth, e, 0int,
{
    match e {
        ExprView::Call(f, args) => match interp(globals, limits, depth, scope, *f) {
            Ok(new_f) => match interp_from(globals, limits, depth, scope, args, 0) {
                Ok(new_args) => match callee(
                    limits,
                    scope,
                    new_f,
                    resolved_all(scope, new_args),
                ) {
                    Some((params, body)) => if depth > 0 {
                        interp(
                            globals,
                            limits,
                            (depth - 1) as nat,
                            with_arguments(params, resolved_all(scope, new_args)),
                            body,
                        )
                    } else {
                        fold_call(scope, new_f, new_args)
                    },
                    None => fold_call(scope, new_f, new_args),
                },
                Err(err) => Err(err),
            },
            Err(err) => Err(err),
        },
        _ => Ok(e),
    }
}

/// What the interpreter makes of a plain let binding: what it binds is
/// interpreted first, and the body with the symbol in scope, known
/// where its value can be inlined.
pub open spec fn interp_let<E: OptimizeEnv>(
    globals: &E,
    limits: Limits,
    depth: nat,
    scope: ScopeView,
    e: ExprView,
) -> Result<ExprView, InterpreterError>
    decreases depth, e, 0int,
{
    match e {
        ExprView::Let(bind, body) => match bind.expr {
            NamedView::Expr(rhs) => if is_global_name(bind.name.name) {
                Err(InterpreterError::ResolvedBinder)
            } else {
                match interp(globals, limits, depth, scope, *rhs) {
                    Ok(new_rhs) => match interp(
                        globals,
                        limits,
                        depth,
                        scope.push(
                            (
                                bind.name.name,
                                known(limits, bind.name.name, resolved(scope, new_rhs)),
                            ),
                        ),
                        *body,
                    ) {
                        Ok(new_body) => Ok(
                            ExprView::Let(
                                Box::new(
                                    LetBindingView {
                                        name: bind.name,
                                        expr: NamedView::Expr(Box::new(new_rhs)),
                                        span_start: bind.span_start,
                                    },
                                ),
                                Box::new(new_body),
                            ),
                        ),
                        Err(err) => Err(err),
                    },
                    Err(err) => Err(err),
                }
            },
            _ => Ok(e),
        },
        _ => Ok(e),
    }
}

/// What the interpreter makes of a recursive group: the bodies of the
/// closures are interpreted with the names of the group in scope, of
/// which nothing is known; the body of the binding is interpreted with
/// what is then known of each closure.
pub open spec fn interp_rec<E: OptimizeEnv>(
    globals: &E,
    limits: Limits,
    depth: nat,
    scope: ScopeView,
    e: ExprView,
) -> Result<ExprView, InterpreterError>
    decreases depth, e, 0int,
{
    match e {
        ExprView::Let(bind, body) => match bind.expr {
            NamedView::Recursive(closures) => if any_global(closure_names(closures)) {
                Err(InterpreterError::ResolvedBinder)
            } else {
                let inner = with_unknown(scope, closure_names(closures));
                match interp_closures(globals, limits, depth, inner, closures, 0) {
                    Ok(new_closures) => match interp(
                        globals,
                        limits,
                        depth,
                        with_closures(limits, scope, new_closures),
                        *body,
                    ) {
                        Ok(new_body) => Ok(
                            ExprView::Let(
                                Box::new(
                                    LetBindingView {
                                        name: bind.name,
                                        expr: NamedView::Recursive(new_closures),
                                        span_start: bind.span_start,
                                    },
                                ),
                                Box::new(new_body),
                            ),
                        ),
                        Err(err) => Err(err),
                    },
                    Err(err) => Err(err),
                }
            },
            _ => Ok(e),
        },
        _ => Ok(e),
    }
}

/// What the interpreter makes of the match on a record with the field
/// values `exprs`, of the type with the fields `row`, by the single
/// record pattern `fields`: the body is interpreted with the fields in
/// scope and put inside the let bindings of the fields.
pub open spec fn interp_projection<E: OptimizeEnv>(
    globals: &E,
    limits: Limits,
    depth: nat,
    scope: ScopeView,
    row: Seq<crate::base::types::FieldView>,
    exprs: Seq<ExprView>,
    fields: Seq<(TypedIdentView, Option<Seq<char>>)>,
    body: ExprView,
) -> Result<ExprView, InterpreterError>
    decreases depth, body, 2int,
{
    if any_global(field_binders(row, exprs, fields)) {
        Err(InterpreterError::ResolvedBinder)
    } else {
        match interp(
            globals,
            limits,
            depth,
            with_fields(limits, scope, row, resolved_all(scope, exprs), fields),
            body,
        ) {
            Ok(new_body) => Ok(bind_fields(row, exprs, fields, new_body, 0)),
            Err(err) => Err(err),
        }
    }
}

/// The fields of the type, the field values and the record pattern of a
/// match whose fields can be bound directly: the scrutinee is a record
/// with a value for each field of its type, and the match has a single
/// alternative with a record pattern.
pub open spec fn projection(scrutinee: ExprView, alts: Seq<AlternativeView>) -> Option<
    (
        Seq<crate::base::types::FieldView>,
        Seq<ExprView>,
        Seq<(TypedIdentView, Option<Seq<char>>)>,
    ),
> {
    match (scrutinee, single_record_pattern(alts)) {
        (ExprView::Data(id, exprs, _), Some(fields)) => if row_fields(id.typ).len()
            == exprs.len() {
            Some((row_fields(id.typ), exprs, fields))
        } else {
            None
        },
        _ => None,
    }
}

/// What the interpreter makes of a match: the scrutinee is interpreted
/// first. Where that is or counts as a record with a value for each
/// field of its type, and the match has a single alternative with a
/// record pattern, the fields are bound directly.
/// Else each alternative is interpreted with the symbols of its pattern
/// in scope, of which nothing is known.
pub open spec fn interp_match<E: OptimizeEnv>(
    globals: &E,
    limits: Limits,
    depth: nat,
    scope: ScopeView,
    e: ExprView,
) -> Result<ExprView, InterpreterError>
    decreases depth, e, 0int,
{
    match e {
        ExprView::Match(scrutinee, alts) => match interp(globals, limits, depth, scope, *scrutinee) {
            Ok(new_scrutinee) => match projection(resolved(scope, new_scrutinee), alts) {
                Some((row, exprs, fields)) => interp_projection(
                    globals,
                    limits,
                    depth,
                    scope,
                    row,
                    exprs,
                    fields,
                    alts[0].expr,
                ),
                None => match interp_alts(globals, limits, depth, scope, alts, 0) {
                    Ok(new_alts) => Ok(ExprView::Match(Box::new(new_scrutinee), new_alts)),
                    Err(err) => Err(err),
                },
            },
            Err(err) => Err(err),
        },
        _ => Ok(e),
    }
}

/// A list with the items `done` in front of those of `rest`, where
/// `rest` is one.
pub open spec fn prepend<A>(done: Seq<A>, rest: Result<Seq<A>, InterpreterError>) -> Result<
    Seq<A>,
    InterpreterError,
> {
    match rest {
        Ok(r) => Ok(done + r),
        Err(err) => Err(err),
    }
}

pub open spec fn interp_from<E: OptimizeEnv>(
    globals: &E,
    limits: Limits,
    depth: nat,
    scope: ScopeView,
    s: Seq<ExprView>,
    from: int,
) -> Result<Seq<ExprView>, InterpreterError>
    decreases depth, s, s.len() - from,
{
    if 0 <= from < s.len() {
        match interp(globals, limits, depth, scope, s[from]) {
            Ok(x) => prepend(seq![x], interp_from(globals, limits, depth, scope, s, from + 1)),
            Err(err) => Err(err),
        }
    } else {
        Ok(Seq::empty())
    }
}

pub open spec fn interp_alts<E: OptimizeEnv>(
    globals: &E,
    limits: Limits,
    depth: nat,
    scope: ScopeView,
    s: Seq<AlternativeView>,
    from: int,
) -> Result<Seq<AlternativeView>, InterpreterError>
    decreases depth, s, s.len() - from,
{
    if 0 <= from < s.len() {
        if any_global(pattern_binders(s[from].pattern)) {
            Err(InterpreterError::ResolvedBinder)
        } else {
            match interp(
                globals,
                limits,
                depth,
                with_unknown(scope, pattern_binders(s[from].pattern)),
                s[from].expr,
            ) {
                Ok(x) => prepend(
                    seq![AlternativeView { pattern: s[from].pattern, expr: x }],
                    interp_alts(globals, limits, depth, scope, s, from + 1),
                ),
                Err(err) => Err(err),
            }
        }
    } else {
        Ok(Seq::empty())
    }
}

pub open spec fn interp_closures<E: OptimizeEnv>(
    globals: &E,
    limits: Limits,
    depth: nat,
    scope: ScopeView,
    s: Seq<ClosureView>,
    from: int,
) -> Result<Seq<ClosureView>, InterpreterError>
    decreases depth, s, s.len() - from,
{
    if 0 <= from < s.len() {
        if any_global(ident_names(s[from].args)) {
            Err(InterpreterError::ResolvedBinder)
        } else {
            match interp(
                globals,
                limits,
                depth,
                with_unknown(scope, ident_names(s[from].args)),
                s[from].expr,
            ) {
                Ok(x) => prepend(
                    seq![
                        ClosureView {
                            pos: s[from].pos,
                            name: s[from].name,
                            args: s[from].args,
                            expr: x,
                        },
                    ],
                    interp_closures(globals, limits, depth, scope, s, from + 1),
                ),
                Err(err) => Err(err),
            }
        }
    } else {
        Ok(Seq::empty())
    }
}

/// What the interpreter knows of a local symbol.
pub enum Known {
    /// The value that the symbol is bound to.
    Value(CExpr),
    /// The argument that stands in the place of the symbol.
    Argument(CExpr),
    /// The parameters and the body of the closure that the symbol names.
    Closure(Vec<String>, CExpr),
}

impl View for Known {
    type V = KnownView;

    open spec fn view(&self) -> KnownView {
        match self {
            Known::Value(e) => KnownView::Value(e@),
            Known::Argument(e) => KnownView::Argument(e@),
            Known::Closure(params, body) => KnownView::Closure(
                strings_view(params@),
                body@,
            ),
        }
    }
}

impl Known {
    fn duplicate(&self) -> (r: Known)
        ensures
            r@ == self@,
    {
        match self {
            Known::Value(e) => Known::Value(share(e)),
            Known::Argument(e) => Known::Argument(share(e)),
            Known::Closure(params, body) => {
                let mut names: Vec<String> = Vec::new();
                let mut i: usize = 0;
                while i < params.len()
                    invariant
                        i <= params.len(),
                        names@.len() == i,
                        forall|j: int| 0 <= j < i ==> names@[j] == params@[j],
                    decreases params.len() - i,
                {
                    names.push(params[i].clone());
                    i += 1;
                }
                let r = Known::Closure(names, share(body));
                assert(r@->Closure_0 =~= self@->Closure_0);
                r
            },
        }
    }
}

/// An entry of the interpreter's scope.
pub type Binding = (String, Option<Known>);

pub open spec fn known_view(k: Option<Known>) -> Option<KnownView> {
    match k {
        Some(k) => Some(k@),
        None => None,
    }
}

pub open spec fn binding_view(b: Binding) -> (Seq<char>, Option<KnownView>) {
    (b.0@, known_view(b.1))
}

pub open spec fn scope_view(s: Seq<Binding>) -> ScopeView {
    Seq::new(s.len(), |i: int| binding_view(s[i]))
}

pub open spec fn result_view(r: Result<CExpr, InterpreterError>) -> Result<
    ExprView,
    InterpreterError,
> {
    match r {
        Ok(e) => Ok(e@),
        Err(err) => Err(err),
    }
}

/// Whether `e` is a value that reads nothing local.
pub fn is_atom(e: &Expr) -> (r: bool)
    ensures
        r == atom(e@),
    decreases e, 0int,
{
    match e {
        Expr::Const(_, _) => true,
        Expr::Ident(id, _) => id.name.is_global() || starts_with_char(id.name.as_str(), '#'),
        Expr::Data(_, args, _) => {
            let r = all_atoms(args);
            assert(e@->Data_1 == exprs_view(args@));
            r
        },
        _ => false,
    }
}

fn all_atoms(args: &Vec<CExpr>) -> (r: bool)
    ensures
        r == forall|i: int| 0 <= i < args@.len() ==> atom(#[trigger] exprs_view(args@)[i]),
    decreases args, 1int,
{
    let ghost views = exprs_view(args@);
    let mut i: usize = 0;
    while i < args.len()
        invariant
            i <= args.len(),
            views == exprs_view(args@),
            forall|j: int| 0 <= j < i ==> atom(#[trigger] views[j]),
        decreases args.len() - i,
    {
        assert(views[i as int] == args@[i as int]@);
        if !is_atom(&*args[i]) {
            return false;
        }
        i += 1;
    }
    true
}

/// Takes the scope back to its first `base` entries.
fn restore(scope: &mut Vec<Binding>, base: usize)
    requires
        base <= old(scope)@.len(),
    ensures
        scope_view(final(scope)@) == scope_view(old(scope)@).take(base as int),
{
    scope.truncate(base);
    assert(scope_view(scope@) =~= scope_view(old(scope)@).take(base as int));
}

/// The entry for `name` in `scope`.
fn find(scope: &Vec<Binding>, name: &str) -> (r: Option<Option<Known>>)
    ensures
        match r {
            Some(k) => Some(known_view(k)),
            None => None,
        } == lookup(scope_view(scope@), name@, scope@.len() as int),
{
    let ghost views = scope_view(scope@);
    let mut n: usize = scope.len();
    while n > 0
        invariant
            n <= scope@.len(),
            views == scope_view(scope@),
            lookup(views, name@, scope@.len() as int) == lookup(views, name@, n as int),
        decreases n,
    {
        let entry = &scope[n - 1];
        assert(views[n - 1] == binding_view(*entry));
        if str_eq(entry.0.as_str(), name) {
            return match &entry.1 {
                Some(k) => Some(Some(k.duplicate())),
                None => Some(None),
            };
        }
        n -= 1;
    }
    None
}

/// The value that `e` counts as in `scope`.
fn resolve(scope: &Vec<Binding>, e: &CExpr) -> (r: CExpr)
    ensures
        r@ == resolved(scope_view(scope@), e@),
{
    match &**e {
        Expr::Ident(id, _) => match find(scope, id.name.as_str()) {
            Some(Some(Known::Value(value))) => value,
            Some(Some(Known::Argument(value))) => value,
            _ => share(e),
        },
        _ => share(e),
    }
}

/// The values that the expressions `exprs` count as in `scope`.
fn resolve_all(scope: &Vec<Binding>, exprs: &Vec<CExpr>) -> (r: Vec<CExpr>)
    ensures
        exprs_view(r@) == resolved_all(scope_view(scope@), exprs_view(exprs@)),
{
    let ghost views = exprs_view(exprs@);
    let mut values: Vec<CExpr> = Vec::new();
    let mut i: usize = 0;
    while i < exprs.len()
        invariant
            i <= exprs.len(),
            values@.len() == i,
            views == exprs_view(exprs@),
            forall|j: int|
                0 <= j < i ==> (#[trigger] values@[j])@ == resolved(scope_view(scope@), views[j]),
        decreases exprs.len() - i,
    {
        assert(views[i as int] == exprs@[i as int]@);
        values.push(resolve(scope, &exprs[i]));
        i += 1;
    }
    assert(exprs_view(values@) =~= resolved_all(scope_view(scope@), views));
    values
}

/// Whether `name` is one of `names`.
fn has_name(names: &Vec<String>, name: &str) -> (r: bool)
    ensures
        r == strings_view(names@).contains(name@),
{
    let ghost views = strings_view(names@);
    let mut i: usize = 0;
    while i < names.len()
        invariant
            i <= names.len(),
            views == strings_view(names@),
            forall|j: int| 0 <= j < i ==> views[j] != name@,
        decreases names.len() - i,
    {
        assert(views[i as int] == names@[i as int]@);
        if str_eq(names[i].as_str(), name) {
            assert(views.contains(name@));
            return true;
        }
        i += 1;
    }
    assert(!views.contains(name@));
    false
}

/// Whether `e` can take the place of a call of a closure with the
/// parameters `params`.
fn is_simple(params: &Vec<String>, e: &Expr) -> (r: bool)
    ensures
        r == simple_body(strings_view(params@), e@),
    decreases e, 0int,
{
    let ghost names = strings_view(params@);
    match e {
        Expr::Const(_, _) => true,
        Expr::Ident(id, _) => has_name(params, id.name.as_str()) || id.name.is_global()
            || starts_with_char(id.name.as_str(), '#'),
        Expr::Data(_, args, _) => {
            let r = all_simple(params, args);
            assert(e@->Data_1 == exprs_view(args@));
            r
        },
        Expr::Call(f, args) => {
            let a = is_simple(params, &**f);
            let b = all_simple(params, args);
            let ghost call = ExprView::Call(Box::new(f@), exprs_view(args@));
            assert(e@ == call);
            assert(simple_body(names, call) == (simple_body(names, *call->Call_0) && (forall|
                i: int,
            |
                0 <= i < call->Call_1.len() ==> simple_body(names, #[trigger] call->Call_1[i]))));
            a && b
        },
        Expr::Cast(inner, _) => is_simple(params, &**inner),
        _ => false,
    }
}

fn all_simple(params: &Vec<String>, args: &Vec<CExpr>) -> (r: bool)
    ensures
        r == forall|i: int|
            0 <= i < args@.len() ==> simple_body(
                strings_view(params@),
                #[trigger] exprs_view(args@)[i],
            ),
    decreases args, 1int,
{
    let ghost names = strings_view(params@);
    let ghost views = exprs_view(args@);
    let mut i: usize = 0;
    while i < args.len()
        invariant
            i <= args.len(),
            views == exprs_view(args@),
            names == strings_view(params@),
            forall|j: int| 0 <= j < i ==> simple_body(names, #[trigger] views[j]),
        decreases args.len() - i,
    {
        assert(views[i as int] == args@[i as int]@);
        if !is_simple(params, &*args[i]) {
            return false;
        }
        i += 1;
    }
    true
}

/// Whether `op` with the constants `a` and `b` is integer arithmetic,
/// and its result where that fits.
fn fold_int(op: &str, a: i64, b: i64) -> (r: Option<Option<i64>>)
    ensures
        r == int_fold(op@, a, b),
{
    if str_eq(op, "#Int+") {
        Some(a.checked_add(b))
    } else if str_eq(op, "#Int-") {
        Some(a.checked_sub(b))
    } else if str_eq(op, "#Int*") {
        Some(a.checked_mul(b))
    } else {
        None
    }
}

/// The call of `f` with `args` in `scope`, carried out where it is
/// integer arithmetic on two constants.
fn fold(scope: &Vec<Binding>, f: CExpr, args: Vec<CExpr>) -> (r: Result<CExpr, InterpreterError>)
    ensures
        result_view(r) == fold_call(scope_view(scope@), f@, exprs_view(args@)),
{
    let values = resolve_all(scope, &args);
    let ghost views = exprs_view(values@);
    if values.len() == 2 {
        assert(views[0] == values@[0]@);
        assert(views[1] == values@[1]@);
        let folded = match &*f {
            Expr::Ident(op, _) => match (&*values[0], &*values[1]) {
                (Expr::Const(Literal::Int(a), span), Expr::Const(Literal::Int(b), _)) => {
                    match fold_int(op.name.as_str(), *a, *b) {
                        Some(Some(c)) => Some(Ok(Arc::new(Expr::Const(Literal::Int(c), *span)))),
                        Some(None) => Some(Err(InterpreterError::Overflow)),
                        None => None,
                    }
                },
                _ => None,
            },
            _ => None,
        };
        match folded {
            Some(r) => r,
            None => Ok(Arc::new(Expr::Call(f, args))),
        }
    } else {
        Ok(Arc::new(Expr::Call(f, args)))
    }
}

/// The interpreter, set up for one module.
pub struct Compiler<'a, E: OptimizeEnv> {
    pub env: &'a E,
    pub costs: Costs,
    pub budget: u32,
    pub pure_symbols: Option<&'a PurityMap>,
}

/// The purity analysis that an interpreter works with: none finds no
/// closure pure.
pub open spec fn purity_view(pure_symbols: Option<&PurityMap>) -> Map<Seq<char>, Pureness> {
    match pure_symbols {
        Some(p) => p@,
        None => Map::empty(),
    }
}

impl<'a, E: OptimizeEnv> Compiler<'a, E> {
    /// An interpreter that asks `env` for the modules that are compiled
    /// already, with an empty cost table and the default budget.
    pub fn new(env: &'a E) -> (r: Self)
        ensures
            r.env == env,
            r.costs@ == Map::<Seq<char>, Cost>::empty(),
            r.budget == DEFAULT_BUDGET,
            r.pure_symbols is None,
    {
        Compiler { env, costs: Costs::new(), budget: DEFAULT_BUDGET, pure_symbols: None }
    }

    /// The interpreter with the cost table `costs`.
    pub fn costs(self, costs: Costs) -> (r: Self)
        ensures
            r.env == self.env,
            r.costs == costs,
            r.budget == self.budget,
            r.pure_symbols == self.pure_symbols,
    {
        Compiler { env: self.env, costs, budget: self.budget, pure_symbols: self.pure_symbols }
    }

    /// The interpreter with the purity analysis `pure_symbols`.
    pub fn pure_symbols(self, pure_symbols: &'a PurityMap) -> (r: Self)
        ensures
            r.env == self.env,
            r.costs == self.costs,
            r.budget == self.budget,
            r.pure_symbols == Some(pure_symbols),
    {
        Compiler {
            env: self.env,
            costs: self.costs,
            budget: self.budget,
            pure_symbols: Some(pure_symbols),
        }
    }

    /// The interpreter with the limit `budget` on the size of what is
    /// inlined.
    pub fn budget(self, budget: u32) -> (r: Self)
        ensures
            r.env == self.env,
            r.costs == self.costs,
            r.budget == budget,
            r.pure_symbols == self.pure_symbols,
    {
        Compiler { env: self.env, costs: self.costs, budget, pure_symbols: self.pure_symbols }
    }

    /// What the interpreter works with besides the expression.
    pub open spec fn limits(&self) -> Limits {
        Limits {
            costs: self.costs@,
            budget: self.budget as nat,
            pure: purity_view(self.pure_symbols),
        }
    }

    /// What the interpreter makes of `e` in `scope`, where it may still
    /// put the body of a closure in the place of a call `depth` times
    /// inside each other.
    pub open spec fn result(&self, depth: nat, scope: ScopeView, e: ExprView) -> Result<
        ExprView,
        InterpreterError,
    > {
        interp(self.env, self.limits(), depth, scope, e)
    }

    fn is_inlinable(&self, e: &Expr) -> (r: bool)
        ensures
            r == inlinable(self.budget as nat, e@),
    {
        is_atom(e) && cost(e) <= self.budget
    }

    fn known(&self, name: &str, e: &CExpr) -> (r: Option<Known>)
        ensures
            known_view(r) == known(self.limits(), name@, e@),
    {
        let cyclic = match self.costs.get(name) {
            Some(c) => c.cyclic,
            None => false,
        };
        if self.is_inlinable(&**e) && !cyclic {
            Some(Known::Value(share(e)))
        } else {
            None
        }
    }

    fn known_closure(&self, closure: &Closure) -> (r: Option<Known>)
        ensures
            known_view(r) == known_closure(self.limits(), closure@),
    {
        let name = closure.name.name.as_str();
        let mut params: Vec<String> = Vec::new();
        let mut i: usize = 0;
        while i < closure.args.len()
            invariant
                i <= closure.args.len(),
                params@.len() == i,
                forall|j: int| 0 <= j < i ==> (#[trigger] params@[j])@ == closure.args@[j]@.name,
            decreases closure.args.len() - i,
        {
            params.push(closure.args[i].name.name.clone());
            i += 1;
        }
        assert(strings_view(params@) =~= ident_names(closure@.args));
        let pure = match self.pure_symbols {
            Some(p) => match p.get(name) {
                Some(Pureness::Call(n)) => n == params.len(),
                _ => false,
            },
            None => false,
        };
        let cyclic = match self.costs.get(name) {
            Some(c) => c.cyclic,
            None => false,
        };
        if pure && !cyclic && is_simple(&params, &*closure.expr) && cost(&*closure.expr)
            <= self.budget {
            Some(Known::Closure(params, share(&closure.expr)))
        } else {
            None
        }
    }

    /// The closure whose body takes the place of the call of `f` with
    /// `args`, where there is one.
    fn callee(&self, scope: &Vec<Binding>, f: &CExpr, args: &Vec<CExpr>) -> (r: Option<
        (Vec<String>, CExpr),
    >)
        ensures
            match r {
                Some((params, body)) => Some(
                    (strings_view(params@), body@),
                ),
                None => None,
            } == callee(self.limits(), scope_view(scope@), f@, exprs_view(args@)),
    {
        match &**f {
            Expr::Ident(id, _) => match find(scope, id.name.as_str()) {
                Some(Some(Known::Closure(params, body))) => {
                    if params.len() != args.len() {
                        return None;
                    }
                    let ghost views = exprs_view(args@);
                    let mut i: usize = 0;
                    while i < args.len()
                        invariant
                            i <= args.len(),
                            views == exprs_view(args@),
                            forall|j: int|
                                0 <= j < i ==> inlinable(self.budget as nat, #[trigger] views[j]),
                        decreases args.len() - i,
                    {
                        assert(views[i as int] == args@[i as int]@);
                        if !self.is_inlinable(&*args[i]) {
                            return None;
                        }
                        i += 1;
                    }
                    Some((params, body))
                },
                _ => None,
            },
            _ => None,
        }
    }

    /// The scope of the body of a closure that takes the place of a
    /// call.
    fn arguments(params: &Vec<String>, args: &Vec<CExpr>) -> (r: Vec<Binding>)
        requires
            params@.len() == args@.len(),
        ensures
            scope_view(r@) == with_arguments(
                strings_view(params@),
                exprs_view(args@),
            ),
    {
        let mut scope: Vec<Binding> = Vec::new();
        let mut i: usize = 0;
        while i < params.len()
            invariant
                i <= params.len(),
                params@.len() == args@.len(),
                scope@.len() == i,
                forall|j: int|
                    0 <= j < i ==> binding_view(#[trigger] scope@[j]) == (
                        params@[j]@,
                        Some(KnownView::Argument(args@[j]@)),
                    ),
            decreases params.len() - i,
        {
            scope.push((params[i].clone(), Some(Known::Argument(share(&args[i])))));
            i += 1;
        }
        assert(scope_view(scope@) =~= with_arguments(
            strings_view(params@),
            exprs_view(args@),
        ));
        scope
    }

    fn eval_ident(&self, scope: &Vec<Binding>, e: &CExpr, name: &Symbol) -> (r: CExpr)
        ensures
            r@ == interp_ident(self.env, self.budget as nat, scope_view(scope@), e@, name@),
    {
        match find(scope, name.as_str()) {
            Some(Some(Known::Argument(value))) => value,
            Some(_) => share(e),
            None => match self.env.find_expr(name) {
                Some(g) => {
                    if name.is_global() && self.is_inlinable(&**g.value.expr()) {
                        share(g.value.expr())
                    } else {
                        share(e)
                    }
                },
                None => share(e),
            },
        }
    }

    fn eval(&self, depth: usize, scope: &mut Vec<Binding>, e: &CExpr) -> (r: Result<CExpr, InterpreterError>)
        ensures
            scope_view(final(scope)@) == scope_view(old(scope)@),
            result_view(r) == self.result(depth as nat, scope_view(old(scope)@), e@),
        decreases depth, **e, 1int,
    {
        match &**e {
            Expr::Const(_, _) => Ok(share(e)),
            Expr::Ident(id, _) => Ok(self.eval_ident(scope, e, &id.name)),
            Expr::Data(id, args, pos) => match self.eval_all(depth, scope, args) {
                Ok(new_args) => Ok(Arc::new(Expr::Data(id.duplicate(), new_args, *pos))),
                Err(err) => Err(err),
            },
            Expr::Call(_, _) => self.eval_call(depth, scope, e),
            Expr::Let(bind, body) => {
                assert(e@ == ExprView::Let(Box::new(bind@), Box::new(body@)));
                match &bind.expr {
                    Named::Expr(rhs) => {
                        assert(bind@.expr == NamedView::Expr(Box::new(rhs@)));
                        self.eval_let(depth, scope, e)
                    },
                    Named::Recursive(closures) => {
                        assert(bind@.expr == NamedView::Recursive(closures_view(closures@)));
                        self.eval_rec(depth, scope, e)
                    },
                }
            },
            Expr::Match(_, _) => self.eval_match(depth, scope, e),
            Expr::Cast(inner, typ) => match self.eval(depth, scope, inner) {
                Ok(new_inner) => Ok(Arc::new(Expr::Cast(new_inner, share(typ)))),
                Err(err) => Err(err),
            },
        }
    }

    fn eval_call(&self, depth: usize, scope: &mut Vec<Binding>, e: &CExpr) -> (r: Result<
        CExpr,
        InterpreterError,
    >)
        ensures
            scope_view(final(scope)@) == scope_view(old(scope)@),
            result_view(r) == interp_call(
                self.env,
                self.limits(),
                depth as nat,
                scope_view(old(scope)@),
                e@,
            ),
        decreases depth, **e, 0int,
    {
        match &**e {
            Expr::Call(f, args) => {
                assert(e@ == ExprView::Call(Box::new(f@), exprs_view(args@)));
                let new_f = match self.eval(depth, scope, f) {
                    Ok(new_f) => new_f,
                    Err(err) => {
                        return Err(err);
                    },
                };
                let new_args = match self.eval_all(depth, scope, args) {
                    Ok(new_args) => new_args,
                    Err(err) => {
                        return Err(err);
                    },
                };
                let values = resolve_all(scope, &new_args);
                match self.callee(scope, &new_f, &values) {
                    Some((params, body)) => {
                        if depth > 0 {
                            let mut inner = Self::arguments(&params, &values);
                            self.eval(depth - 1, &mut inner, &body)
                        } else {
                            fold(scope, new_f, new_args)
                        }
                    },
                    None => fold(scope, new_f, new_args),
                }
            },
            _ => Ok(share(e)),
        }
    }

    fn eval_let(&self, depth: usize, scope: &mut Vec<Binding>, e: &CExpr) -> (r: Result<CExpr, InterpreterError>)
        ensures
            scope_view(final(scope)@) == scope_view(old(scope)@),
            result_view(r) == interp_let(
                self.env,
                self.limits(),
                depth as nat,
                scope_view(old(scope)@),
                e@,
            ),
        decreases depth, **e, 0int,
    {
        let ghost before = scope_view(scope@);
        match &**e {
            Expr::Let(bind, body) => match &bind.expr {
                Named::Expr(rhs) => {
                    assert(e@ == ExprView::Let(Box::new(bind@), Box::new(body@)));
                    assert(bind@ == LetBindingView {
                        name: bind.name@,
                        expr: NamedView::Expr(Box::new(rhs@)),
                        span_start: bind.span_start,
                    });
                    if bind.name.name.is_global() {
                        return Err(InterpreterError::ResolvedBinder);
                    }
                    match self.eval(depth, scope, rhs) {
                        Ok(new_rhs) => {
                            let base = scope.len();
                            let value = self.known(
                                bind.name.name.as_str(),
                                &resolve(scope, &new_rhs),
                            );
                            let ghost entry = (
                                bind@.name.name,
                                known(self.limits(), bind@.name.name, resolved(before, new_rhs@)),
                            );
                            scope.push((bind.name.name.name.clone(), value));
                            assert(scope_view(scope@) =~= before.push(entry));
                            let new_body = self.eval(depth, scope, body);
                            restore(scope, base);
                            assert(before.push(entry).take(base as int) =~= before);
                            match new_body {
                                Ok(new_body) => {
                                    let new_bind = LetBinding {
                                        name: bind.name.duplicate(),
                                        expr: Named::Expr(new_rhs),
                                        span_start: bind.span_start,
                                    };
                                    assert(new_bind@ == LetBindingView {
                                        name: bind.name@,
                                        expr: NamedView::Expr(Box::new(new_rhs@)),
                                        span_start: bind.span_start,
                                    });
                                    let r = Arc::new(Expr::Let(Arc::new(new_bind), new_body));
                                    assert(r@ == ExprView::Let(
                                        Box::new(new_bind@),
                                        Box::new(new_body@),
                                    ));
                                    Ok(r)
                                },
                                Err(err) => Err(err),
                            }
                        },
                        Err(err) => Err(err),
                    }
                },
                Named::Recursive(closures) => {
                    assert(e@ == ExprView::Let(Box::new(bind@), Box::new(body@)));
                    assert(bind@.expr == NamedView::Recursive(closures_view(closures@)));
                    Ok(share(e))
                },
            },
            _ => Ok(share(e)),
        }
    }

    fn eval_rec(&self, depth: usize, scope: &mut Vec<Binding>, e: &CExpr) -> (r: Result<
        CExpr,
        InterpreterError,
    >)
        ensures
            scope_view(final(scope)@) == scope_view(old(scope)@),
            result_view(r) == interp_rec(
                self.env,
                self.limits(),
                depth as nat,
                scope_view(old(scope)@),
                e@,
            ),
        decreases depth, **e, 0int,
    {
        let ghost before = scope_view(scope@);
        match &**e {
            Expr::Let(bind, body) => match &bind.expr {
                Named::Recursive(closures) => {
                    assert(e@ == ExprView::Let(Box::new(bind@), Box::new(body@)));
                    assert(bind@ == LetBindingView {
                        name: bind.name@,
                        expr: NamedView::Recursive(closures_view(closures@)),
                        span_start: bind.span_start,
                    });
                    let ghost names = closure_names(closures_view(closures@));
                    let base = scope.len();
                    if !push_closures(scope, closures) {
                        return Err(InterpreterError::ResolvedBinder);
                    }
                    let new_closures = self.eval_closures(depth, scope, closures);
                    restore(scope, base);
                    assert(with_unknown(before, names).take(base as int) =~= before);
                    match new_closures {
                        Ok(new_closures) => self.eval_group_body(
                            depth,
                            scope,
                            &bind.name,
                            bind.span_start,
                            new_closures,
                            body,
                        ),
                        Err(err) => Err(err),
                    }
                },
                Named::Expr(rhs) => {
                    assert(e@ == ExprView::Let(Box::new(bind@), Box::new(body@)));
                    assert(bind@.expr == NamedView::Expr(Box::new(rhs@)));
                    Ok(share(e))
                },
            },
            _ => Ok(share(e)),
        }
    }

    /// The binding of a recursive group with the interpreted closures
    /// `closures`: its body is interpreted with what is known of each
    /// closure in scope.
    fn eval_group_body(
        &self,
        depth: usize,
        scope: &mut Vec<Binding>,
        name: &TypedIdent,
        span_start: crate::base::pos::BytePos,
        closures: Vec<Closure>,
        body: &CExpr,
    ) -> (r: Result<CExpr, InterpreterError>)
        ensures
            scope_view(final(scope)@) == scope_view(old(scope)@),
            result_view(r) == (match interp(
                self.env,
                self.limits(),
                depth as nat,
                with_closures(self.limits(), scope_view(old(scope)@), closures_view(closures@)),
                body@,
            ) {
                Ok(new_body) => Ok(
                    ExprView::Let(
                        Box::new(
                            LetBindingView {
                                name: name@,
                                expr: NamedView::Recursive(closures_view(closures@)),
                                span_start,
                            },
                        ),
                        Box::new(new_body),
                    ),
                ),
                Err(err) => Err(err),
            }),
        decreases depth, **body, 2int,
    {
        let ghost before = scope_view(scope@);
        let ghost views = closures_view(closures@);
        let ghost added = with_closures(self.limits(), before, views);
        let base = scope.len();
        let mut i: usize = 0;
        assert(scope_view(scope@) =~= added.take(base as int));
        while i < closures.len()
            invariant
                i <= closures.len(),
                base == before.len(),
                base + i == scope@.len(),
                before == scope_view(old(scope)@),
                views == closures_view(closures@),
                added == with_closures(self.limits(), before, views),
                scope_view(scope@) == added.take(base + i),
            decreases closures.len() - i,
        {
            let closure = &closures[i];
            assert(views[i as int] == closure@);
            let known = self.known_closure(closure);
            let ghost prev = scope_view(scope@);
            let ghost entry = (closure@.name.name, known_closure(self.limits(), closure@));
            scope.push((closure.name.name.name.clone(), known));
            assert(scope_view(scope@) =~= prev.push(entry));
            assert(added[base + i] == entry);
            assert(prev.push(entry) =~= added.take(base + i + 1));
            i += 1;
        }
        assert(added.take(base + closures.len()) =~= added);
        let new_body = self.eval(depth, scope, body);
        restore(scope, base);
        assert(added.take(base as int) =~= before);
        match new_body {
            Ok(new_body) => {
                let new_bind = LetBinding {
                    name: name.duplicate(),
                    expr: Named::Recursive(closures),
                    span_start,
                };
                assert(new_bind@ == LetBindingView {
                    name: name@,
                    expr: NamedView::Recursive(views),
                    span_start,
                });
                let r = Arc::new(Expr::Let(Arc::new(new_bind), new_body));
                assert(r@ == ExprView::Let(Box::new(new_bind@), Box::new(new_body@)));
                Ok(r)
            },
            Err(err) => Err(err),
        }
    }

    fn eval_match(&self, depth: usize, scope: &mut Vec<Binding>, e: &CExpr) -> (r: Result<
        CExpr,
        InterpreterError,
    >)
        ensures
            scope_view(final(scope)@) == scope_view(old(scope)@),
            result_view(r) == interp_match(
                self.env,
                self.limits(),
                depth as nat,
                scope_view(old(scope)@),
                e@,
            ),
        decreases depth, **e, 0int,
    {
        match &**e {
            Expr::Match(scrutinee, alts) => match self.eval(depth, scope, scrutinee) {
                Ok(new_scrutinee) => {
                    let record = resolve(scope, &new_scrutinee);
                    let projected = if alts.len() == 1 {
                        assert(alts_view(alts@)[0] == alts@[0]@);
                        match (&*record, &alts[0].pattern) {
                            (Expr::Data(id, exprs, _), Pattern::Record(fields)) => {
                                let complete = match (*id.typ).record_fields() {
                                    Some(row) => row.len() == exprs.len(),
                                    None => exprs.len() == 0,
                                };
                                if complete {
                                    Some(
                                        self.project(
                                            depth,
                                            scope,
                                            &id.typ,
                                            exprs,
                                            fields,
                                            &alts[0].expr,
                                        ),
                                    )
                                } else {
                                    None
                                }
                            },
                            _ => None,
                        }
                    } else {
                        None
                    };
                    match projected {
                        Some(r) => r,
                        None => match self.eval_alts(depth, scope, alts) {
                            Ok(new_alts) => Ok(Arc::new(Expr::Match(new_scrutinee, new_alts))),
                            Err(err) => Err(err),
                        },
                    }
                },
                Err(err) => Err(err),
            },
            _ => Ok(share(e)),
        }
    }

    /// The match on a record whose field values are `exprs`, by a single
    /// record pattern: the body is interpreted with the fields in scope
    /// and put inside the let bindings of the fields.
    fn project(
        &self,
        depth: usize,
        scope: &mut Vec<Binding>,
        typ: &ArcType,
        exprs: &Vec<CExpr>,
        fields: &Vec<(TypedIdent, Option<Symbol>)>,
        body: &CExpr,
    ) -> (r: Result<CExpr, InterpreterError>)
        ensures
            scope_view(final(scope)@) == scope_view(old(scope)@),
            result_view(r) == interp_projection(
                self.env,
                self.limits(),
                depth as nat,
                scope_view(old(scope)@),
                row_fields(typ@),
                exprs_view(exprs@),
                Seq::new(fields@.len(), |i: int| record_field_view(fields@[i])),
                body@,
            ),
        decreases depth, **body, 2int,
    {
        let ghost before = scope_view(scope@);
        let ghost pattern = Seq::new(fields@.len(), |i: int| record_field_view(fields@[i]));
        let ghost added = with_fields(
            self.limits(),
            before,
            row_fields(typ@),
            resolved_all(before, exprs_view(exprs@)),
            pattern,
        );
        let base = scope.len();
        let values = resolve_all(scope, exprs);
        assert(field_binders(row_fields(typ@), exprs_view(values@), pattern) =~= field_binders(
            row_fields(typ@),
            exprs_view(exprs@),
            pattern,
        ));
        if !self.push_fields(scope, typ, &values, fields) {
            return Err(InterpreterError::ResolvedBinder);
        }
        let new_body = self.eval(depth, scope, body);
        restore(scope, base);
        assert(added.take(base as int) =~= before);
        match new_body {
            Ok(new_body) => Ok(bind_record_fields(typ, exprs, fields, new_body)),
            Err(err) => Err(err),
        }
    }

    /// Adds the fields of a record to the scope, each with what is known
    /// of it by its value in `exprs`, unless one of the symbols that
    /// they bind has the name of a module's global: then the scope stays
    /// as it is and the result is `false`.
    fn push_fields(
        &self,
        scope: &mut Vec<Binding>,
        typ: &ArcType,
        exprs: &Vec<CExpr>,
        fields: &Vec<(TypedIdent, Option<Symbol>)>,
    ) -> (r: bool)
        ensures
            r == !any_global(
                field_binders(
                    row_fields(typ@),
                    exprs_view(exprs@),
                    Seq::new(fields@.len(), |i: int| record_field_view(fields@[i])),
                ),
            ),
            r ==> scope_view(final(scope)@) == with_fields(
                self.limits(),
                scope_view(old(scope)@),
                row_fields(typ@),
                exprs_view(exprs@),
                Seq::new(fields@.len(), |i: int| record_field_view(fields@[i])),
            ),
            !r ==> scope_view(final(scope)@) == scope_view(old(scope)@),
    {
        let ghost before = scope_view(scope@);
        let ghost row = row_fields(typ@);
        let ghost values = exprs_view(exprs@);
        let ghost pattern = Seq::new(fields@.len(), |i: int| record_field_view(fields@[i]));
        let ghost binders = field_binders(row, values, pattern);
        let ghost added = with_fields(self.limits(), before, row, values, pattern);
        let base = scope.len();
        match (**typ).record_fields() {
            Some(row_fields) => {
                let n: usize = if row_fields.len() < exprs.len() {
                    row_fields.len()
                } else {
                    exprs.len()
                };
                let mut i: usize = 0;
                assert(scope_view(scope@) =~= added.take(before.len() as int));
                while i < n
                    invariant
                        i <= n,
                        n == bound_count(row.len(), values.len()),
                        n <= exprs@.len(),
                        n <= row_fields@.len(),
                        base == before.len(),
                        base + i == scope@.len(),
                        before == scope_view(old(scope)@),
                        row == crate::base::types::row_fields(typ@),
                        row_fields@.len() == row.len(),
                        forall|j: int|
                            0 <= j < row_fields@.len() ==> (#[trigger] row_fields@[j])@ == row[j],
                        values == exprs_view(exprs@),
                        pattern == Seq::new(fields@.len(), |i: int| record_field_view(fields@[i])),
                        binders == field_binders(row, values, pattern),
                        added == with_fields(
                            self.limits(),
                            before,
                            row,
                            values,
                            pattern,
                        ),
                        forall|j: int| 0 <= j < i ==> !is_global_name(#[trigger] binders[j]),
                        scope_view(scope@) == added.take(before.len() + i),
                    decreases n - i,
                {
                    let name = crate::ir::optimize::pattern_binding(fields, &row_fields[i].name);
                    assert(row[i as int] == row_fields@[i as int]@);
                    assert(binders[i as int] == name@);
                    assert(values[i as int] == exprs@[i as int]@);
                    if name.is_global() {
                        restore(scope, base);
                        assert(added.take(before.len() + i).take(base as int) =~= before);
                        assert(is_global_name(binders[i as int]));
                        return false;
                    }
                    let value = self.known(name.as_str(), &exprs[i]);
                    let ghost prev = scope_view(scope@);
                    let ghost entry = (
                        name@,
                        known(self.limits(), name@, values[i as int]),
                    );
                    scope.push((name.name, value));
                    assert(scope_view(scope@) =~= prev.push(entry));
                    assert(added[before.len() + i] == entry);
                    assert(prev.push(entry) =~= added.take(before.len() + i + 1));
                    i += 1;
                }
                assert(added.take(before.len() + n) =~= added);
                true
            },
            None => {
                assert(scope_view(scope@) =~= added);
                assert(binders.len() == 0);
                true
            },
        }
    }

    fn eval_all(&self, depth: usize, scope: &mut Vec<Binding>, exprs: &Vec<CExpr>) -> (r: Result<
        Vec<CExpr>,
        InterpreterError,
    >)
        ensures
            scope_view(final(scope)@) == scope_view(old(scope)@),
            match r {
                Ok(v) => Ok(exprs_view(v@)),
                Err(err) => Err(err),
            } == interp_from(
                self.env,
                self.limits(),
                depth as nat,
                scope_view(old(scope)@),
                exprs_view(exprs@),
                0,
            ),
        decreases depth, exprs, 1int,
    {
        let ghost before = scope_view(scope@);
        let ghost views = exprs_view(exprs@);
        let mut out: Vec<CExpr> = Vec::new();
        let mut i: usize = 0;
        proof {
            let r = interp_from(self.env, self.limits(), depth as nat, before, views, 0);
            assert(exprs_view(out@) =~= Seq::<ExprView>::empty());
            if r is Ok {
                assert(Seq::<ExprView>::empty() + r->Ok_0 =~= r->Ok_0);
            }
        }
        while i < exprs.len()
            invariant
                i <= exprs.len(),
                out@.len() == i,
                views == exprs_view(exprs@),
                before == scope_view(old(scope)@),
                scope_view(scope@) == before,
                interp_from(self.env, self.limits(), depth as nat, before, views, 0) == prepend(
                    exprs_view(out@),
                    interp_from(self.env, self.limits(), depth as nat, before, views, i as int),
                ),
            decreases exprs.len() - i,
        {
            assert(views[i as int] == exprs@[i as int]@);
            let ghost done = exprs_view(out@);
            match self.eval(depth, scope, &exprs[i]) {
                Ok(x) => {
                    out.push(x);
                    proof {
                        let rest = interp_from(
                            self.env,
                            self.limits(),
                            depth as nat,
                            before,
                            views,
                            i + 1,
                        );
                        assert(exprs_view(out@) =~= done.push(x@));
                        if rest is Ok {
                            assert(done + (seq![x@] + rest->Ok_0) =~= done.push(x@) + rest->Ok_0);
                        }
                    }
                },
                Err(err) => {
                    return Err(err);
                },
            }
            i += 1;
        }
        assert(exprs_view(out@) + Seq::<ExprView>::empty() =~= exprs_view(out@));
        Ok(out)
    }

    fn eval_alts(&self, depth: usize, scope: &mut Vec<Binding>, alts: &Vec<Alternative>) -> (r: Result<
        Vec<Alternative>,
        InterpreterError,
    >)
        ensures
            scope_view(final(scope)@) == scope_view(old(scope)@),
            match r {
                Ok(v) => Ok(alts_view(v@)),
                Err(err) => Err(err),
            } == interp_alts(
                self.env,
                self.limits(),
                depth as nat,
                scope_view(old(scope)@),
                alts_view(alts@),
                0,
            ),
        decreases depth, alts, 1int,
    {
        let ghost before = scope_view(scope@);
        let ghost views = alts_view(alts@);
        let mut out: Vec<Alternative> = Vec::new();
        let mut i: usize = 0;
        proof {
            let r = interp_alts(self.env, self.limits(), depth as nat, before, views, 0);
            assert(alts_view(out@) =~= Seq::<AlternativeView>::empty());
            if r is Ok {
                assert(Seq::<AlternativeView>::empty() + r->Ok_0 =~= r->Ok_0);
            }
        }
        while i < alts.len()
            invariant
                i <= alts.len(),
                out@.len() == i,
                views == alts_view(alts@),
                before == scope_view(old(scope)@),
                scope_view(scope@) == before,
                interp_alts(self.env, self.limits(), depth as nat, before, views, 0) == prepend(
                    alts_view(out@),
                    interp_alts(self.env, self.limits(), depth as nat, before, views, i as int),
                ),
            decreases alts.len() - i,
        {
            let alt = &alts[i];
            assert(views[i as int] == alt@);
            let ghost done = alts_view(out@);
            let base = scope.len();
            if !push_pattern(scope, &alt.pattern) {
                return Err(InterpreterError::ResolvedBinder);
            }
            let result = self.eval(depth, scope, &alt.expr);
            restore(scope, base);
            assert(with_unknown(before, pattern_binders(alt@.pattern)).take(base as int)
                =~= before);
            match result {
                Ok(x) => {
                    let new_alt = Alternative { pattern: alt.pattern.duplicate(), expr: x };
                    out.push(new_alt);
                    proof {
                        let rest = interp_alts(
                            self.env,
                            self.limits(),
                            depth as nat,
                            before,
                            views,
                            i + 1,
                        );
                        assert(alts_view(out@) =~= done.push(new_alt@));
                        if rest is Ok {
                            assert(done + (seq![new_alt@] + rest->Ok_0) =~= done.push(new_alt@)
                                + rest->Ok_0);
                        }
                    }
                },
                Err(err) => {
                    return Err(err);
                },
            }
            i += 1;
        }
        assert(alts_view(out@) + Seq::<AlternativeView>::empty() =~= alts_view(out@));
        Ok(out)
    }

    fn eval_closures(&self, depth: usize, scope: &mut Vec<Binding>, closures: &Vec<Closure>) -> (r: Result<
        Vec<Closure>,
        InterpreterError,
    >)
        ensures
            scope_view(final(scope)@) == scope_view(old(scope)@),
            match r {
                Ok(v) => Ok(closures_view(v@)),
                Err(err) => Err(err),
            } == interp_closures(
                self.env,
                self.limits(),
                depth as nat,
                scope_view(old(scope)@),
                closures_view(closures@),
                0,
            ),
        decreases depth, closures, 1int,
    {
        let ghost before = scope_view(scope@);
        let ghost views = closures_view(closures@);
        let mut out: Vec<Closure> = Vec::new();
        let mut i: usize = 0;
        proof {
            let r = interp_closures(self.env, self.limits(), depth as nat, before, views, 0);
            assert(closures_view(out@) =~= Seq::<ClosureView>::empty());
            if r is Ok {
                assert(Seq::<ClosureView>::empty() + r->Ok_0 =~= r->Ok_0);
            }
        }
        while i < closures.len()
            invariant
                i <= closures.len(),
                out@.len() == i,
                views == closures_view(closures@),
                before == scope_view(old(scope)@),
                scope_view(scope@) == before,
                interp_closures(self.env, self.limits(), depth as nat, before, views, 0)
                    == prepend(
                    closures_view(out@),
                    interp_closures(
                        self.env,
                        self.limits(),
                        depth as nat,
                        before,
                        views,
                        i as int,
                    ),
                ),
            decreases closures.len() - i,
        {
            let closure = &closures[i];
            assert(views[i as int] == closure@);
            let ghost done = closures_view(out@);
            let base = scope.len();
            if !push_idents(scope, &closure.args) {
                return Err(InterpreterError::ResolvedBinder);
            }
            let result = self.eval(depth, scope, &closure.expr);
            restore(scope, base);
            assert(with_unknown(before, ident_names(closure@.args)).take(base as int) =~= before);
            match result {
                Ok(x) => {
                    let new_closure = Closure {
                        pos: closure.pos,
                        name: closure.name.duplicate(),
                        args: duplicate_idents(&closure.args),
                        expr: x,
                    };
                    out.push(new_closure);
                    proof {
                        let rest = interp_closures(
                            self.env,
                            self.limits(),
                            depth as nat,
                            before,
                            views,
                            i + 1,
                        );
                        assert(closures_view(out@) =~= done.push(new_closure@));
                        if rest is Ok {
                            assert(done + (seq![new_closure@] + rest->Ok_0) =~= done.push(
                                new_closure@,
                            ) + rest->Ok_0);
                        }
                    }
                },
                Err(err) => {
                    return Err(err);
                },
            }
            i += 1;
        }
        assert(closures_view(out@) + Seq::<ClosureView>::empty() =~= closures_view(out@));
        Ok(out)
    }

    /// Interprets `expr` as the body of a module, with nothing local in
    /// scope.
    pub fn compile_expr(&self, expr: &CExpr) -> (r: Result<CExpr, InterpreterError>)
        ensures
            result_view(r) == self.result(1, Seq::empty(), expr@),
    {
        let mut scope: Vec<Binding> = Vec::new();
        assert(scope_view(scope@) =~= Seq::empty());
        self.eval(1, &mut scope, expr)
    }

    /// The cost table of the interpreter, for the summary of the module.
    pub fn into_costs(self) -> (r: Costs)
        ensures
            r == self.costs,
    {
        self.costs
    }
}

/// Adds the symbols `names` to the scope, with nothing known of them,
/// unless one of them has the name of a module's global: then the scope
/// stays as it is and the result is `false`.
fn push_names(scope: &mut Vec<Binding>, names: &Vec<String>) -> (r: bool)
    ensures
        r == !any_global(strings_view(names@)),
        r ==> scope_view(final(scope)@) == with_unknown(
            scope_view(old(scope)@),
            strings_view(names@),
        ),
        !r ==> scope_view(final(scope)@) == scope_view(old(scope)@),
{
    let ghost before = scope_view(scope@);
    let ghost views = strings_view(names@);
    let mut i: usize = 0;
    while i < names.len()
        invariant
            i <= names.len(),
            scope@ == old(scope)@,
            views == strings_view(names@),
            forall|j: int| 0 <= j < i ==> !is_global_name(#[trigger] views[j]),
        decreases names.len() - i,
    {
        assert(views[i as int] == names@[i as int]@);
        if starts_with_char(names[i].as_str(), '@') {
            return false;
        }
        i += 1;
    }
    i = 0;
    assert(scope_view(scope@) =~= before + Seq::new(0, |j: int| (views[j], None::<KnownView>)));
    while i < names.len()
        invariant
            i <= names.len(),
            before == scope_view(old(scope)@),
            views == strings_view(names@),
            scope_view(scope@) == before + Seq::new(
                i as nat,
                |j: int| (views[j], None::<KnownView>),
            ),
        decreases names.len() - i,
    {
        assert(views[i as int] == names@[i as int]@);
        let ghost prev = scope_view(scope@);
        scope.push((names[i].clone(), None));
        assert(scope_view(scope@) =~= prev.push((views[i as int], None::<KnownView>)));
        assert(prev.push((views[i as int], None::<KnownView>)) =~= before + Seq::new(
            (i + 1) as nat,
            |j: int| (views[j], None::<KnownView>),
        ));
        i += 1;
    }
    assert(scope_view(scope@) =~= with_unknown(before, views));
    true
}

/// Adds the names of the closures of a group to the scope.
fn push_closures(scope: &mut Vec<Binding>, closures: &Vec<Closure>) -> (r: bool)
    ensures
        r == !any_global(closure_names(closures_view(closures@))),
        r ==> scope_view(final(scope)@) == with_unknown(
            scope_view(old(scope)@),
            closure_names(closures_view(closures@)),
        ),
        !r ==> scope_view(final(scope)@) == scope_view(old(scope)@),
{
    let mut names: Vec<String> = Vec::new();
    let mut i: usize = 0;
    while i < closures.len()
        invariant
            i <= closures.len(),
            names@.len() == i,
            forall|j: int| 0 <= j < i ==> (#[trigger] names@[j])@ == closures@[j]@.name.name,
        decreases closures.len() - i,
    {
        names.push(closures[i].name.name.name.clone());
        i += 1;
    }
    assert(strings_view(names@) =~= closure_names(
        closures_view(closures@),
    ));
    push_names(scope, &names)
}

/// Adds the symbols that a pattern binds to the scope.
fn push_pattern(scope: &mut Vec<Binding>, pattern: &Pattern) -> (r: bool)
    ensures
        r == !any_global(pattern_binders(pattern@)),
        r ==> scope_view(final(scope)@) == with_unknown(
            scope_view(old(scope)@),
            pattern_binders(pattern@),
        ),
        !r ==> scope_view(final(scope)@) == scope_view(old(scope)@),
{
    let mut names: Vec<String> = Vec::new();
    match pattern {
        Pattern::Ident(id) => {
            names.push(id.name.name.clone());
        },
        Pattern::Literal(_) => {},
        Pattern::Constructor(_, fields) => {
            let mut i: usize = 0;
            while i < fields.len()
                invariant
                    i <= fields.len(),
                    names@.len() == i,
                    forall|j: int| 0 <= j < i ==> (#[trigger] names@[j])@ == fields@[j]@.name,
                decreases fields.len() - i,
            {
                names.push(fields[i].name.name.clone());
                i += 1;
            }
        },
        Pattern::Record(fields) => {
            let mut i: usize = 0;
            while i < fields.len()
                invariant
                    i <= fields.len(),
                    names@.len() == i,
                    forall|j: int|
                        0 <= j < i ==> (#[trigger] names@[j])@ == or_original(
                            record_field_view(fields@[j]).0.name,
                            record_field_view(fields@[j]).1,
                        ),
                decreases fields.len() - i,
            {
                let name = match &fields[i].1 {
                    Some(s) => s.name.clone(),
                    None => fields[i].0.name.name.clone(),
                };
                names.push(name);
                i += 1;
            }
        },
    }
    assert(strings_view(names@) =~= pattern_binders(pattern@));
    push_names(scope, &names)
}

/// Adds the parameters of a closure to the scope.
fn push_idents(scope: &mut Vec<Binding>, idents: &Vec<TypedIdent>) -> (r: bool)
    ensures
        r == !any_global(ident_names(idents_view(idents@))),
        r ==> scope_view(final(scope)@) == with_unknown(
            scope_view(old(scope)@),
            ident_names(idents_view(idents@)),
        ),
        !r ==> scope_view(final(scope)@) == scope_view(old(scope)@),
{
    let mut names: Vec<String> = Vec::new();
    let mut i: usize = 0;
    while i < idents.len()
        invariant
            i <= idents.len(),
            names@.len() == i,
            forall|j: int| 0 <= j < i ==> (#[trigger] names@[j])@ == idents@[j]@.name,
        decreases idents.len() - i,
    {
        names.push(idents[i].name.name.clone());
        i += 1;
    }
    assert(strings_view(names@) =~= ident_names(idents_view(idents@)));
    push_names(scope, &names)
}

} // verus!
