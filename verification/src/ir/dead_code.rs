//! The graph of which let-bound symbol uses which, the set of symbols
//! that the root of an expression reaches through it, and the removal of
//! the let bindings that nothing reaches and that have no effect.

use vstd::prelude::*;
use vstd::hash_map::StringHashMap;
use std::sync::Arc;
use crate::base::shared::share;
use crate::base::strings::str_eq;
use crate::ir::expr::{
    alts_view, closures_view, duplicate_idents, exprs_view, Alternative, AlternativeView, CExpr,
    Closure, ClosureView, Expr, ExprView, LetBinding, LetBindingView, Named, NamedView,
};
use crate::ir::purity::{is_pure, Pureness, PurityMap};

verus! {

/// The owner of a use: a let-bound symbol, or `None` for the root of the
/// expression.
pub type Node = Option<Seq<char>>;

/// A use of the symbol `target` in the definition of `owner`.
#[derive(Debug, PartialEq, Eq)]
pub struct Edge {
    pub owner: Option<String>,
    pub target: String,
}

impl View for Edge {
    type V = (Node, Seq<char>);

    open spec fn view(&self) -> (Node, Seq<char>) {
        (
            match self.owner {
                Some(o) => Some(o@),
                None => None,
            },
            self.target@,
        )
    }
}

pub open spec fn edges_view(s: Seq<Edge>) -> Seq<(Node, Seq<char>)> {
    Seq::new(s.len(), |i: int| s[i]@)
}

/// The uses that `e` holds, in the order of the traversal. A use belongs
/// to the innermost let-bound symbol in whose definition it stands, or
/// to `owner` where there is none. The uses in what a plain binding
/// binds belong to `owner` where that has an effect: it is evaluated
/// whether or not the symbol is used.
pub open spec fn edges_of(m: Map<Seq<char>, Pureness>, e: ExprView, owner: Node) -> Seq<
    (Node, Seq<char>),
>
    decreases e, 0int,
{
    match e {
        ExprView::Const(_, _) => Seq::empty(),
        ExprView::Ident(id, _) => seq![(owner, id.name)],
        ExprView::Data(_, args, _) => edges_of_all(m, args, owner, 0),
        ExprView::Call(f, args) => edges_of(m, *f, owner) + edges_of_all(m, args, owner, 0),
        ExprView::Let(bind, body) => edges_of_binding(m, *bind, owner) + edges_of(
            m,
            *body,
            owner,
        ),
        ExprView::Match(scrutinee, alts) => edges_of(m, *scrutinee, owner) + edges_of_alts(
            m,
            alts,
            owner,
            0,
        ),
        ExprView::Cast(inner, _) => edges_of(m, *inner, owner),
    }
}

pub open spec fn edges_of_all(
    m: Map<Seq<char>, Pureness>,
    s: Seq<ExprView>,
    owner: Node,
    from: int,
) -> Seq<(Node, Seq<char>)>
    decreases s, s.len() - from,
{
    if 0 <= from < s.len() {
        edges_of(m, s[from], owner) + edges_of_all(m, s, owner, from + 1)
    } else {
        Seq::empty()
    }
}

pub open spec fn edges_of_alts(
    m: Map<Seq<char>, Pureness>,
    s: Seq<AlternativeView>,
    owner: Node,
    from: int,
) -> Seq<(Node, Seq<char>)>
    decreases s, s.len() - from,
{
    if 0 <= from < s.len() {
        edges_of(m, s[from].expr, owner) + edges_of_alts(m, s, owner, from + 1)
    } else {
        Seq::empty()
    }
}

pub open spec fn edges_of_closures(m: Map<Seq<char>, Pureness>, s: Seq<ClosureView>, from: int) -> Seq<
    (Node, Seq<char>),
>
    decreases s, s.len() - from,
{
    if 0 <= from < s.len() {
        edges_of(m, s[from].expr, Some(s[from].name.name)) + edges_of_closures(m, s, from + 1)
    } else {
        Seq::empty()
    }
}

pub open spec fn edges_of_binding(m: Map<Seq<char>, Pureness>, b: LetBindingView, owner: Node) -> Seq<
    (Node, Seq<char>),
>
    decreases b, 0int,
{
    match b.expr {
        NamedView::Expr(rhs) => if is_pure(m, *rhs) {
            edges_of(m, *rhs, Some(b.name.name))
        } else {
            edges_of(m, *rhs, owner)
        },
        NamedView::Recursive(closures) => edges_of_closures(m, closures, 0),
    }
}

/// Whether the edge at index `i` starts at `src` or at a symbol of `s`.
pub open spec fn live(edges: Seq<(Node, Seq<char>)>, src: Node, s: Set<Seq<char>>, i: int) -> bool {
    edges[i].0 == src || (edges[i].0 matches Some(o) && s.contains(o))
}

/// The symbols that `src` reaches over at most `n` edges, `n` at least 1.
pub open spec fn reach(edges: Seq<(Node, Seq<char>)>, src: Node, n: nat) -> Set<Seq<char>>
    decreases n,
{
    if n == 0 {
        Set::empty()
    } else {
        let s = reach(edges, src, (n - 1) as nat);
        Set::new(
            |t: Seq<char>|
                s.contains(t) || exists|i: int|
                    0 <= i < edges.len() && live(edges, src, s, i) && (#[trigger] edges[i]).1 == t,
        )
    }
}

/// Whether `src` reaches the symbol `t` over one edge or more.
pub open spec fn reachable(edges: Seq<(Node, Seq<char>)>, src: Node, t: Seq<char>) -> bool {
    exists|n: nat| reach(edges, src, n).contains(t)
}

/// The symbols that the root of `e` uses, directly or through the
/// definitions of symbols that it uses.
pub open spec fn used_symbols(m: Map<Seq<char>, Pureness>, e: ExprView) -> Set<Seq<char>> {
    Set::new(|t: Seq<char>| reachable(edges_of(m, e, None), None, t))
}

/// The symbols of `e` whose definition uses the symbol itself, directly
/// or through others.
pub open spec fn cyclic_symbols(m: Map<Seq<char>, Pureness>, e: ExprView) -> Set<Seq<char>> {
    Set::new(|t: Seq<char>| reachable(edges_of(m, e, None), Some(t), t))
}

/// Whether no closure of a group is used.
pub open spec fn group_unused(used: Set<Seq<char>>, s: Seq<ClosureView>) -> bool {
    forall|i: int| 0 <= i < s.len() ==> !used.contains((#[trigger] s[i]).name.name)
}

/// Whether a let binding can go: nothing uses the symbol, and what it
/// binds is pure. A group of closures can go where none of them is
/// used.
pub open spec fn removable(used: Set<Seq<char>>, m: Map<Seq<char>, Pureness>, b: LetBindingView) -> bool {
    match b.expr {
        NamedView::Expr(rhs) => !used.contains(b.name.name) && is_pure(m, *rhs),
        NamedView::Recursive(closures) => group_unused(used, closures),
    }
}

/// `e` without the let bindings that can go.
pub open spec fn dce(used: Set<Seq<char>>, m: Map<Seq<char>, Pureness>, e: ExprView) -> ExprView
    decreases e, 0int,
{
    match e {
        ExprView::Const(_, _) => e,
        ExprView::Ident(_, _) => e,
        ExprView::Data(id, args, pos) => ExprView::Data(id, dce_all(used, m, args), pos),
        ExprView::Call(f, args) => ExprView::Call(
            Box::new(dce(used, m, *f)),
            dce_all(used, m, args),
        ),
        ExprView::Let(bind, body) => if removable(used, m, *bind) {
            dce(used, m, *body)
        } else {
            ExprView::Let(Box::new(dce_binding(used, m, *bind)), Box::new(dce(used, m, *body)))
        },
        ExprView::Match(scrutinee, alts) => ExprView::Match(
            Box::new(dce(used, m, *scrutinee)),
            dce_alts(used, m, alts),
        ),
        ExprView::Cast(inner, typ) => ExprView::Cast(Box::new(dce(used, m, *inner)), typ),
    }
}

pub open spec fn dce_all(used: Set<Seq<char>>, m: Map<Seq<char>, Pureness>, s: Seq<ExprView>) -> Seq<
    ExprView,
>
    decreases s, 0int,
{
    Seq::new(
        s.len(),
        |i: int|
            if 0 <= i < s.len() {
                dce(used, m, s[i])
            } else {
                arbitrary()
            },
    )
}

pub open spec fn dce_alts(
    used: Set<Seq<char>>,
    m: Map<Seq<char>, Pureness>,
    s: Seq<AlternativeView>,
) -> Seq<AlternativeView>
    decreases s, 0int,
{
    Seq::new(
        s.len(),
        |i: int|
            if 0 <= i < s.len() {
                AlternativeView { pattern: s[i].pattern, expr: dce(used, m, s[i].expr) }
            } else {
                arbitrary()
            },
    )
}

pub open spec fn dce_closure(used: Set<Seq<char>>, m: Map<Seq<char>, Pureness>, c: ClosureView) -> ClosureView
    decreases c, 0int,
{
    ClosureView { pos: c.pos, name: c.name, args: c.args, expr: dce(used, m, c.expr) }
}

/// The closures of a group that are used, from index `from` on, each
/// without the let bindings that can go.
pub open spec fn dce_closures(
    used: Set<Seq<char>>,
    m: Map<Seq<char>, Pureness>,
    s: Seq<ClosureView>,
    from: int,
) -> Seq<ClosureView>
    decreases s, s.len() - from,
{
    if 0 <= from < s.len() {
        if used.contains(s[from].name.name) {
            seq![dce_closure(used, m, s[from])] + dce_closures(used, m, s, from + 1)
        } else {
            dce_closures(used, m, s, from + 1)
        }
    } else {
        Seq::empty()
    }
}

pub open spec fn dce_binding(used: Set<Seq<char>>, m: Map<Seq<char>, Pureness>, b: LetBindingView) -> LetBindingView
    decreases b, 0int,
{
    LetBindingView {
        name: b.name,
        expr: match b.expr {
            NamedView::Expr(rhs) => NamedView::Expr(Box::new(dce(used, m, *rhs))),
            NamedView::Recursive(closures) => NamedView::Recursive(
                dce_closures(used, m, closures, 0),
            ),
        },
        span_start: b.span_start,
    }
}

/// Whether `e` holds no let binding that can go.
pub open spec fn no_dead_binding(used: Set<Seq<char>>, m: Map<Seq<char>, Pureness>, e: ExprView) -> bool
    decreases e, 0int,
{
    match e {
        ExprView::Const(_, _) => true,
        ExprView::Ident(_, _) => true,
        ExprView::Data(_, args, _) => forall|i: int|
            0 <= i < args.len() ==> no_dead_binding(used, m, #[trigger] args[i]),
        ExprView::Call(f, args) => no_dead_binding(used, m, *f) && forall|i: int|
            0 <= i < args.len() ==> no_dead_binding(used, m, #[trigger] args[i]),
        ExprView::Let(bind, body) => !removable(used, m, *bind) && no_dead_in_binding(
            used,
            m,
            *bind,
        ) && no_dead_binding(used, m, *body),
        ExprView::Match(scrutinee, alts) => no_dead_binding(used, m, *scrutinee) && forall|i: int|
            0 <= i < alts.len() ==> no_dead_binding(used, m, (#[trigger] alts[i]).expr),
        ExprView::Cast(inner, _) => no_dead_binding(used, m, *inner),
    }
}

pub open spec fn no_dead_in_binding(
    used: Set<Seq<char>>,
    m: Map<Seq<char>, Pureness>,
    b: LetBindingView,
) -> bool
    decreases b, 0int,
{
    match b.expr {
        NamedView::Expr(rhs) => no_dead_binding(used, m, *rhs),
        NamedView::Recursive(closures) => forall|i: int|
            0 <= i < closures.len() ==> used.contains((#[trigger] closures[i]).name.name)
                && no_dead_binding(used, m, closures[i].expr),
    }
}

/// Removing dead bindings changes nothing about whether an expression
/// is pure: a binding that goes is pure, and every call stays.
pub proof fn lemma_dce_keeps_purity(used: Set<Seq<char>>, m: Map<Seq<char>, Pureness>, e: ExprView)
    ensures
        is_pure(m, dce(used, m, e)) == is_pure(m, e),
    decreases e, 0int,
{
    match e {
        ExprView::Const(_, _) => {},
        ExprView::Ident(_, _) => {},
        ExprView::Data(_, args, _) => {
            lemma_dce_all_keeps_purity(used, m, args);
        },
        ExprView::Call(f, args) => {
            lemma_dce_keeps_pure_call(used, m, *f, args.len());
            lemma_dce_all_keeps_purity(used, m, args);
        },
        ExprView::Let(bind, body) => {
            lemma_dce_keeps_purity(used, m, *body);
            lemma_dce_binding_keeps_purity(used, m, *bind);
            if removable(used, m, *bind) {
                assert(crate::ir::purity::named_pure(m, bind.expr));
            }
        },
        ExprView::Match(scrutinee, alts) => {
            lemma_dce_keeps_purity(used, m, *scrutinee);
            let new_alts = dce_alts(used, m, alts);
            assert forall|i: int| 0 <= i < alts.len() implies is_pure(
                m,
                (#[trigger] new_alts[i]).expr,
            ) == is_pure(m, alts[i].expr) by {
                lemma_dce_keeps_purity(used, m, alts[i].expr);
            }
            if forall|i: int| 0 <= i < alts.len() ==> is_pure(m, (#[trigger] alts[i]).expr) {
                assert forall|i: int| 0 <= i < new_alts.len() implies is_pure(
                    m,
                    (#[trigger] new_alts[i]).expr,
                ) by {
                    assert(is_pure(m, alts[i].expr));
                }
            } else {
                let i = choose|i: int| 0 <= i < alts.len() && !is_pure(m, (#[trigger] alts[i]).expr);
                assert(!is_pure(m, new_alts[i].expr));
            }
        },
        ExprView::Cast(inner, _) => {
            lemma_dce_keeps_purity(used, m, *inner);
        },
    }
}

pub proof fn lemma_dce_keeps_pure_call(
    used: Set<Seq<char>>,
    m: Map<Seq<char>, Pureness>,
    f: ExprView,
    nargs: nat,
)
    ensures
        crate::ir::purity::pure_call(m, dce(used, m, f), nargs) == crate::ir::purity::pure_call(
            m,
            f,
            nargs,
        ),
    decreases f, 1int,
{
    match f {
        ExprView::Let(bind, body) => {
            lemma_dce_keeps_pure_call(used, m, *body, nargs);
            lemma_dce_binding_keeps_purity(used, m, *bind);
            if removable(used, m, *bind) {
                assert(crate::ir::purity::named_pure(m, bind.expr));
            }
        },
        _ => {},
    }
}

pub proof fn lemma_dce_binding_keeps_purity(
    used: Set<Seq<char>>,
    m: Map<Seq<char>, Pureness>,
    b: LetBindingView,
)
    ensures
        crate::ir::purity::named_pure(m, dce_binding(used, m, b).expr)
            == crate::ir::purity::named_pure(m, b.expr),
    decreases b, 1int,
{
    match b.expr {
        NamedView::Expr(rhs) => {
            lemma_dce_keeps_purity(used, m, *rhs);
        },
        NamedView::Recursive(_) => {},
    }
}

pub proof fn lemma_dce_all_keeps_purity(
    used: Set<Seq<char>>,
    m: Map<Seq<char>, Pureness>,
    s: Seq<ExprView>,
)
    ensures
        crate::ir::purity::all_pure(m, dce_all(used, m, s)) == crate::ir::purity::all_pure(m, s),
    decreases s, 1int,
{
    let t = dce_all(used, m, s);
    assert forall|i: int| 0 <= i < s.len() implies is_pure(m, #[trigger] t[i]) == is_pure(
        m,
        s[i],
    ) by {
        lemma_dce_keeps_purity(used, m, s[i]);
    }
    if crate::ir::purity::all_pure(m, s) {
        assert forall|i: int| 0 <= i < t.len() implies is_pure(m, #[trigger] t[i]) by {
            assert(is_pure(m, s[i]));
        }
    } else {
        let i = choose|i: int| 0 <= i < s.len() && !is_pure(m, #[trigger] s[i]);
        assert(!is_pure(m, t[i]));
    }
}

/// Every closure that is left of a group is used and holds no let
/// binding that can go.
pub proof fn lemma_dce_closures_minimal(
    used: Set<Seq<char>>,
    m: Map<Seq<char>, Pureness>,
    s: Seq<ClosureView>,
    from: int,
)
    requires
        0 <= from,
    ensures
        forall|i: int|
            0 <= i < dce_closures(used, m, s, from).len() ==> used.contains(
                (#[trigger] dce_closures(used, m, s, from)[i]).name.name,
            ) && no_dead_binding(used, m, dce_closures(used, m, s, from)[i].expr),
    decreases s, s.len() - from,
{
    if from < s.len() {
        lemma_dce_closures_minimal(used, m, s, from + 1);
        let t = dce_closures(used, m, s, from);
        let rest = dce_closures(used, m, s, from + 1);
        if used.contains(s[from].name.name) {
            lemma_dce_minimal(used, m, s[from].expr);
            let first = dce_closure(used, m, s[from]);
            assert(t == seq![first] + rest);
            assert forall|i: int| 0 <= i < t.len() implies used.contains(
                (#[trigger] t[i]).name.name,
            ) && no_dead_binding(used, m, t[i].expr) by {
                if i == 0 {
                    assert(t[0] == first);
                } else {
                    assert(t[i] == rest[i - 1]);
                }
            }
        }
    }
}

/// A closure that is used is left of its group.
pub proof fn lemma_dce_closures_keep(
    used: Set<Seq<char>>,
    m: Map<Seq<char>, Pureness>,
    s: Seq<ClosureView>,
    from: int,
    k: int,
)
    requires
        0 <= from <= k < s.len(),
        used.contains(s[k].name.name),
    ensures
        exists|i: int|
            0 <= i < dce_closures(used, m, s, from).len() && (#[trigger] dce_closures(
                used,
                m,
                s,
                from,
            )[i]).name.name == s[k].name.name,
    decreases k - from,
{
    let t = dce_closures(used, m, s, from);
    if from == k {
        let first = dce_closure(used, m, s[k]);
        assert(t == seq![first] + dce_closures(used, m, s, from + 1));
        assert(t[0] == first);
    } else {
        lemma_dce_closures_keep(used, m, s, from + 1, k);
        let rest = dce_closures(used, m, s, from + 1);
        let i = choose|i: int| 0 <= i < rest.len() && (#[trigger] rest[i]).name.name == s[k].name.name;
        if used.contains(s[from].name.name) {
            assert(t == seq![dce_closure(used, m, s[from])] + rest);
            assert(t[i + 1] == rest[i]);
        }
    }
}

/// After the removal of dead bindings no let binding is left that is
/// both unused and pure: every plain binding that stays is used or binds
/// something that has an effect, and every recursive group that stays
/// has a closure that is used.
pub proof fn lemma_dce_minimal(used: Set<Seq<char>>, m: Map<Seq<char>, Pureness>, e: ExprView)
    ensures
        no_dead_binding(used, m, dce(used, m, e)),
    decreases e, 0int,
{
    match e {
        ExprView::Const(_, _) => {},
        ExprView::Ident(_, _) => {},
        ExprView::Data(_, args, _) => {
            let t = dce_all(used, m, args);
            assert forall|i: int| 0 <= i < t.len() implies no_dead_binding(
                used,
                m,
                #[trigger] t[i],
            ) by {
                lemma_dce_minimal(used, m, args[i]);
            }
        },
        ExprView::Call(f, args) => {
            lemma_dce_minimal(used, m, *f);
            let t = dce_all(used, m, args);
            assert forall|i: int| 0 <= i < t.len() implies no_dead_binding(
                used,
                m,
                #[trigger] t[i],
            ) by {
                lemma_dce_minimal(used, m, args[i]);
            }
        },
        ExprView::Let(bind, body) => {
            lemma_dce_minimal(used, m, *body);
            if !removable(used, m, *bind) {
                let b = dce_binding(used, m, *bind);
                match bind.expr {
                    NamedView::Expr(rhs) => {
                        lemma_dce_minimal(used, m, *rhs);
                        lemma_dce_keeps_purity(used, m, *rhs);
                    },
                    NamedView::Recursive(closures) => {
                        lemma_dce_closures_minimal(used, m, closures, 0);
                        let k = choose|k: int|
                            0 <= k < closures.len() && used.contains(
                                (#[trigger] closures[k]).name.name,
                            );
                        lemma_dce_closures_keep(used, m, closures, 0, k);
                    },
                }
                assert(!removable(used, m, b));
                assert(no_dead_in_binding(used, m, b));
            }
        },
        ExprView::Match(scrutinee, alts) => {
            lemma_dce_minimal(used, m, *scrutinee);
            let t = dce_alts(used, m, alts);
            assert forall|i: int| 0 <= i < t.len() implies no_dead_binding(
                used,
                m,
                (#[trigger] t[i]).expr,
            ) by {
                lemma_dce_minimal(used, m, alts[i].expr);
            }
        },
        ExprView::Cast(inner, _) => {
            lemma_dce_minimal(used, m, *inner);
        },
    }
}

/// An expression that holds no let binding that can go is left as it is.
pub proof fn lemma_dce_fixed_point(used: Set<Seq<char>>, m: Map<Seq<char>, Pureness>, e: ExprView)
    requires
        no_dead_binding(used, m, e),
    ensures
        dce(used, m, e) == e,
    decreases e, 0int,
{
    match e {
        ExprView::Const(_, _) => {},
        ExprView::Ident(_, _) => {},
        ExprView::Data(_, args, _) => {
            lemma_dce_all_fixed_point(used, m, args);
        },
        ExprView::Call(f, args) => {
            lemma_dce_fixed_point(used, m, *f);
            lemma_dce_all_fixed_point(used, m, args);
        },
        ExprView::Let(bind, body) => {
            lemma_dce_fixed_point(used, m, *body);
            assert(no_dead_in_binding(used, m, *bind));
            match bind.expr {
                NamedView::Expr(rhs) => {
                    lemma_dce_fixed_point(used, m, *rhs);
                },
                NamedView::Recursive(closures) => {
                    lemma_dce_closures_fixed_point(used, m, closures, 0);
                    assert(closures.skip(0) =~= closures);
                },
            }
            assert(dce_binding(used, m, *bind) == *bind);
        },
        ExprView::Match(scrutinee, alts) => {
            lemma_dce_fixed_point(used, m, *scrutinee);
            let left = dce_alts(used, m, alts);
            assert forall|i: int| 0 <= i < alts.len() implies left[i] == alts[i] by {
                lemma_dce_fixed_point(used, m, alts[i].expr);
            }
            assert(left =~= alts);
        },
        ExprView::Cast(inner, _) => {
            lemma_dce_fixed_point(used, m, *inner);
        },
    }
}

proof fn lemma_dce_all_fixed_point(
    used: Set<Seq<char>>,
    m: Map<Seq<char>, Pureness>,
    s: Seq<ExprView>,
)
    requires
        forall|i: int| 0 <= i < s.len() ==> no_dead_binding(used, m, #[trigger] s[i]),
    ensures
        dce_all(used, m, s) == s,
    decreases s, 1int,
{
    let left = dce_all(used, m, s);
    assert forall|i: int| 0 <= i < s.len() implies left[i] == s[i] by {
        lemma_dce_fixed_point(used, m, s[i]);
    }
    assert(left =~= s);
}

proof fn lemma_dce_closures_fixed_point(
    used: Set<Seq<char>>,
    m: Map<Seq<char>, Pureness>,
    s: Seq<ClosureView>,
    from: int,
)
    requires
        0 <= from <= s.len(),
        forall|i: int|
            0 <= i < s.len() ==> used.contains((#[trigger] s[i]).name.name) && no_dead_binding(
                used,
                m,
                s[i].expr,
            ),
    ensures
        dce_closures(used, m, s, from) == s.skip(from),
    decreases s, s.len() - from,
{
    if from < s.len() {
        lemma_dce_closures_fixed_point(used, m, s, from + 1);
        lemma_dce_fixed_point(used, m, s[from].expr);
        assert(dce_closure(used, m, s[from]) == s[from]);
        assert(seq![s[from]] + s.skip(from + 1) =~= s.skip(from));
    } else {
        assert(s.skip(from) =~= Seq::<ClosureView>::empty());
    }
}

/// The removal of dead bindings is idempotent: a second removal with
/// the same used symbols and the same purity analysis changes nothing.
pub proof fn lemma_dce_idempotent(used: Set<Seq<char>>, m: Map<Seq<char>, Pureness>, e: ExprView)
    ensures
        dce(used, m, dce(used, m, e)) == dce(used, m, e),
{
    lemma_dce_minimal(used, m, e);
    lemma_dce_fixed_point(used, m, dce(used, m, e));
}

/// Whether `e` holds a use of the symbol `t`.
pub open spec fn mentions(e: ExprView, t: Seq<char>) -> bool
    decreases e, 0int,
{
    match e {
        ExprView::Const(_, _) => false,
        ExprView::Ident(id, _) => id.name == t,
        ExprView::Data(_, args, _) => exists|i: int|
            0 <= i < args.len() && mentions(#[trigger] args[i], t),
        ExprView::Call(f, args) => mentions(*f, t) || exists|i: int|
            0 <= i < args.len() && mentions(#[trigger] args[i], t),
        ExprView::Let(bind, body) => mentions_in_binding(*bind, t) || mentions(*body, t),
        ExprView::Match(scrutinee, alts) => mentions(*scrutinee, t) || exists|i: int|
            0 <= i < alts.len() && mentions((#[trigger] alts[i]).expr, t),
        ExprView::Cast(inner, _) => mentions(*inner, t),
    }
}

pub open spec fn mentions_in_binding(b: LetBindingView, t: Seq<char>) -> bool
    decreases b, 0int,
{
    match b.expr {
        NamedView::Expr(rhs) => mentions(*rhs, t),
        NamedView::Recursive(closures) => exists|i: int|
            0 <= i < closures.len() && mentions((#[trigger] closures[i]).expr, t),
    }
}

/// The removal of dead bindings introduces no use of a symbol: what is
/// left of an expression uses no symbol that the expression does not
/// use.
pub proof fn lemma_dce_keeps_uses(
    used: Set<Seq<char>>,
    m: Map<Seq<char>, Pureness>,
    e: ExprView,
    t: Seq<char>,
)
    requires
        mentions(dce(used, m, e), t),
    ensures
        mentions(e, t),
    decreases e, 1int,
{
    match e {
        ExprView::Const(_, _) => {},
        ExprView::Ident(_, _) => {},
        ExprView::Data(_, args, _) => {
            let left = dce_all(used, m, args);
            let i = choose|i: int| 0 <= i < left.len() && mentions(#[trigger] left[i], t);
            lemma_dce_keeps_uses(used, m, args[i], t);
        },
        ExprView::Call(f, args) => {
            let left = dce_all(used, m, args);
            if mentions(dce(used, m, *f), t) {
                lemma_dce_keeps_uses(used, m, *f, t);
            } else {
                let i = choose|i: int| 0 <= i < left.len() && mentions(#[trigger] left[i], t);
                lemma_dce_keeps_uses(used, m, args[i], t);
            }
        },
        ExprView::Let(bind, body) => {
            if removable(used, m, *bind) {
                lemma_dce_keeps_uses(used, m, *body, t);
            } else if mentions(dce(used, m, *body), t) {
                lemma_dce_keeps_uses(used, m, *body, t);
            } else {
                assert(mentions_in_binding(dce_binding(used, m, *bind), t));
                match bind.expr {
                    NamedView::Expr(rhs) => {
                        assert(dce_binding(used, m, *bind).expr == NamedView::Expr(
                            Box::new(dce(used, m, *rhs)),
                        ));
                        lemma_dce_keeps_uses(used, m, *rhs, t);
                        assert(mentions_in_binding(*bind, t));
                    },
                    NamedView::Recursive(closures) => {
                        let left = dce_closures(used, m, closures, 0);
                        assert(dce_binding(used, m, *bind).expr == NamedView::Recursive(left));
                        let i = choose|i: int|
                            0 <= i < left.len() && mentions((#[trigger] left[i]).expr, t);
                        lemma_dce_closures_keep_uses(used, m, closures, 0, i, t);
                        assert(mentions_in_binding(*bind, t));
                    },
                }
            }
        },
        ExprView::Match(scrutinee, alts) => {
            let left = dce_alts(used, m, alts);
            if mentions(dce(used, m, *scrutinee), t) {
                lemma_dce_keeps_uses(used, m, *scrutinee, t);
            } else {
                let i = choose|i: int|
                    0 <= i < left.len() && mentions((#[trigger] left[i]).expr, t);
                lemma_dce_keeps_uses(used, m, alts[i].expr, t);
            }
        },
        ExprView::Cast(inner, _) => {
            lemma_dce_keeps_uses(used, m, *inner, t);
        },
    }
}

proof fn lemma_dce_closures_keep_uses(
    used: Set<Seq<char>>,
    m: Map<Seq<char>, Pureness>,
    s: Seq<ClosureView>,
    from: int,
    i: int,
    t: Seq<char>,
)
    requires
        0 <= from <= s.len(),
        0 <= i < dce_closures(used, m, s, from).len(),
        mentions(dce_closures(used, m, s, from)[i].expr, t),
    ensures
        exists|j: int| 0 <= j < s.len() && mentions((#[trigger] s[j]).expr, t),
    decreases s, s.len() - from,
{
    if from < s.len() {
        let left = dce_closures(used, m, s, from);
        let rest = dce_closures(used, m, s, from + 1);
        if used.contains(s[from].name.name) {
            assert(left == seq![dce_closure(used, m, s[from])] + rest);
            if i == 0 {
                assert(left[0] == dce_closure(used, m, s[from]));
                lemma_dce_keeps_uses(used, m, s[from].expr, t);
            } else {
                assert(left[i] == rest[i - 1]);
                lemma_dce_closures_keep_uses(used, m, s, from + 1, i - 1, t);
            }
        } else {
            lemma_dce_closures_keep_uses(used, m, s, from + 1, i, t);
        }
    }
}

/// Whether every edge of `part` is an edge of `all`.
pub open spec fn contained(part: Seq<(Node, Seq<char>)>, all: Seq<(Node, Seq<char>)>) -> bool {
    forall|k: int| 0 <= k < part.len() ==> all.contains(#[trigger] part[k])
}

proof fn lemma_contained_split(
    a: Seq<(Node, Seq<char>)>,
    b: Seq<(Node, Seq<char>)>,
    all: Seq<(Node, Seq<char>)>,
)
    requires
        contained(a + b, all),
    ensures
        contained(a, all),
        contained(b, all),
{
    assert forall|k: int| 0 <= k < a.len() implies all.contains(#[trigger] a[k]) by {
        assert((a + b)[k] == a[k]);
    }
    assert forall|k: int| 0 <= k < b.len() implies all.contains(#[trigger] b[k]) by {
        assert((a + b)[a.len() + k] == b[k]);
    }
}

/// Whether an owner is the root or a symbol that the root reaches.
pub open spec fn owner_used(edges: Seq<(Node, Seq<char>)>, owner: Node) -> bool {
    match owner {
        Some(o) => reachable(edges, None, o),
        None => true,
    }
}

/// The target of an edge whose owner is the root, or reached by the
/// root, is reached by the root.
proof fn lemma_target_reached(edges: Seq<(Node, Seq<char>)>, owner: Node, t: Seq<char>)
    requires
        edges.contains((owner, t)),
        owner_used(edges, owner),
    ensures
        reachable(edges, None, t),
{
    let i = choose|i: int| 0 <= i < edges.len() && edges[i] == (owner, t);
    match owner {
        Some(o) => {
            let n = choose|n: nat| reach(edges, None, n).contains(o);
            assert(live(edges, None, reach(edges, None, n), i));
            assert(reach(edges, None, n + 1).contains(t));
        },
        None => {
            assert(live(edges, None, reach(edges, None, 0), i));
            assert(reach(edges, None, 1).contains(t));
        },
    }
}

/// In what is left of the part `e` of an expression with the edges
/// `edges`, where `e` stands in the definition of `owner`, every use is
/// that of a symbol that the root reaches.
proof fn lemma_uses_left_are_reached(
    m: Map<Seq<char>, Pureness>,
    edges: Seq<(Node, Seq<char>)>,
    e: ExprView,
    owner: Node,
    t: Seq<char>,
)
    requires
        owner_used(edges, owner),
        contained(edges_of(m, e, owner), edges),
        mentions(dce(Set::new(|s: Seq<char>| reachable(edges, None, s)), m, e), t),
    ensures
        reachable(edges, None, t),
    decreases e, 0int,
{
    let used = Set::new(|s: Seq<char>| reachable(edges, None, s));
    match e {
        ExprView::Const(_, _) => {},
        ExprView::Ident(id, _) => {
            assert(edges_of(m, e, owner)[0] == (owner, id.name));
            lemma_target_reached(edges, owner, t);
        },
        ExprView::Data(_, args, _) => {
            let left = dce_all(used, m, args);
            let i = choose|i: int| 0 <= i < left.len() && mentions(#[trigger] left[i], t);
            lemma_uses_left_in_list(m, edges, args, owner, 0, i, t);
        },
        ExprView::Call(f, args) => {
            lemma_contained_split(edges_of(m, *f, owner), edges_of_all(m, args, owner, 0), edges);
            if mentions(dce(used, m, *f), t) {
                lemma_uses_left_are_reached(m, edges, *f, owner, t);
            } else {
                let left = dce_all(used, m, args);
                let i = choose|i: int| 0 <= i < left.len() && mentions(#[trigger] left[i], t);
                lemma_uses_left_in_list(m, edges, args, owner, 0, i, t);
            }
        },
        ExprView::Let(bind, body) => {
            lemma_contained_split(
                edges_of_binding(m, *bind, owner),
                edges_of(m, *body, owner),
                edges,
            );
            if removable(used, m, *bind) || mentions(dce(used, m, *body), t) {
                lemma_uses_left_are_reached(m, edges, *body, owner, t);
            } else {
                assert(mentions_in_binding(dce_binding(used, m, *bind), t));
                match bind.expr {
                    NamedView::Expr(rhs) => {
                        if is_pure(m, *rhs) {
                            assert(used.contains(bind.name.name));
                            lemma_uses_left_are_reached(
                                m,
                                edges,
                                *rhs,
                                Some(bind.name.name),
                                t,
                            );
                        } else {
                            lemma_uses_left_are_reached(m, edges, *rhs, owner, t);
                        }
                    },
                    NamedView::Recursive(closures) => {
                        let left = dce_closures(used, m, closures, 0);
                        let i = choose|i: int|
                            0 <= i < left.len() && mentions((#[trigger] left[i]).expr, t);
                        lemma_uses_left_in_closures(m, edges, closures, 0, i, t);
                    },
                }
            }
        },
        ExprView::Match(scrutinee, alts) => {
            lemma_contained_split(
                edges_of(m, *scrutinee, owner),
                edges_of_alts(m, alts, owner, 0),
                edges,
            );
            if mentions(dce(used, m, *scrutinee), t) {
                lemma_uses_left_are_reached(m, edges, *scrutinee, owner, t);
            } else {
                let left = dce_alts(used, m, alts);
                let i = choose|i: int|
                    0 <= i < left.len() && mentions((#[trigger] left[i]).expr, t);
                lemma_uses_left_in_alts(m, edges, alts, owner, 0, i, t);
            }
        },
        ExprView::Cast(inner, _) => {
            lemma_uses_left_are_reached(m, edges, *inner, owner, t);
        },
    }
}

proof fn lemma_uses_left_in_list(
    m: Map<Seq<char>, Pureness>,
    edges: Seq<(Node, Seq<char>)>,
    s: Seq<ExprView>,
    owner: Node,
    from: int,
    i: int,
    t: Seq<char>,
)
    requires
        owner_used(edges, owner),
        0 <= from <= i < s.len(),
        contained(edges_of_all(m, s, owner, from), edges),
        mentions(dce(Set::new(|s: Seq<char>| reachable(edges, None, s)), m, s[i]), t),
    ensures
        reachable(edges, None, t),
    decreases s, s.len() - from,
{
    lemma_contained_split(edges_of(m, s[from], owner), edges_of_all(m, s, owner, from + 1), edges);
    if from == i {
        lemma_uses_left_are_reached(m, edges, s[i], owner, t);
    } else {
        lemma_uses_left_in_list(m, edges, s, owner, from + 1, i, t);
    }
}

proof fn lemma_uses_left_in_alts(
    m: Map<Seq<char>, Pureness>,
    edges: Seq<(Node, Seq<char>)>,
    s: Seq<AlternativeView>,
    owner: Node,
    from: int,
    i: int,
    t: Seq<char>,
)
    requires
        owner_used(edges, owner),
        0 <= from <= i < s.len(),
        contained(edges_of_alts(m, s, owner, from), edges),
        mentions(dce(Set::new(|s: Seq<char>| reachable(edges, None, s)), m, s[i].expr), t),
    ensures
        reachable(edges, None, t),
    decreases s, s.len() - from,
{
    lemma_contained_split(
        edges_of(m, s[from].expr, owner),
        edges_of_alts(m, s, owner, from + 1),
        edges,
    );
    if from == i {
        lemma_uses_left_are_reached(m, edges, s[i].expr, owner, t);
    } else {
        lemma_uses_left_in_alts(m, edges, s, owner, from + 1, i, t);
    }
}

proof fn lemma_uses_left_in_closures(
    m: Map<Seq<char>, Pureness>,
    edges: Seq<(Node, Seq<char>)>,
    s: Seq<ClosureView>,
    from: int,
    i: int,
    t: Seq<char>,
)
    requires
        0 <= from <= s.len(),
        contained(edges_of_closures(m, s, from), edges),
        0 <= i < dce_closures(Set::new(|s: Seq<char>| reachable(edges, None, s)), m, s, from).len(),
        mentions(
            dce_closures(Set::new(|s: Seq<char>| reachable(edges, None, s)), m, s, from)[i].expr,
            t,
        ),
    ensures
        reachable(edges, None, t),
    decreases s, s.len() - from,
{
    let used = Set::new(|s: Seq<char>| reachable(edges, None, s));
    if from < s.len() {
        lemma_contained_split(
            edges_of(m, s[from].expr, Some(s[from].name.name)),
            edges_of_closures(m, s, from + 1),
            edges,
        );
        let left = dce_closures(used, m, s, from);
        let rest = dce_closures(used, m, s, from + 1);
        if used.contains(s[from].name.name) {
            assert(left == seq![dce_closure(used, m, s[from])] + rest);
            if i == 0 {
                assert(left[0] == dce_closure(used, m, s[from]));
                lemma_uses_left_are_reached(m, edges, s[from].expr, Some(s[from].name.name), t);
            } else {
                assert(left[i] == rest[i - 1]);
                lemma_uses_left_in_closures(m, edges, s, from + 1, i - 1, t);
            }
        } else {
            lemma_uses_left_in_closures(m, edges, s, from + 1, i, t);
        }
    }
}

/// The removal of the dead bindings of an expression leaves no use of a
/// symbol that the expression does not use: whatever what is left
/// mentions is among the used symbols, and so is not a symbol whose
/// binding went.
pub proof fn lemma_dce_leaves_used_symbols(m: Map<Seq<char>, Pureness>, e: ExprView, t: Seq<char>)
    requires
        mentions(dce(used_symbols(m, e), m, e), t),
    ensures
        used_symbols(m, e).contains(t),
{
    let edges = edges_of(m, e, None);
    assert(used_symbols(m, e) =~= Set::new(|s: Seq<char>| reachable(edges, None, s)));
    assert(contained(edges, edges)) by {
        assert forall|k: int| 0 <= k < edges.len() implies edges.contains(#[trigger] edges[k]) by {}
    }
    lemma_uses_left_are_reached(m, edges, e, None, t);
}

/// A set of symbols.
pub struct SymbolSet {
    pub map: StringHashMap<()>,
}

impl View for SymbolSet {
    type V = Set<Seq<char>>;

    open spec fn view(&self) -> Set<Seq<char>> {
        self.map@.dom()
    }
}

impl SymbolSet {
    pub fn new() -> (r: SymbolSet)
        ensures
            r@ == Set::<Seq<char>>::empty(),
    {
        let r = SymbolSet { map: StringHashMap::new() };
        assert(r@ =~= Set::<Seq<char>>::empty());
        r
    }

    pub fn insert(&mut self, symbol: String)
        ensures
            final(self)@ == old(self)@.insert(symbol@),
    {
        self.map.insert(symbol, ());
        assert(self@ =~= old(self)@.insert(symbol@));
    }

    pub fn contains(&self, symbol: &str) -> (r: bool)
        ensures
            r == self@.contains(symbol@),
    {
        self.map.contains_key(symbol)
    }
}

/// The graph of the uses in an expression.
pub struct DepGraph {
    pub edges: Vec<Edge>,
}

impl View for DepGraph {
    type V = Seq<(Node, Seq<char>)>;

    open spec fn view(&self) -> Seq<(Node, Seq<char>)> {
        edges_view(self.edges@)
    }
}

/// The view of an optional name.
pub open spec fn node_view(owner: Option<&str>) -> Node {
    match owner {
        Some(o) => Some(o@),
        None => None,
    }
}

fn owned(owner: Option<&str>) -> (r: Option<String>)
    ensures
        match r {
            Some(o) => Some(o@),
            None => None,
        } == node_view(owner),
{
    match owner {
        Some(o) => Some(o.to_owned()),
        None => None,
    }
}

/// The number of edges among the first `n` whose target is not in `s`.
pub open spec fn unmarked(edges: Seq<(Node, Seq<char>)>, s: Set<Seq<char>>, n: nat) -> nat
    decreases n,
{
    if n == 0 {
        0
    } else {
        unmarked(edges, s, (n - 1) as nat) + if s.contains(edges[n - 1].1) {
            0nat
        } else {
            1nat
        }
    }
}

proof fn lemma_unmarked_shrinks(
    edges: Seq<(Node, Seq<char>)>,
    s: Set<Seq<char>>,
    t: Set<Seq<char>>,
    n: nat,
)
    requires
        s.subset_of(t),
        n <= edges.len(),
    ensures
        unmarked(edges, t, n) <= unmarked(edges, s, n),
        (exists|k: int| 0 <= k < n && !s.contains(edges[k].1) && t.contains(edges[k].1))
            ==> unmarked(edges, t, n) < unmarked(edges, s, n),
    decreases n,
{
    if n > 0 {
        lemma_unmarked_shrinks(edges, s, t, (n - 1) as nat);
        if exists|k: int| 0 <= k < n && !s.contains(edges[k].1) && t.contains(edges[k].1) {
            let k = choose|k: int| 0 <= k < n && !s.contains(edges[k].1) && t.contains(edges[k].1);
            if k < n - 1 {
                assert(exists|k: int|
                    0 <= k < n - 1 && !s.contains(edges[k].1) && t.contains(edges[k].1));
            }
        }
    }
}

/// A set that holds the target of every edge that starts at `src` or in
/// the set holds every symbol that `src` reaches.
proof fn lemma_closed_holds_reach(
    edges: Seq<(Node, Seq<char>)>,
    src: Node,
    s: Set<Seq<char>>,
    n: nat,
)
    requires
        forall|i: int| 0 <= i < edges.len() && live(edges, src, s, i) ==> s.contains((#[trigger] edges[i]).1),
    ensures
        reach(edges, src, n).subset_of(s),
    decreases n,
{
    if n > 0 {
        lemma_closed_holds_reach(edges, src, s, (n - 1) as nat);
        let prev = reach(edges, src, (n - 1) as nat);
        assert forall|t: Seq<char>| reach(edges, src, n).contains(t) implies s.contains(t) by {
            if !prev.contains(t) {
                let i = choose|i: int|
                    0 <= i < edges.len() && live(edges, src, prev, i) && (#[trigger] edges[i]).1
                        == t;
                assert(live(edges, src, s, i));
            }
        }
    }
}

/// Whatever `src` reaches, it reaches over an edge that starts at `src`.
proof fn lemma_reach_starts_at_src(edges: Seq<(Node, Seq<char>)>, src: Node, n: nat, t: Seq<char>)
    requires
        reach(edges, src, n).contains(t),
    ensures
        exists|i: int| 0 <= i < edges.len() && (#[trigger] edges[i]).0 == src,
    decreases n,
{
    if n > 0 {
        let prev = reach(edges, src, (n - 1) as nat);
        if prev.contains(t) {
            lemma_reach_starts_at_src(edges, src, (n - 1) as nat, t);
        } else {
            let i = choose|i: int|
                0 <= i < edges.len() && live(edges, src, prev, i) && (#[trigger] edges[i]).1 == t;
            if edges[i].0 != src {
                let o = edges[i].0->0;
                lemma_reach_starts_at_src(edges, src, (n - 1) as nat, o);
            }
        }
    }
}

impl DepGraph {
    pub fn new() -> (r: DepGraph)
        ensures
            r@ == Seq::<(Node, Seq<char>)>::empty(),
    {
        let r = DepGraph { edges: Vec::new() };
        assert(r@ =~= Seq::<(Node, Seq<char>)>::empty());
        r
    }

    /// Adds the uses that `expr` holds.
    pub fn visit_expr(&mut self, pure: &PurityMap, expr: &Expr, owner: Option<&str>)
        ensures
            final(self)@ == old(self)@ + edges_of(pure@, expr@, node_view(owner)),
        decreases expr, 0int,
    {
        proof {
            reveal_with_fuel(crate::ir::expr::named_view, 2);
            reveal_with_fuel(crate::ir::expr::binding_view, 2);
        }
        match expr {
            Expr::Const(_, _) => {
                assert(self@ =~= old(self)@ + edges_of(pure@, expr@, node_view(owner)));
            },
            Expr::Ident(id, _) => {
                self.edges.push(Edge { owner: owned(owner), target: id.name.name.clone() });
                assert(self@ =~= old(self)@ + edges_of(pure@, expr@, node_view(owner)));
            },
            Expr::Data(_, args, _) => {
                self.visit_all(pure, args, owner);
            },
            Expr::Call(f, args) => {
                self.visit_expr(pure, &**f, owner);
                self.visit_all(pure, args, owner);
                assert(self@ =~= old(self)@ + edges_of(pure@, expr@, node_view(owner)));
            },
            Expr::Let(bind, body) => {
                match &bind.expr {
                    Named::Expr(rhs) => {
                        if pure.is_pure(&**rhs) {
                            self.visit_expr(pure, &**rhs, Some(bind.name.name.as_str()));
                        } else {
                            self.visit_expr(pure, &**rhs, owner);
                        }
                    },
                    Named::Recursive(closures) => {
                        self.visit_closures(pure, closures);
                    },
                }
                assert(self@ == old(self)@ + edges_of_binding(pure@, bind@, node_view(owner)));
                self.visit_expr(pure, &**body, owner);
                assert(self@ =~= old(self)@ + edges_of(pure@, expr@, node_view(owner)));
            },
            Expr::Match(scrutinee, alts) => {
                self.visit_expr(pure, &**scrutinee, owner);
                self.visit_alts(pure, alts, owner);
                assert(self@ =~= old(self)@ + edges_of(pure@, expr@, node_view(owner)));
            },
            Expr::Cast(inner, _) => {
                self.visit_expr(pure, &**inner, owner);
            },
        }
    }

    fn visit_all(&mut self, pure: &PurityMap, exprs: &Vec<CExpr>, owner: Option<&str>)
        ensures
            final(self)@ == old(self)@ + edges_of_all(
                pure@,
                exprs_view(exprs@),
                node_view(owner),
                0,
            ),
        decreases exprs, 1int,
    {
        let ghost views = exprs_view(exprs@);
        let ghost start = self@;
        let mut i: usize = 0;
        assert(start + edges_of_all(pure@, views, node_view(owner), 0) =~= start + edges_of_all(
            pure@,
            views,
            node_view(owner),
            0,
        ));
        while i < exprs.len()
            invariant
                i <= exprs.len(),
                views == exprs_view(exprs@),
                start + edges_of_all(pure@, views, node_view(owner), 0) == self@ + edges_of_all(
                    pure@,
                    views,
                    node_view(owner),
                    i as int,
                ),
            decreases exprs.len() - i,
        {
            assert(views[i as int] == exprs@[i as int]@);
            let ghost before = self@;
            self.visit_expr(pure, &*exprs[i], owner);
            assert(before + edges_of_all(pure@, views, node_view(owner), i as int) =~= self@
                + edges_of_all(pure@, views, node_view(owner), i + 1));
            i += 1;
        }
        assert(self@ + edges_of_all(pure@, views, node_view(owner), i as int) =~= self@);
    }

    fn visit_alts(&mut self, pure: &PurityMap, alts: &Vec<Alternative>, owner: Option<&str>)
        ensures
            final(self)@ == old(self)@ + edges_of_alts(
                pure@,
                alts_view(alts@),
                node_view(owner),
                0,
            ),
        decreases alts, 1int,
    {
        let ghost views = alts_view(alts@);
        let ghost start = self@;
        let mut i: usize = 0;
        while i < alts.len()
            invariant
                i <= alts.len(),
                views == alts_view(alts@),
                start + edges_of_alts(pure@, views, node_view(owner), 0) == self@ + edges_of_alts(
                    pure@,
                    views,
                    node_view(owner),
                    i as int,
                ),
            decreases alts.len() - i,
        {
            assert(views[i as int] == alts@[i as int]@);
            let ghost before = self@;
            self.visit_expr(pure, &*alts[i].expr, owner);
            assert(before + edges_of_alts(pure@, views, node_view(owner), i as int) =~= self@
                + edges_of_alts(pure@, views, node_view(owner), i + 1));
            i += 1;
        }
        assert(self@ + edges_of_alts(pure@, views, node_view(owner), i as int) =~= self@);
    }

    fn visit_closures(&mut self, pure: &PurityMap, closures: &Vec<Closure>)
        ensures
            final(self)@ == old(self)@ + edges_of_closures(pure@, closures_view(closures@), 0),
        decreases closures, 1int,
    {
        let ghost views = closures_view(closures@);
        let ghost start = self@;
        let mut i: usize = 0;
        while i < closures.len()
            invariant
                i <= closures.len(),
                views == closures_view(closures@),
                start + edges_of_closures(pure@, views, 0) == self@ + edges_of_closures(
                    pure@,
                    views,
                    i as int,
                ),
            decreases closures.len() - i,
        {
            let closure = &closures[i];
            assert(views[i as int] == closure@);
            let ghost before = self@;
            self.visit_expr(pure, &*closure.expr, Some(closure.name.name.as_str()));
            assert(before + edges_of_closures(pure@, views, i as int) =~= self@
                + edges_of_closures(pure@, views, i + 1));
            i += 1;
        }
        assert(self@ + edges_of_closures(pure@, views, i as int) =~= self@);
    }

    /// Whether the edge at `i` starts at `src` or at a symbol of `set`.
    fn is_live(&self, src: Option<&str>, set: &SymbolSet, i: usize) -> (r: bool)
        requires
            i < self.edges@.len(),
        ensures
            r == live(self@, node_view(src), set@, i as int),
    {
        let edge = &self.edges[i];
        assert(self@[i as int] == edge@);
        match &edge.owner {
            Some(o) => {
                let same = match src {
                    Some(s) => str_eq(o.as_str(), s),
                    None => false,
                };
                same || set.contains(o.as_str())
            },
            None => src.is_none(),
        }
    }

    /// The symbols that `src` reaches over one edge or more.
    pub fn reachable_from(&self, src: Option<&str>) -> (r: SymbolSet)
        ensures
            forall|t: Seq<char>| r@.contains(t) <==> reachable(self@, node_view(src), t),
    {
        let ghost edges = self@;
        let ghost from = node_view(src);
        let mut set = SymbolSet::new();
        let n = self.edges.len();
        loop
            invariant
                edges == self@,
                from == node_view(src),
                n == self.edges@.len(),
                forall|t: Seq<char>| set@.contains(t) ==> reachable(edges, from, t),
            ensures
                forall|t: Seq<char>| set@.contains(t) ==> reachable(edges, from, t),
                forall|i: int|
                    0 <= i < edges.len() && live(edges, from, set@, i) ==> set@.contains(
                        (#[trigger] edges[i]).1,
                    ),
            decreases unmarked(edges, set@, n as nat),
        {
            let ghost start = set@;
            let mut changed = false;
            let mut i: usize = 0;
            while i < n
                invariant
                    i <= n,
                    edges == self@,
                    from == node_view(src),
                    n == self.edges@.len(),
                    start.subset_of(set@),
                    forall|t: Seq<char>| set@.contains(t) ==> reachable(edges, from, t),
                    changed ==> exists|k: int|
                        0 <= k < n && !start.contains(edges[k].1) && set@.contains(edges[k].1),
                    !changed ==> set@ == start && forall|k: int|
                        0 <= k < i && live(edges, from, set@, k) ==> set@.contains(
                            (#[trigger] edges[k]).1,
                        ),
                decreases n - i,
            {
                let edge = &self.edges[i];
                assert(edges[i as int] == edge@);
                if self.is_live(src, &set, i) && !set.contains(edge.target.as_str()) {
                    proof {
                        let t = edge.target@;
                        if edges[i as int].0 == from {
                            assert(live(edges, from, reach(edges, from, 0), i as int));
                            assert(reach(edges, from, 1).contains(t));
                        } else {
                            let o = edges[i as int].0->0;
                            let k = choose|k: nat| reach(edges, from, k).contains(o);
                            assert(live(edges, from, reach(edges, from, k), i as int));
                            assert(reach(edges, from, k + 1).contains(t));
                        }
                        assert(reachable(edges, from, t));
                        if changed {
                            let k = choose|k: int|
                                0 <= k < n && !start.contains(edges[k].1) && set@.contains(
                                    edges[k].1,
                                );
                            assert(set@.insert(t).contains(edges[k].1));
                        } else {
                            assert(!start.contains(edges[i as int].1));
                        }
                    }
                    set.insert(edge.target.clone());
                    changed = true;
                }
                i += 1;
            }
            if !changed {
                break;
            }
            proof {
                lemma_unmarked_shrinks(edges, start, set@, n as nat);
            }
        }
        proof {
            assert forall|t: Seq<char>| reachable(edges, from, t) implies set@.contains(t) by {
                let k = choose|k: nat| reach(edges, from, k).contains(t);
                lemma_closed_holds_reach(edges, from, set@, k);
            }
        }
        set
    }

    /// Records the uses in `expr` and returns the symbols that the root
    /// uses in the graph, directly or through the definitions of symbols
    /// that it uses. On a graph that was empty these are the used
    /// symbols of `expr`.
    pub fn used_bindings(&mut self, pure: &PurityMap, expr: &CExpr) -> (r: SymbolSet)
        ensures
            final(self)@ == old(self)@ + edges_of(pure@, expr@, None),
            forall|t: Seq<char>| r@.contains(t) <==> reachable(final(self)@, None, t),
            old(self)@.len() == 0 ==> r@ == used_symbols(pure@, expr@),
    {
        self.visit_expr(pure, &**expr, None);
        let r = self.reachable_from(None);
        proof {
            if old(self)@.len() == 0 {
                assert(self@ =~= edges_of(pure@, expr@, None));
                assert(r@ =~= used_symbols(pure@, expr@));
            }
        }
        r
    }

    /// The symbols whose definition uses the symbol itself, directly or
    /// through others.
    pub fn cycles(&self) -> (r: SymbolSet)
        ensures
            forall|t: Seq<char>| r@.contains(t) <==> reachable(self@, Some(t), t),
    {
        let ghost edges = self@;
        let mut set = SymbolSet::new();
        let mut i: usize = 0;
        while i < self.edges.len()
            invariant
                i <= self.edges@.len(),
                edges == self@,
                forall|t: Seq<char>| set@.contains(t) ==> reachable(edges, Some(t), t),
                forall|k: int|
                    0 <= k < i ==> match (#[trigger] edges[k]).0 {
                        Some(o) => reachable(edges, Some(o), o) ==> set@.contains(o),
                        None => true,
                    },
            decreases self.edges@.len() - i,
        {
            let edge = &self.edges[i];
            assert(edges[i as int] == edge@);
            match &edge.owner {
                Some(o) => {
                    if !set.contains(o.as_str()) {
                        let reached = self.reachable_from(Some(o.as_str()));
                        if reached.contains(o.as_str()) {
                            set.insert(o.clone());
                        }
                    }
                },
                None => {},
            }
            i += 1;
        }
        proof {
            assert forall|t: Seq<char>| reachable(edges, Some(t), t) implies set@.contains(t) by {
                let n = choose|n: nat| reach(edges, Some(t), n).contains(t);
                lemma_reach_starts_at_src(edges, Some(t), n, t);
                let k = choose|k: int| 0 <= k < edges.len() && (#[trigger] edges[k]).0 == Some(t);
                assert(edges[k].0 == Some(t));
            }
        }
        set
    }
}

/// The removal of the let bindings of `expr` that nothing in `used`
/// names and that bind something pure.
pub fn dead_code_elimination(used: &SymbolSet, pure: &PurityMap, expr: &CExpr) -> (r: CExpr)
    ensures
        r@ == dce(used@, pure@, expr@),
    decreases **expr, 0int,
{
    proof {
        reveal_with_fuel(crate::ir::expr::named_view, 2);
        reveal_with_fuel(crate::ir::expr::binding_view, 2);
    }
    match &**expr {
        Expr::Const(_, _) => share(expr),
        Expr::Ident(_, _) => share(expr),
        Expr::Data(id, args, pos) => Arc::new(
            Expr::Data(id.duplicate(), eliminate_all(used, pure, args), *pos),
        ),
        Expr::Call(f, args) => Arc::new(
            Expr::Call(
                dead_code_elimination(used, pure, f),
                eliminate_all(used, pure, args),
            ),
        ),
        Expr::Let(bind, body) => {
            let new_body = dead_code_elimination(used, pure, body);
            match &bind.expr {
                Named::Expr(rhs) => {
                    if !used.contains(bind.name.name.as_str()) && pure.is_pure(&**rhs) {
                        new_body
                    } else {
                        let new_bind = LetBinding {
                            name: bind.name.duplicate(),
                            expr: Named::Expr(dead_code_elimination(used, pure, rhs)),
                            span_start: bind.span_start,
                        };
                        assert(new_bind@ == dce_binding(used@, pure@, bind@));
                        Arc::new(Expr::Let(Arc::new(new_bind), new_body))
                    }
                },
                Named::Recursive(closures) => {
                    if group_is_unused(used, closures) {
                        new_body
                    } else {
                        let new_bind = LetBinding {
                            name: bind.name.duplicate(),
                            expr: Named::Recursive(eliminate_closures(used, pure, closures)),
                            span_start: bind.span_start,
                        };
                        assert(new_bind@ == dce_binding(used@, pure@, bind@));
                        Arc::new(Expr::Let(Arc::new(new_bind), new_body))
                    }
                },
            }
        },
        Expr::Match(scrutinee, alts) => Arc::new(
            Expr::Match(
                dead_code_elimination(used, pure, scrutinee),
                eliminate_alts(used, pure, alts),
            ),
        ),
        Expr::Cast(inner, typ) => Arc::new(
            Expr::Cast(dead_code_elimination(used, pure, inner), share(typ)),
        ),
    }
}

fn group_is_unused(used: &SymbolSet, closures: &Vec<Closure>) -> (r: bool)
    ensures
        r == group_unused(used@, closures_view(closures@)),
{
    let ghost views = closures_view(closures@);
    let mut i: usize = 0;
    while i < closures.len()
        invariant
            i <= closures.len(),
            views == closures_view(closures@),
            forall|j: int| 0 <= j < i ==> !used@.contains((#[trigger] views[j]).name.name),
        decreases closures.len() - i,
    {
        assert(views[i as int] == closures@[i as int]@);
        if used.contains(closures[i].name.name.as_str()) {
            return false;
        }
        i += 1;
    }
    true
}

fn eliminate_all(used: &SymbolSet, pure: &PurityMap, exprs: &Vec<CExpr>) -> (r: Vec<CExpr>)
    ensures
        exprs_view(r@) == dce_all(used@, pure@, exprs_view(exprs@)),
    decreases exprs, 1int,
{
    let mut out: Vec<CExpr> = Vec::new();
    let mut i: usize = 0;
    while i < exprs.len()
        invariant
            i <= exprs.len(),
            out@.len() == i,
            forall|j: int| 0 <= j < i ==> (#[trigger] out@[j])@ == dce(used@, pure@, exprs@[j]@),
        decreases exprs.len() - i,
    {
        out.push(dead_code_elimination(used, pure, &exprs[i]));
        i += 1;
    }
    assert(exprs_view(out@) =~= dce_all(used@, pure@, exprs_view(exprs@)));
    out
}

fn eliminate_alts(used: &SymbolSet, pure: &PurityMap, alts: &Vec<Alternative>) -> (r: Vec<
    Alternative,
>)
    ensures
        alts_view(r@) == dce_alts(used@, pure@, alts_view(alts@)),
    decreases alts, 1int,
{
    let mut out: Vec<Alternative> = Vec::new();
    let mut i: usize = 0;
    while i < alts.len()
        invariant
            i <= alts.len(),
            out@.len() == i,
            forall|j: int|
                0 <= j < i ==> (#[trigger] out@[j])@ == (AlternativeView {
                    pattern: alts@[j]@.pattern,
                    expr: dce(used@, pure@, alts@[j]@.expr),
                }),
        decreases alts.len() - i,
    {
        let alt = &alts[i];
        out.push(
            Alternative {
                pattern: alt.pattern.duplicate(),
                expr: dead_code_elimination(used, pure, &alt.expr),
            },
        );
        i += 1;
    }
    assert(alts_view(out@) =~= dce_alts(used@, pure@, alts_view(alts@)));
    out
}

fn eliminate_closures(used: &SymbolSet, pure: &PurityMap, closures: &Vec<Closure>) -> (r: Vec<
    Closure,
>)
    ensures
        closures_view(r@) == dce_closures(used@, pure@, closures_view(closures@), 0),
    decreases closures, 1int,
{
    let ghost views = closures_view(closures@);
    let mut out: Vec<Closure> = Vec::new();
    let mut i: usize = 0;
    assert(closures_view(out@) + dce_closures(used@, pure@, views, 0) =~= dce_closures(
        used@,
        pure@,
        views,
        0,
    ));
    while i < closures.len()
        invariant
            i <= closures.len(),
            views == closures_view(closures@),
            dce_closures(used@, pure@, views, 0) == closures_view(out@) + dce_closures(
                used@,
                pure@,
                views,
                i as int,
            ),
        decreases closures.len() - i,
    {
        let closure = &closures[i];
        assert(views[i as int] == closure@);
        if used.contains(closure.name.name.as_str()) {
            let ghost done = closures_view(out@);
            let kept = Closure {
                pos: closure.pos,
                name: closure.name.duplicate(),
                args: duplicate_idents(&closure.args),
                expr: dead_code_elimination(used, pure, &closure.expr),
            };
            assert(kept@ == dce_closure(used@, pure@, closure@));
            out.push(kept);
            assert(closures_view(out@) =~= done.push(kept@));
            assert(done + (seq![kept@] + dce_closures(used@, pure@, views, i + 1)) =~= done.push(
                kept@,
            ) + dce_closures(used@, pure@, views, i + 1));
        }
        i += 1;
    }
    assert(closures_view(out@) + dce_closures(used@, pure@, views, i as int) =~= closures_view(
        out@,
    ));
    out
}

} // verus!
