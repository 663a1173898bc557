//! Cost analysis: for each let-bound symbol, the size of its definition
//! and whether the definition leads back to the symbol.

use vstd::prelude::*;
use vstd::hash_map::StringHashMap;
use crate::ir::dead_code::SymbolSet;
use crate::ir::expr::{
    alts_view,
    closures_view,
    exprs_view,
    Alternative,
    AlternativeView,
    CExpr,
    Closure,
    ClosureView,
    Expr,
    ExprView,
    LetBindingView,
    Named,
    NamedView,
};

verus! {

/// What the cost analysis records of a let-bound symbol.
#[derive(Clone, Copy, Debug, PartialEq, Eq, Structural)]
pub struct Cost {
    /// The number of nodes of the definition, or `u32::MAX` where it has
    /// more than that.
    pub cost: u32,
    /// Whether the definition uses the symbol itself, directly or
    /// through others. Such a definition is not inlined.
    pub cyclic: bool,
}

/// The number of nodes of an expression, the definitions of the symbols
/// that it binds included.
pub open spec fn expr_cost(e: ExprView) -> nat
    decreases e, 0int,
{
    match e {
        ExprView::Const(_, _) => 1,
        ExprView::Ident(_, _) => 1,
        ExprView::Data(_, args, _) => 1 + cost_of_all(args, 0),
        ExprView::Call(f, args) => 1 + expr_cost(*f) + cost_of_all(args, 0),
        ExprView::Let(bind, body) => 1 + named_cost(bind.expr) + expr_cost(*body),
        ExprView::Match(scrutinee, alts) => 1 + expr_cost(*scrutinee) + cost_of_alts(alts, 0),
        ExprView::Cast(inner, _) => 1 + expr_cost(*inner),
    }
}

pub open spec fn cost_of_all(s: Seq<ExprView>, from: int) -> nat
    decreases s, s.len() - from,
{
    if 0 <= from < s.len() {
        expr_cost(s[from]) + cost_of_all(s, from + 1)
    } else {
        0
    }
}

pub open spec fn cost_of_alts(s: Seq<AlternativeView>, from: int) -> nat
    decreases s, s.len() - from,
{
    if 0 <= from < s.len() {
        expr_cost(s[from].expr) + cost_of_alts(s, from + 1)
    } else {
        0
    }
}

pub open spec fn cost_of_closures(s: Seq<ClosureView>, from: int) -> nat
    decreases s, s.len() - from,
{
    if 0 <= from < s.len() {
        expr_cost(s[from].expr) + cost_of_closures(s, from + 1)
    } else {
        0
    }
}

pub open spec fn named_cost(n: NamedView) -> nat
    decreases n, 0int,
{
    match n {
        NamedView::Recursive(closures) => cost_of_closures(closures, 0),
        NamedView::Expr(e) => expr_cost(*e),
    }
}

/// A count as the table holds it.
pub open spec fn capped(n: nat) -> u32 {
    if n <= u32::MAX {
        n as u32
    } else {
        u32::MAX
    }
}

fn add_capped(a: u32, b: u32) -> (r: u32)
    ensures
        r == capped((a + b) as nat),
{
    if a > u32::MAX - b {
        u32::MAX
    } else {
        a + b
    }
}

/// The table once `e` has been traversed, starting from `c`: every
/// symbol that `e` binds has the cost of its definition, and is marked
/// where `cyclic` names it. Where a name is bound again, the later
/// binding decides.
pub open spec fn costs_of(c: Map<Seq<char>, Cost>, cyclic: Set<Seq<char>>, e: ExprView) -> Map<
    Seq<char>,
    Cost,
>
    decreases e, 0int,
{
    match e {
        ExprView::Const(_, _) => c,
        ExprView::Ident(_, _) => c,
        ExprView::Data(_, args, _) => costs_of_all(c, cyclic, args, 0),
        ExprView::Call(f, args) => costs_of_all(costs_of(c, cyclic, *f), cyclic, args, 0),
        ExprView::Let(bind, body) => costs_of(costs_of_binding(c, cyclic, *bind), cyclic, *body),
        ExprView::Match(scrutinee, alts) => costs_of_alts(
            costs_of(c, cyclic, *scrutinee),
            cyclic,
            alts,
            0,
        ),
        ExprView::Cast(inner, _) => costs_of(c, cyclic, *inner),
    }
}

pub open spec fn costs_of_all(
    c: Map<Seq<char>, Cost>,
    cyclic: Set<Seq<char>>,
    s: Seq<ExprView>,
    from: int,
) -> Map<Seq<char>, Cost>
    decreases s, s.len() - from,
{
    if 0 <= from < s.len() {
        costs_of_all(costs_of(c, cyclic, s[from]), cyclic, s, from + 1)
    } else {
        c
    }
}

pub open spec fn costs_of_alts(
    c: Map<Seq<char>, Cost>,
    cyclic: Set<Seq<char>>,
    s: Seq<AlternativeView>,
    from: int,
) -> Map<Seq<char>, Cost>
    decreases s, s.len() - from,
{
    if 0 <= from < s.len() {
        costs_of_alts(costs_of(c, cyclic, s[from].expr), cyclic, s, from + 1)
    } else {
        c
    }
}

/// The entry of the table for the symbol `name`, defined by `e`.
pub open spec fn cost_entry(cyclic: Set<Seq<char>>, name: Seq<char>, e: ExprView) -> Cost {
    Cost { cost: capped(expr_cost(e)), cyclic: cyclic.contains(name) }
}

pub open spec fn costs_of_closures(
    c: Map<Seq<char>, Cost>,
    cyclic: Set<Seq<char>>,
    s: Seq<ClosureView>,
    from: int,
) -> Map<Seq<char>, Cost>
    decreases s, s.len() - from,
{
    if 0 <= from < s.len() {
        costs_of_closures(
            costs_of(c, cyclic, s[from].expr).insert(
                s[from].name.name,
                cost_entry(cyclic, s[from].name.name, s[from].expr),
            ),
            cyclic,
            s,
            from + 1,
        )
    } else {
        c
    }
}

pub open spec fn costs_of_binding(c: Map<Seq<char>, Cost>, cyclic: Set<Seq<char>>, b: LetBindingView) -> Map<
    Seq<char>,
    Cost,
>
    decreases b, 0int,
{
    match b.expr {
        NamedView::Expr(rhs) => costs_of(c, cyclic, *rhs).insert(
            b.name.name,
            cost_entry(cyclic, b.name.name, *rhs),
        ),
        NamedView::Recursive(closures) => costs_of_closures(c, cyclic, closures, 0),
    }
}

/// The number of nodes of an expression, or `u32::MAX` where it has
/// more than that.
pub fn cost(expr: &Expr) -> (r: u32)
    ensures
        r == capped(expr_cost(expr@)),
    decreases expr, 0int,
{
    proof {
        reveal_with_fuel(crate::ir::expr::named_view, 2);
        reveal_with_fuel(crate::ir::expr::binding_view, 2);
    }
    match expr {
        Expr::Const(_, _) => 1,
        Expr::Ident(_, _) => 1,
        Expr::Data(_, args, _) => add_capped(1, cost_all(args)),
        Expr::Call(f, args) => add_capped(add_capped(1, cost(&**f)), cost_all(args)),
        Expr::Let(bind, body) => {
            let bound = match &bind.expr {
                Named::Recursive(closures) => cost_closures(closures),
                Named::Expr(e) => cost(&**e),
            };
            assert(bound == capped(named_cost(bind@.expr)));
            add_capped(add_capped(1, bound), cost(&**body))
        },
        Expr::Match(scrutinee, alts) => add_capped(
            add_capped(1, cost(&**scrutinee)),
            cost_alts(alts),
        ),
        Expr::Cast(inner, _) => add_capped(1, cost(&**inner)),
    }
}

fn cost_all(exprs: &Vec<CExpr>) -> (r: u32)
    ensures
        r == capped(cost_of_all(exprs_view(exprs@), 0)),
    decreases exprs, 1int,
{
    let ghost views = exprs_view(exprs@);
    let mut total: u32 = 0;
    let mut i: usize = exprs.len();
    while i > 0
        invariant
            i <= exprs.len(),
            views == exprs_view(exprs@),
            total == capped(cost_of_all(views, i as int)),
        decreases i,
    {
        i -= 1;
        assert(views[i as int] == exprs@[i as int]@);
        total = add_capped(cost(&*exprs[i]), total);
    }
    total
}

fn cost_alts(alts: &Vec<Alternative>) -> (r: u32)
    ensures
        r == capped(cost_of_alts(alts_view(alts@), 0)),
    decreases alts, 1int,
{
    let ghost views = alts_view(alts@);
    let mut total: u32 = 0;
    let mut i: usize = alts.len();
    while i > 0
        invariant
            i <= alts.len(),
            views == alts_view(alts@),
            total == capped(cost_of_alts(views, i as int)),
        decreases i,
    {
        i -= 1;
        assert(views[i as int] == alts@[i as int]@);
        total = add_capped(cost(&*alts[i].expr), total);
    }
    total
}

fn cost_closures(closures: &Vec<Closure>) -> (r: u32)
    ensures
        r == capped(cost_of_closures(closures_view(closures@), 0)),
    decreases closures, 1int,
{
    let ghost views = closures_view(closures@);
    let mut total: u32 = 0;
    let mut i: usize = closures.len();
    while i > 0
        invariant
            i <= closures.len(),
            views == closures_view(closures@),
            total == capped(cost_of_closures(views, i as int)),
        decreases i,
    {
        i -= 1;
        assert(views[i as int] == closures@[i as int]@);
        total = add_capped(cost(&*closures[i].expr), total);
    }
    total
}

/// The table of the cost analysis.
pub struct Costs {
    pub map: StringHashMap<Cost>,
}

impl View for Costs {
    type V = Map<Seq<char>, Cost>;

    open spec fn view(&self) -> Map<Seq<char>, Cost> {
        self.map@
    }
}

impl Costs {
    pub fn new() -> (r: Costs)
        ensures
            r@ == Map::<Seq<char>, Cost>::empty(),
    {
        Costs { map: StringHashMap::new() }
    }

    /// The entry for `symbol`, if it has one.
    pub fn get(&self, symbol: &str) -> (r: Option<Cost>)
        ensures
            r == if self@.contains_key(symbol@) {
                Some(self@[symbol@])
            } else {
                None
            },
    {
        match self.map.get(symbol) {
            Some(c) => Some(*c),
            None => None,
        }
    }

    fn record(&mut self, cyclic: &SymbolSet, name: &String, definition: &Expr)
        ensures
            final(self)@ == old(self)@.insert(name@, cost_entry(cyclic@, name@, definition@)),
    {
        let entry = Cost { cost: cost(definition), cyclic: cyclic.contains(name.as_str()) };
        self.map.insert(name.clone(), entry);
    }

    fn visit_expr(&mut self, cyclic: &SymbolSet, expr: &Expr)
        ensures
            final(self)@ == costs_of(old(self)@, cyclic@, expr@),
        decreases expr, 0int,
    {
        proof {
            reveal_with_fuel(crate::ir::expr::named_view, 2);
            reveal_with_fuel(crate::ir::expr::binding_view, 2);
        }
        match expr {
            Expr::Const(_, _) => {},
            Expr::Ident(_, _) => {},
            Expr::Data(_, args, _) => {
                self.visit_all(cyclic, args);
            },
            Expr::Call(f, args) => {
                self.visit_expr(cyclic, &**f);
                self.visit_all(cyclic, args);
            },
            Expr::Let(bind, body) => {
                match &bind.expr {
                    Named::Expr(rhs) => {
                        self.visit_expr(cyclic, &**rhs);
                        self.record(cyclic, &bind.name.name.name, &**rhs);
                    },
                    Named::Recursive(closures) => {
                        self.visit_closures(cyclic, closures);
                    },
                }
                assert(self@ == costs_of_binding(old(self)@, cyclic@, bind@));
                self.visit_expr(cyclic, &**body);
            },
            Expr::Match(scrutinee, alts) => {
                self.visit_expr(cyclic, &**scrutinee);
                self.visit_alts(cyclic, alts);
            },
            Expr::Cast(inner, _) => {
                self.visit_expr(cyclic, &**inner);
            },
        }
    }

    fn visit_all(&mut self, cyclic: &SymbolSet, exprs: &Vec<CExpr>)
        ensures
            final(self)@ == costs_of_all(old(self)@, cyclic@, exprs_view(exprs@), 0),
        decreases exprs, 1int,
    {
        let ghost views = exprs_view(exprs@);
        let ghost start = self@;
        let mut i: usize = 0;
        while i < exprs.len()
            invariant
                i <= exprs.len(),
                views == exprs_view(exprs@),
                costs_of_all(start, cyclic@, views, 0) == costs_of_all(
                    self@,
                    cyclic@,
                    views,
                    i as int,
                ),
            decreases exprs.len() - i,
        {
            assert(views[i as int] == exprs@[i as int]@);
            self.visit_expr(cyclic, &*exprs[i]);
            i += 1;
        }
    }

    fn visit_alts(&mut self, cyclic: &SymbolSet, alts: &Vec<Alternative>)
        ensures
            final(self)@ == costs_of_alts(old(self)@, cyclic@, alts_view(alts@), 0),
        decreases alts, 1int,
    {
        let ghost views = alts_view(alts@);
        let ghost start = self@;
        let mut i: usize = 0;
        while i < alts.len()
            invariant
                i <= alts.len(),
                views == alts_view(alts@),
                costs_of_alts(start, cyclic@, views, 0) == costs_of_alts(
                    self@,
                    cyclic@,
                    views,
                    i as int,
                ),
            decreases alts.len() - i,
        {
            assert(views[i as int] == alts@[i as int]@);
            self.visit_expr(cyclic, &*alts[i].expr);
            i += 1;
        }
    }

    fn visit_closures(&mut self, cyclic: &SymbolSet, closures: &Vec<Closure>)
        ensures
            final(self)@ == costs_of_closures(
                old(self)@,
                cyclic@,
                closures_view(closures@),
                0,
            ),
        decreases closures, 1int,
    {
        let ghost views = closures_view(closures@);
        let ghost start = self@;
        let mut i: usize = 0;
        while i < closures.len()
            invariant
                i <= closures.len(),
                views == closures_view(closures@),
                costs_of_closures(start, cyclic@, views, 0) == costs_of_closures(
                    self@,
                    cyclic@,
                    views,
                    i as int,
                ),
            decreases closures.len() - i,
        {
            let closure = &closures[i];
            assert(views[i as int] == closure@);
            self.visit_expr(cyclic, &*closure.expr);
            self.record(cyclic, &closure.name.name.name, &*closure.expr);
            i += 1;
        }
    }
}

/// The cost analysis of an expression, given the symbols whose
/// definition leads back to them.
pub fn analyze_costs(cyclic_bindings: &SymbolSet, expr: &CExpr) -> (r: Costs)
    ensures
        r@ == costs_of(Map::empty(), cyclic_bindings@, expr@),
{
    let mut costs = Costs::new();
    costs.visit_expr(cyclic_bindings, &**expr);
    costs
}

} // verus!
