//! Purity analysis: which symbols have a defining expression whose
//! evaluation has no effect, and which of them are closures that can be
//! called without one.
//!
//! Symbols are told apart by name. The analysis takes the bindings in
//! the order of the traversal; where a name is bound again, the later
//! binding decides.

use vstd::prelude::*;
use vstd::hash_map::StringHashMap;
use crate::base::strings::starts_with_char;

use crate::ir::expr::{
    Alternative, AlternativeView, CExpr, Closure, ClosureView, Expr, ExprView, LetBinding,
    LetBindingView, Named, NamedView,
};

verus! {

/// What is known of a symbol whose defining expression is pure.
#[derive(Clone, Copy, Debug, PartialEq, Eq, Structural)]
pub enum Pureness {
    /// Evaluating the definition has no effect. Nothing is known of a
    /// call of the value.
    Load,
    /// A closure of the given number of parameters whose body is pure: a
    /// call with no more arguments than that has no effect.
    Call(usize),
}

/// Whether a name is that of a primitive operation of the machine.
pub open spec fn is_primitive(name: Seq<char>) -> bool {
    name.len() > 0 && name[0] == '#'
}

/// Whether a call of the symbol `name` with `nargs` arguments is known
/// to have no effect: it names a primitive, or a closure proved pure
/// that takes at least that many arguments.
pub open spec fn pure_symbol_call(m: Map<Seq<char>, Pureness>, name: Seq<char>, nargs: nat) -> bool {
    is_primitive(name) || (m.contains_key(name) && (m[name] matches Pureness::Call(n) && nargs
        <= n))
}

/// Whether a call of what `f` evaluates to, with `nargs` arguments, is
/// known to have no effect, the evaluation of `f` included: `f` is a
/// symbol of which this is known, behind pure let bindings at most.
pub open spec fn pure_call(m: Map<Seq<char>, Pureness>, f: ExprView, nargs: nat) -> bool
    decreases f, 1int,
{
    match f {
        ExprView::Ident(id, _) => pure_symbol_call(m, id.name, nargs),
        ExprView::Let(bind, body) => named_pure(m, bind.expr) && pure_call(m, *body, nargs),
        _ => false,
    }
}

/// Whether evaluating `e` has no effect, given what is known of the
/// symbols in `m`.
pub open spec fn is_pure(m: Map<Seq<char>, Pureness>, e: ExprView) -> bool
    decreases e, 0int,
{
    match e {
        ExprView::Const(_, _) => true,
        ExprView::Ident(_, _) => true,
        ExprView::Data(_, args, _) => all_pure(m, args),
        ExprView::Call(f, args) => pure_call(m, *f, args.len()) && all_pure(m, args),
        ExprView::Let(bind, body) => named_pure(m, bind.expr) && is_pure(m, *body),
        ExprView::Match(scrutinee, alts) => is_pure(m, *scrutinee) && forall|i: int|
            0 <= i < alts.len() ==> is_pure(m, (#[trigger] alts[i]).expr),
        ExprView::Cast(inner, _) => is_pure(m, *inner),
    }
}

pub open spec fn all_pure(m: Map<Seq<char>, Pureness>, s: Seq<ExprView>) -> bool
    decreases s, 0int,
{
    forall|i: int| 0 <= i < s.len() ==> is_pure(m, #[trigger] s[i])
}

/// Whether evaluating what a let binding binds has no effect. A group of
/// closures is a group of values.
pub open spec fn named_pure(m: Map<Seq<char>, Pureness>, n: NamedView) -> bool
    decreases n, 0int,
{
    match n {
        NamedView::Recursive(_) => true,
        NamedView::Expr(e) => is_pure(m, *e),
    }
}

/// What is known of the symbols once `e` has been traversed, starting
/// from what `m` holds.
pub open spec fn purity_of(m: Map<Seq<char>, Pureness>, e: ExprView) -> Map<Seq<char>, Pureness>
    decreases e, 0int,
{
    match e {
        ExprView::Const(_, _) => m,
        ExprView::Ident(_, _) => m,
        ExprView::Data(_, args, _) => purity_of_all(m, args, 0),
        ExprView::Call(f, args) => purity_of_all(purity_of(m, *f), args, 0),
        ExprView::Let(bind, body) => purity_of(purity_of_binding(m, *bind), *body),
        ExprView::Match(scrutinee, alts) => purity_of_alts(purity_of(m, *scrutinee), alts, 0),
        ExprView::Cast(inner, _) => purity_of(m, *inner),
    }
}

pub open spec fn purity_of_all(m: Map<Seq<char>, Pureness>, s: Seq<ExprView>, from: int) -> Map<
    Seq<char>,
    Pureness,
>
    decreases s, s.len() - from,
{
    if 0 <= from < s.len() {
        purity_of_all(purity_of(m, s[from]), s, from + 1)
    } else {
        m
    }
}

pub open spec fn purity_of_alts(
    m: Map<Seq<char>, Pureness>,
    s: Seq<AlternativeView>,
    from: int,
) -> Map<Seq<char>, Pureness>
    decreases s, s.len() - from,
{
    if 0 <= from < s.len() {
        purity_of_alts(purity_of(m, s[from].expr), s, from + 1)
    } else {
        m
    }
}

/// The map with every closure of the group, from index `from` on, taken
/// to be pure to call.
pub open spec fn assume_group(m: Map<Seq<char>, Pureness>, s: Seq<ClosureView>, from: int) -> Map<
    Seq<char>,
    Pureness,
>
    decreases s.len() - from,
{
    if 0 <= from < s.len() {
        assume_group(m.insert(s[from].name.name, Pureness::Call(s[from].args.len() as usize)), s, from + 1)
    } else {
        m
    }
}

/// The map without the closures of the group, from index `from` on.
pub open spec fn forget_group(m: Map<Seq<char>, Pureness>, s: Seq<ClosureView>, from: int) -> Map<
    Seq<char>,
    Pureness,
>
    decreases s.len() - from,
{
    if 0 <= from < s.len() {
        forget_group(m.remove(s[from].name.name), s, from + 1)
    } else {
        m
    }
}

pub open spec fn purity_of_bodies(
    m: Map<Seq<char>, Pureness>,
    s: Seq<ClosureView>,
    from: int,
) -> Map<Seq<char>, Pureness>
    decreases s, s.len() - from,
{
    if 0 <= from < s.len() {
        purity_of_bodies(purity_of(m, s[from].expr), s, from + 1)
    } else {
        m
    }
}

/// Whether the body of every closure of the group is pure.
pub open spec fn bodies_pure(m: Map<Seq<char>, Pureness>, s: Seq<ClosureView>) -> bool {
    forall|i: int| 0 <= i < s.len() ==> is_pure(m, (#[trigger] s[i]).expr)
}

/// What is known once a let binding has been traversed. A plain binding
/// is recorded where what it binds is pure, and forgotten where it is
/// not. The closures of a group are recorded where the body of each is
/// pure on the assumption that all of them are, and forgotten otherwise.
pub open spec fn purity_of_binding(m: Map<Seq<char>, Pureness>, b: LetBindingView) -> Map<
    Seq<char>,
    Pureness,
>
    decreases b, 0int,
{
    match b.expr {
        NamedView::Expr(rhs) => {
            let m1 = purity_of(m, *rhs);
            if is_pure(m1, *rhs) {
                m1.insert(b.name.name, Pureness::Load)
            } else {
                m1.remove(b.name.name)
            }
        },
        NamedView::Recursive(closures) => {
            let m1 = purity_of_bodies(assume_group(m, closures, 0), closures, 0);
            if bodies_pure(m1, closures) {
                m1
            } else {
                forget_group(m1, closures, 0)
            }
        },
    }
}

/// What the purity analysis knows of the symbols of an expression.
pub struct PurityMap {
    pub map: StringHashMap<Pureness>,
}

impl View for PurityMap {
    type V = Map<Seq<char>, Pureness>;

    open spec fn view(&self) -> Map<Seq<char>, Pureness> {
        self.map@
    }
}

impl PurityMap {
    pub fn new() -> (r: PurityMap)
        ensures
            r@ == Map::<Seq<char>, Pureness>::empty(),
    {
        PurityMap { map: StringHashMap::new() }
    }

    /// What is known of `symbol`, if anything.
    pub fn get(&self, symbol: &str) -> (r: Option<Pureness>)
        ensures
            r == if self@.contains_key(symbol@) {
                Some(self@[symbol@])
            } else {
                None
            },
    {
        match self.map.get(symbol) {
            Some(p) => Some(*p),
            None => None,
        }
    }

    /// Whether a call of what `f` evaluates to, with `nargs` arguments,
    /// is known to have no effect.
    pub fn pure_call(&self, f: &Expr, nargs: usize) -> (r: bool)
        ensures
            r == pure_call(self@, f@, nargs as nat),
        decreases f, 1int,
    {
        proof {
            reveal_with_fuel(crate::ir::expr::named_view, 2);
            reveal_with_fuel(crate::ir::expr::binding_view, 2);
        }
        match f {
            Expr::Ident(id, _) => {
                if starts_with_char(id.name.as_str(), '#') {
                    true
                } else {
                    match self.map.get(id.name.as_str()) {
                        Some(Pureness::Call(n)) => nargs <= *n,
                        _ => false,
                    }
                }
            },
            Expr::Let(bind, body) => {
                let bound = match &bind.expr {
                    Named::Recursive(_) => true,
                    Named::Expr(e) => self.is_pure(&**e),
                };
                assert(bound == named_pure(self@, bind@.expr));
                let rest = self.pure_call(&**body, nargs);
                bound && rest
            },
            _ => false,
        }
    }

    /// Whether evaluating `expr` has no effect.
    pub fn is_pure(&self, expr: &Expr) -> (r: bool)
        ensures
            r == is_pure(self@, expr@),
        decreases expr, 0int,
    {
        proof {
            reveal_with_fuel(crate::ir::expr::named_view, 2);
            reveal_with_fuel(crate::ir::expr::binding_view, 2);
        }
        match expr {
            Expr::Const(_, _) => true,
            Expr::Ident(_, _) => true,
            Expr::Data(_, args, _) => self.all_pure(args),
            Expr::Call(f, args) => {
                let target = self.pure_call(&**f, args.len());
                let arguments = self.all_pure(args);
                assert(crate::ir::expr::exprs_view(args@).len() == args@.len());
                target && arguments
            },
            Expr::Let(bind, body) => {
                let bound = match &bind.expr {
                    Named::Recursive(_) => true,
                    Named::Expr(e) => self.is_pure(&**e),
                };
                assert(bound == named_pure(self@, bind@.expr));
                bound && self.is_pure(&**body)
            },
            Expr::Match(scrutinee, alts) => self.is_pure(&**scrutinee) && self.alts_pure(alts),
            Expr::Cast(inner, _) => self.is_pure(&**inner),
        }
    }

    fn alts_pure(&self, alts: &Vec<Alternative>) -> (r: bool)
        ensures
            r == forall|i: int|
                0 <= i < alts@.len() ==> is_pure(
                    self@,
                    (#[trigger] crate::ir::expr::alts_view(alts@)[i]).expr,
                ),
        decreases alts, 1int,
    {
        let ghost views = crate::ir::expr::alts_view(alts@);
        let mut i: usize = 0;
        while i < alts.len()
            invariant
                i <= alts.len(),
                views == crate::ir::expr::alts_view(alts@),
                forall|j: int| 0 <= j < i ==> is_pure(self@, (#[trigger] views[j]).expr),
            decreases alts.len() - i,
        {
            assert(views[i as int] == alts@[i as int]@);
            if !self.is_pure(&*alts[i].expr) {
                return false;
            }
            i += 1;
        }
        true
    }

    fn all_pure(&self, exprs: &Vec<CExpr>) -> (r: bool)
        ensures
            r == all_pure(self@, crate::ir::expr::exprs_view(exprs@)),
        decreases exprs, 1int,
    {
        let ghost views = crate::ir::expr::exprs_view(exprs@);
        let mut i: usize = 0;
        while i < exprs.len()
            invariant
                i <= exprs.len(),
                views == crate::ir::expr::exprs_view(exprs@),
                forall|j: int| 0 <= j < i ==> is_pure(self@, #[trigger] views[j]),
            decreases exprs.len() - i,
        {
            assert(views[i as int] == exprs@[i as int]@);
            if !self.is_pure(&*exprs[i]) {
                return false;
            }
            i += 1;
        }
        true
    }

    /// Traverses `expr` and records what it shows of the symbols that it
    /// binds.
    pub fn visit_expr(&mut self, expr: &Expr)
        ensures
            final(self)@ == purity_of(old(self)@, expr@),
        decreases expr, 0int,
    {
        match expr {
            Expr::Const(_, _) => {},
            Expr::Ident(_, _) => {},
            Expr::Data(_, args, _) => {
                self.visit_all(args);
            },
            Expr::Call(f, args) => {
                self.visit_expr(&**f);
                self.visit_all(args);
            },
            Expr::Let(bind, body) => {
                self.visit_binding(&**bind);
                self.visit_expr(&**body);
            },
            Expr::Match(scrutinee, alts) => {
                self.visit_expr(&**scrutinee);
                self.visit_alts(alts);
            },
            Expr::Cast(inner, _) => {
                self.visit_expr(&**inner);
            },
        }
    }

    fn visit_alts(&mut self, alts: &Vec<Alternative>)
        ensures
            final(self)@ == purity_of_alts(old(self)@, crate::ir::expr::alts_view(alts@), 0),
        decreases alts, 1int,
    {
        let ghost views = crate::ir::expr::alts_view(alts@);
        let ghost start = self@;
        let mut i: usize = 0;
        while i < alts.len()
            invariant
                i <= alts.len(),
                views == crate::ir::expr::alts_view(alts@),
                purity_of_alts(start, views, 0) == purity_of_alts(self@, views, i as int),
            decreases alts.len() - i,
        {
            assert(views[i as int] == alts@[i as int]@);
            self.visit_expr(&*alts[i].expr);
            i += 1;
        }
    }

    fn visit_bodies(&mut self, closures: &Vec<Closure>)
        ensures
            final(self)@ == purity_of_bodies(
                old(self)@,
                crate::ir::expr::closures_view(closures@),
                0,
            ),
        decreases closures, 1int,
    {
        let ghost views = crate::ir::expr::closures_view(closures@);
        let ghost start = self@;
        let mut i: usize = 0;
        while i < closures.len()
            invariant
                i <= closures.len(),
                views == crate::ir::expr::closures_view(closures@),
                purity_of_bodies(start, views, 0) == purity_of_bodies(self@, views, i as int),
            decreases closures.len() - i,
        {
            assert(views[i as int] == closures@[i as int]@);
            self.visit_expr(&*closures[i].expr);
            i += 1;
        }
    }

    fn bodies_pure(&self, closures: &Vec<Closure>) -> (r: bool)
        ensures
            r == bodies_pure(self@, crate::ir::expr::closures_view(closures@)),
    {
        let ghost views = crate::ir::expr::closures_view(closures@);
        let mut i: usize = 0;
        while i < closures.len()
            invariant
                i <= closures.len(),
                views == crate::ir::expr::closures_view(closures@),
                forall|j: int| 0 <= j < i ==> is_pure(self@, (#[trigger] views[j]).expr),
            decreases closures.len() - i,
        {
            assert(views[i as int] == closures@[i as int]@);
            if !self.is_pure(&*closures[i].expr) {
                return false;
            }
            i += 1;
        }
        true
    }

    fn visit_all(&mut self, exprs: &Vec<CExpr>)
        ensures
            final(self)@ == purity_of_all(old(self)@, crate::ir::expr::exprs_view(exprs@), 0),
        decreases exprs, 1int,
    {
        let ghost views = crate::ir::expr::exprs_view(exprs@);
        let ghost start = self@;
        let mut i: usize = 0;
        while i < exprs.len()
            invariant
                i <= exprs.len(),
                views == crate::ir::expr::exprs_view(exprs@),
                purity_of_all(start, views, 0) == purity_of_all(self@, views, i as int),
            decreases exprs.len() - i,
        {
            assert(views[i as int] == exprs@[i as int]@);
            self.visit_expr(&*exprs[i]);
            i += 1;
        }
    }

    fn visit_binding(&mut self, bind: &LetBinding)
        ensures
            final(self)@ == purity_of_binding(old(self)@, bind@),
        decreases bind, 0int,
    {
        match &bind.expr {
            Named::Expr(rhs) => {
                self.visit_expr(&**rhs);
                if self.is_pure(&**rhs) {
                    self.map.insert(bind.name.name.name.clone(), Pureness::Load);
                } else {
                    self.map.remove(bind.name.name.as_str());
                }
            },
            Named::Recursive(closures) => {
                let ghost views = crate::ir::expr::closures_view(closures@);
                let ghost start = self@;
                let mut i: usize = 0;
                while i < closures.len()
                    invariant
                        i <= closures.len(),
                        views == crate::ir::expr::closures_view(closures@),
                        assume_group(start, views, 0) == assume_group(self@, views, i as int),
                    decreases closures.len() - i,
                {
                    let closure = &closures[i];
                    assert(views[i as int] == closure@);
                    self.map.insert(closure.name.name.name.clone(), Pureness::Call(closure.args.len()));
                    i += 1;
                }
                self.visit_bodies(closures);
                let pure = self.bodies_pure(closures);
                if !pure {
                    let ghost checked = self@;
                    i = 0;
                    while i < closures.len()
                        invariant
                            i <= closures.len(),
                            views == crate::ir::expr::closures_view(closures@),
                            forget_group(checked, views, 0) == forget_group(self@, views, i as int),
                        decreases closures.len() - i,
                    {
                        assert(views[i as int] == closures@[i as int]@);
                        self.map.remove(closures[i].name.name.as_str());
                        i += 1;
                    }
                }
            },
        }
    }
}

/// The purity analysis of an expression.
pub fn purity(expr: &CExpr) -> (r: PurityMap)
    ensures
        r@ == purity_of(Map::empty(), expr@),
{
    let mut map = PurityMap::new();
    map.visit_expr(&**expr);
    map
}

} // verus!
