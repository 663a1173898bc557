//! The view of the database that the typechecker, the translator and
//! the optimizer work with. It looks at what is computed and never
//! computes: a phase that works on one module sees of another what
//! there is, and cannot run into a cycle.

use vstd::prelude::*;
use vstd::string::*;
use std::sync::Arc;
use crate::base::shared::share;
use crate::base::strings::{trim_start_matches, CharClass};
use crate::base::symbol::{definition_name, is_global_name, Symbol};
use crate::base::types::{kind_of_params, Alias, AliasView, ArcKind, ArcType, Type, TypeView};
use crate::ir::expr::CoreExpr;
use crate::ir::optimize::OptimizeEnv;
use crate::query::database::{CompilerDatabase, Found};
use crate::query::value::{DatabaseGlobal, GlobalView, Metadata};

verus! {

/// How a variable is reached.
#[derive(Clone, Debug, PartialEq, Eq)]
pub enum Variable {
    /// A global, by its resolved symbol.
    UpVar(Symbol),
}

/// The view of a database for the phases of the compiler.
pub struct Env<'a>(pub &'a CompilerDatabase);

/// The view of the database `env`.
pub fn env(database: &CompilerDatabase) -> (r: Env<'_>)
    ensures
        r.0 == database,
{
    Env(database)
}

impl CompilerDatabase {
    /// The view of the database for the phases of the compiler.
    pub fn as_env(&self) -> (r: Env<'_>)
        ensures
            r.0 == self,
    {
        env(self)
    }
}

impl<'a> Env<'a> {
    /// The global that the name `name` stands for, without the marks of
    /// resolution in front of it: the one that the host has set under
    /// the name, or else the global of the module of that name.
    pub open spec fn global_named(&self, name: Seq<char>) -> Option<GlobalView> {
        self.0.global_for(definition_name(name))
    }

    /// The global that the symbol `id` stands for: for a resolved
    /// symbol, the global of its name; for another, the global that the
    /// host has set under its name.
    pub open spec fn global_of_symbol(&self, id: Seq<char>) -> Option<GlobalView> {
        if is_global_name(id) {
            self.global_named(definition_name(id))
        } else {
            self.0.extern_global_at(definition_name(id))
        }
    }

    /// The global that the name `name` stands for, rooted in the thread
    /// of the database.
    pub fn get_global(&self, name: &str) -> (r: Option<DatabaseGlobal>)
        requires
            self.0.thread is Some,
        ensures
            match r {
                Some(g) => Some(g@.global),
                None => None,
            } == self.global_named(name@),
            r matches Some(g) ==> Some(g@.thread) == self.0.thread,
    {
        let module = trim_start_matches(name, CharClass::only('@'));
        match self.0.get_extern_global(module) {
            Some(g) => Some(g),
            None => self.0.peek_global(module),
        }
    }

    fn global_for_symbol(&self, id: &Symbol) -> (r: Option<DatabaseGlobal>)
        requires
            self.0.thread is Some,
        ensures
            match r {
                Some(g) => Some(g@.global),
                None => None,
            } == self.global_of_symbol(id@),
    {
        if id.is_global() {
            self.get_global(id.definition_name())
        } else {
            self.0.get_extern_global(id.definition_name())
        }
    }

    /// How the variable `id` is reached, and its type.
    pub fn find_var(&self, id: &Symbol) -> (r: Option<(Variable, ArcType)>)
        requires
            self.0.thread is Some,
        ensures
            match self.global_of_symbol(id@) {
                Some(g) => r matches Some((Variable::UpVar(s), t)) && s@ == g.id && t@ == g.typ,
                None => r is None,
            },
    {
        match self.global_for_symbol(id) {
            Some(g) => Some((Variable::UpVar(g.id.duplicate()), share(&g.typ))),
            None => None,
        }
    }

    /// The type of the variable `id`.
    pub fn find_type(&self, id: &Symbol) -> (r: Option<ArcType>)
        requires
            self.0.thread is Some,
        ensures
            match self.global_of_symbol(id@) {
                Some(g) => r matches Some(t) && t@ == g.typ,
                None => r is None,
            },
    {
        match self.global_for_symbol(id) {
            Some(g) => Some(share(&g.typ)),
            None => None,
        }
    }

    /// The alias that the symbol `id` names: for a resolved symbol, the
    /// one that the machine knows under that name.
    pub fn find_type_info(&self, id: &Symbol) -> (r: Option<Arc<Alias>>)
        ensures
            match r {
                Some(a) => Some(a@),
                None => None,
            } == if is_global_name(id@) {
                self.0.type_info_at(id@)
            } else {
                None
            },
    {
        if id.is_global() {
            self.0.type_info(id.as_str())
        } else {
            None
        }
    }

    /// The kind of the type that the symbol `id` names.
    pub fn find_kind(&self, id: &Symbol) -> (r: Option<ArcKind>)
        ensures
            match r {
                Some(k) => Some(*k),
                None => None,
            } == if is_global_name(id@) {
                match self.0.type_info_at(id@) {
                    Some(a) => Some(kind_of_params(a.params, 0)),
                    None => None,
                }
            } else {
                None
            },
    {
        if id.is_global() {
            match self.find_type_info(id) {
                Some(alias) => Some((*alias).kind()),
                None => None,
            }
        } else {
            None
        }
    }

    /// The type of booleans: the alias that the path `std.types.Bool`
    /// leads to, as a type.
    pub fn get_bool(&self) -> (r: ArcType)
        requires
            self.0.thread is Some,
            self.has_bool(),
        ensures
            r@ matches TypeView::Alias(a) && Some(*a) == self.bool_alias(),
    {
        match self.0.try_find_type_info("std.types.Bool") {
            Some(Ok(alias)) => Arc::new(Type::Alias(alias)),
            _ => {
                proof {
                    assert(false);
                }
                Type::hole()
            },
        }
    }

    /// The alias that the path `std.types.Bool` leads to.
    pub open spec fn bool_alias(&self) -> Option<AliasView> {
        match self.0.binding_at(crate::base::symbol::name_module("std.types.Bool"@)) {
            Some(Found::Binding(_, typ)) => crate::base::types::type_field_alias(
                crate::base::types::type_fields(typ),
                crate::base::symbol::name_last("std.types.Bool"@),
                0,
            ),
            _ => None,
        }
    }

    /// Whether the path `std.types.Bool` leads to an alias.
    pub open spec fn has_bool(&self) -> bool {
        self.bool_alias() is Some
    }

    /// Whether the path `std.types.Bool` leads to an alias.
    pub fn knows_bool(&self) -> (r: bool)
        requires
            self.0.thread is Some,
        ensures
            r == self.has_bool(),
    {
        match self.0.try_find_type_info("std.types.Bool") {
            Some(Ok(_)) => true,
            _ => false,
        }
    }

    /// The metadata of the module that the resolved symbol `id` names,
    /// where the module is typechecked.
    pub fn get_metadata(&self, id: &Symbol) -> (r: Option<Arc<Metadata>>)
        ensures
            match r {
                Some(m) => Some(m@),
                None => None,
            } == if is_global_name(id@) {
                match self.0.typechecked_at(definition_name(id@)) {
                    Some(v) => Some(v.metadata),
                    None => None,
                }
            } else {
                None
            },
    {
        if id.is_global() {
            match self.0.peek_typechecked_module(id.definition_name()) {
                Some(v) => Some(share(&v.metadata)),
                None => None,
            }
        } else {
            None
        }
    }
}

impl<'a> OptimizeEnv for Env<'a> {
    /// The optimized core expression of the module that the resolved
    /// symbol `id` names, where it is computed.
    open spec fn find_expr_spec(&self, id: Seq<char>) -> Option<
        crate::ir::interpreter::GlobalView,
    > {
        if is_global_name(id) {
            self.0.core_expr_at(definition_name(id))
        } else {
            None
        }
    }

    fn find_expr(&self, id: &Symbol) -> (r: Option<crate::ir::interpreter::Global<CoreExpr>>) {
        if id.is_global() {
            self.0.peek_core_expr(id.definition_name())
        } else {
            None
        }
    }
}

} // verus!
