//! The decisions of the queries. A query that waits for the importer,
//! the typechecker, the bytecode compiler or the machine is driven from
//! outside: the driver does the work that a step asks for and hands the
//! outcome back as an event.

use vstd::prelude::*;
use vstd::string::*;
use std::sync::Arc;
use crate::base::shared::share;
use crate::base::strings::starts_with_char;
use crate::base::symbol::{
    is_global_name, module_of, name_module, resolved_name, resolved_symbol, Symbol,
};
use crate::base::types::{is_io_type, ArcType, Type, TypeView, TypedIdent};
use crate::ir::expr::{freeze_expr, CExpr, CoreExpr};
use crate::ir::interpreter::{Global as CoreGlobal, OptimizerInfo, OptimizerInfoView};
use crate::ir::optimize::{optimize, optimize_costs, optimize_purity, optimize_spec};
use crate::query::database::{CompilerDatabase, Settings};
use crate::query::env::{env, Env};
use crate::query::error::{Error, Result};
use crate::query::value::{
    root_global_with,
    DatabaseGlobal,
    Global,
    GlobalView,
    Metadata,
    RootedValue,
    Thread,
    TypecheckValue,
    UnrootedGlobal,
    Value,
};

verus! {

/// The failure of the typecheck query for a module whose text could not
/// be had: there is no partial result.
pub fn typecheck_text_failure(err: Error) -> (r: (Option<TypecheckValue>, Error))
    ensures
        r.0 is None,
        r.1 == err,
{
    (None, err)
}

/// The core expression of a module, from what the translator made of
/// its typed expression: optimized where the settings ask for it, else
/// as it is with an empty summary. Either way it is sealed.
pub fn core_expr(db: &CompilerDatabase, expr: &CExpr) -> (r: CoreGlobal<CoreExpr>)
    ensures
        db.settings.optimize ==> r.value@ == optimize_spec(&Env(db), expr@) && r.info@ == (
        OptimizerInfoView {
            pure_symbols: optimize_purity(expr@),
            costs: optimize_costs(expr@),
        }),
        !db.settings.optimize ==> r.value@ == expr@ && r.info@ == (OptimizerInfoView {
            pure_symbols: Map::empty(),
            costs: Map::empty(),
        }),
{
    if db.settings.optimize {
        let view = env(db);
        optimize(&view, expr)
    } else {
        CoreGlobal { value: freeze_expr(expr), info: Arc::new(OptimizerInfo::empty()) }
    }
}

/// What the bytecode compiler is handed for a module, and the symbol
/// that the compiled function is given.
#[derive(Clone, Debug, PartialEq, Eq)]
pub struct CompileRequest {
    /// The file of the module, for the positions in the bytecode.
    pub source: crate::query::filemap::FileMap,
    /// The module in which the symbols of the compiled code are made.
    pub symbols_module: String,
    pub emit_debug_info: bool,
    /// The resolved symbol of the module, which becomes the name of the
    /// top-level function.
    pub module_id: Symbol,
}

/// What the bytecode query hands to the compiler for the module
/// `module`, which has a file in a code map that is in order.
pub fn compiled_module(db: &CompilerDatabase, module: &str) -> (r: CompileRequest)
    requires
        crate::query::filemap::spaced(db.state.files()),
        db.state.has_file(module@),
    ensures
        crate::query::filemap::in_span(r.source@, db.state.indices()[module@]),
        db.state.files().contains(r.source@),
        r.symbols_module@ == name_module(module@),
        r.emit_debug_info == db.settings.emit_debug_info,
        r.module_id@ == resolved_name(module@),
{
    match try_compiled_module(db, module) {
        Some(request) => request,
        None => {
            proof {
                assert(false);
            }
            CompileRequest {
                source: crate::query::filemap::FileMap {
                    name: module.to_owned(),
                    src: String::new(),
                    start: 0,
                    end: 0,
                },
                symbols_module: String::new(),
                emit_debug_info: false,
                module_id: resolved_symbol(module),
            }
        },
    }
}

/// `compiled_module` for a module of which it is not known whether it
/// has a file. The result is `None` where the search of the code map
/// finds no file for the module; in a code map that is in order that is
/// where the module has no file.
pub fn try_compiled_module(db: &CompilerDatabase, module: &str) -> (r: Option<CompileRequest>)
    ensures
        r is Some ==> db.state.has_file(module@),
        crate::query::filemap::spaced(db.state.files()) ==> (r is Some <==> db.state.has_file(
            module@,
        )),
        r matches Some(request) ==> {
            &&& crate::query::filemap::in_span(request.source@, db.state.indices()[module@])
            &&& db.state.files().contains(request.source@)
            &&& request.symbols_module@ == name_module(module@)
            &&& request.emit_debug_info == db.settings.emit_debug_info
            &&& request.module_id@ == resolved_name(module@)
        },
{
    match db.state.get_filemap(module) {
        Some(source) => {
            proof {
                let i = choose|i: int|
                    0 <= i < db.state.files().len() && db.state.files()[i] == source@;
                assert(crate::query::filemap::in_span(
                    db.state.files()[i],
                    db.state.indices()[module@],
                ));
            }
            Some(
                CompileRequest {
                    source,
                    symbols_module: module_of(module).to_owned(),
                    emit_debug_info: db.settings.emit_debug_info,
                    module_id: resolved_symbol(module),
                },
            )
        },
        None => None,
    }
}

/// The resolved name under which a module is imported: the name itself
/// where it is resolved already.
pub open spec fn import_name(modulename: Seq<char>) -> Seq<char> {
    if is_global_name(modulename) {
        modulename
    } else {
        resolved_name(modulename)
    }
}

/// The resolved symbol under which a module is imported.
pub fn import_symbol(modulename: &str) -> (r: Symbol)
    ensures
        r@ == import_name(modulename@),
{
    if starts_with_char(modulename, '@') {
        Symbol::from(modulename)
    } else {
        resolved_symbol(modulename)
    }
}

/// The end of the import of a module, once its global was forced:
/// whatever came of that, the intermediate results are discarded; the
/// import gives the typed identifier of the module, or the error.
pub fn import(db: &mut CompilerDatabase, modulename: &str, loaded: Result<ArcType>) -> (r: Result<
    TypedIdent,
>)
    ensures
        forall|k: Seq<char>|
            final(db).typechecked_at(k) is None && final(db).core_expr_at(k) is None,
        final(db).globals == old(db).globals,
        final(db).extern_values == old(db).extern_values,
        final(db).type_infos == old(db).type_infos,
        final(db).state == old(db).state,
        final(db).thread == old(db).thread,
        final(db).settings == old(db).settings,
        match loaded {
            Ok(typ) => r matches Ok(id) && id.name@ == import_name(modulename@) && id.typ == typ,
            Err(e) => r matches Err(err) && err == e,
        },
{
    let name = import_symbol(modulename);
    db.collect_garbage();
    match loaded {
        Ok(typ) => Ok(TypedIdent { name, typ }),
        Err(e) => Err(e),
    }
}

/// A module that a loader of the host has made.
#[derive(Clone, Debug)]
pub struct ExternModule {
    pub typ: ArcType,
    pub metadata: Metadata,
    pub value: RootedValue,
}

/// What the extern module query does next.
#[derive(Clone, Debug, PartialEq, Eq)]
pub enum ExternStep {
    /// Import this module, which the loader depends on.
    Import(String),
    /// Every dependency is there: run the loader.
    Load,
    /// The import of a dependency has failed with this error, and so
    /// does the query.
    Fail(Error),
}

/// The next step of the extern module query for a loader with the
/// dependencies `dependencies`, of which the first `imported` were
/// asked for, given the outcome of the last import: the dependencies
/// are imported in order, and the first failure ends the query.
pub fn extern_module_step(
    dependencies: &Vec<String>,
    imported: usize,
    last: Option<Error>,
) -> (r: ExternStep)
    ensures
        match last {
            Some(e) => r == ExternStep::Fail(e),
            None => if imported < dependencies@.len() {
                r matches ExternStep::Import(dep) && dep@ == dependencies@[imported as int]@
            } else {
                r == ExternStep::Load
            },
        },
{
    match last {
        Some(e) => ExternStep::Fail(e),
        None => {
            if imported < dependencies.len() {
                ExternStep::Import(dependencies[imported].clone())
            } else {
                ExternStep::Load
            }
        },
    }
}

/// The result of the extern module query, once the loader has run: the
/// module under the resolved symbol of its name.
pub fn extern_module(name: &str, loaded: Result<ExternModule>) -> (r: Result<
    (Symbol, ExternModule),
>)
    ensures
        match loaded {
            Ok(m) => r matches Ok((id, module)) && id@ == resolved_name(name@) && module == m,
            Err(e) => r matches Err(err) && err == e,
        },
{
    match loaded {
        Ok(m) => Ok((resolved_symbol(name), m)),
        Err(e) => Err(e),
    }
}

/// How far the evaluation of a module's global has come.
#[derive(Debug)]
pub enum GlobalState {
    /// Nothing was done yet.
    Start,
    /// The extern module was asked for.
    ExternModule,
    /// The typecheck was asked for.
    Typechecked,
    /// The bytecode was asked for.
    Compiled { typ: ArcType, metadata: Arc<Metadata> },
    /// The thunk of the module was called.
    Called { id: Symbol, typ: ArcType, metadata: Arc<Metadata> },
    /// The IO action that the module evaluated to was run.
    Io { id: Symbol, typ: ArcType, metadata: Arc<Metadata> },
    /// The query has a result.
    Done,
}

/// What the driver hands back.
#[derive(Debug)]
pub enum GlobalEvent {
    /// The query starts. A loader of the host is registered for the
    /// module, or not.
    Begin { extern_loader: bool },
    ExternModule(Result<(Symbol, ExternModule)>),
    Typechecked(Result<TypecheckValue>),
    /// The bytecode, by the name of its top-level function.
    Compiled(Result<Symbol>),
    Called(Result<Value>),
    Io(Result<Value>),
}

/// What the driver is asked to do.
#[derive(Debug)]
pub enum GlobalStep {
    ForceExternModule,
    ForceTypecheck,
    ForceCompile,
    CallThunk,
    /// Run this IO action, which the module has evaluated to.
    RunIo(Value),
    /// The query is over, with this result. A global that it gives
    /// holds no root.
    Finish(Result<UnrootedGlobal>),
}

/// Whether `event` is the answer to what was asked for in `state`.
pub open spec fn answers(state: GlobalState, event: GlobalEvent) -> bool {
    match (state, event) {
        (GlobalState::Start, GlobalEvent::Begin { .. }) => true,
        (GlobalState::ExternModule, GlobalEvent::ExternModule(_)) => true,
        (GlobalState::Typechecked, GlobalEvent::Typechecked(_)) => true,
        (GlobalState::Compiled { .. }, GlobalEvent::Compiled(_)) => true,
        (GlobalState::Called { .. }, GlobalEvent::Called(_)) => true,
        (GlobalState::Io { .. }, GlobalEvent::Io(_)) => true,
        _ => false,
    }
}

/// The type of what an IO action of the type `t` gives: the first
/// argument of the application, or `t` itself where it has none.
pub open spec fn io_result_type(t: TypeView) -> TypeView {
    match t {
        TypeView::App(_, args) => if args.len() > 0 {
            args[0]
        } else {
            t
        },
        _ => t,
    }
}

fn io_result(typ: &ArcType) -> (r: ArcType)
    ensures
        r@ == io_result_type(typ@),
{
    match &**typ {
        Type::App(_, args) => {
            if args.len() > 0 {
                share(&args[0])
            } else {
                share(typ)
            }
        },
        _ => share(typ),
    }
}

/// The global of a module, as the cache takes it: the value is copied,
/// so that it shares nothing with what the machine worked on, and holds
/// no root.
fn finish(id: Symbol, typ: ArcType, metadata: Arc<Metadata>, value: &Value, vm: Thread) -> (r:
    UnrootedGlobal)
    ensures
        r@ == (GlobalView {
            id: id@,
            typ: typ@,
            metadata: metadata@,
            value: value@,
        }),
{
    let rooted = RootedValue::new(vm, value);
    Global { id, typ, metadata, value: rooted.unroot() }
}

/// Whether a step ends the query with a global of the view `g`.
pub open spec fn finishes_with(r: (GlobalState, GlobalStep), g: GlobalView) -> bool {
    r.0 is Done && (r.1 matches GlobalStep::Finish(Ok(x)) && x@ == g)
}

/// Whether a step ends the query with the error `e`.
pub open spec fn fails_with(r: (GlobalState, GlobalStep), e: Error) -> bool {
    r.0 is Done && (r.1 matches GlobalStep::Finish(Err(err)) && err == e)
}

/// One step of the query that evaluates a module to its global.
///
/// A module for which a loader of the host is registered is taken from
/// the extern module query. Any other module is typechecked, compiled,
/// and its thunk is called; where the settings ask for it and the type
/// of the module is an IO action, the action is run, and its result is
/// the value. The first failure ends the query with its error.
pub fn global_inner(state: GlobalState, event: GlobalEvent, settings: &Settings, vm: Thread) -> (r:
    (GlobalState, GlobalStep))
    requires
        answers(state, event),
    ensures
        match (state, event) {
            (GlobalState::Start, GlobalEvent::Begin { extern_loader }) => if extern_loader {
                r.0 is ExternModule && r.1 is ForceExternModule
            } else {
                r.0 is Typechecked && r.1 is ForceTypecheck
            },
            (GlobalState::ExternModule, GlobalEvent::ExternModule(Ok((id, module)))) => finishes_with(
                r,
                GlobalView {
                    id: id@,
                    typ: module.typ@,
                    metadata: module.metadata@,
                    value: module.value@.value,
                },
            ),
            (GlobalState::ExternModule, GlobalEvent::ExternModule(Err(e))) => fails_with(r, e),
            (GlobalState::Typechecked, GlobalEvent::Typechecked(Ok(v))) => r.1 is ForceCompile && (
            r.0 matches GlobalState::Compiled { typ, metadata } && typ == v.typ && metadata
                == v.metadata),
            (GlobalState::Typechecked, GlobalEvent::Typechecked(Err(e))) => fails_with(r, e),
            (GlobalState::Compiled { typ, metadata }, GlobalEvent::Compiled(Ok(name))) => r.1
                is CallThunk && (r.0 matches GlobalState::Called { id, typ: t, metadata: m } && id
                == name && t == typ && m == metadata),
            (GlobalState::Compiled { .. }, GlobalEvent::Compiled(Err(e))) => fails_with(r, e),
            (GlobalState::Called { id, typ, metadata }, GlobalEvent::Called(Ok(value))) => if settings.run_io
                && is_io_type(typ@) {
                r.1 == GlobalStep::RunIo(value) && (r.0 matches GlobalState::Io {
                    id: i,
                    typ: t,
                    metadata: m,
                } && i == id && t@ == io_result_type(typ@) && m == metadata)
            } else {
                finishes_with(
                    r,
                    GlobalView { id: id@, typ: typ@, metadata: metadata@, value: value@ },
                )
            },
            (GlobalState::Called { .. }, GlobalEvent::Called(Err(e))) => fails_with(r, e),
            (GlobalState::Io { id, typ, metadata }, GlobalEvent::Io(Ok(value))) => finishes_with(
                r,
                GlobalView { id: id@, typ: typ@, metadata: metadata@, value: value@ },
            ),
            (GlobalState::Io { .. }, GlobalEvent::Io(Err(e))) => fails_with(r, e),
            _ => true,
        },
{
    match (state, event) {
        (GlobalState::Start, GlobalEvent::Begin { extern_loader }) => {
            if extern_loader {
                (GlobalState::ExternModule, GlobalStep::ForceExternModule)
            } else {
                (GlobalState::Typechecked, GlobalStep::ForceTypecheck)
            }
        },
        (GlobalState::ExternModule, GlobalEvent::ExternModule(Ok((id, module)))) => {
            let ExternModule { typ, metadata, value } = module;
            let global = Global { id, typ, metadata: Arc::new(metadata), value: value.unroot() };
            (GlobalState::Done, GlobalStep::Finish(Ok(global)))
        },
        (GlobalState::Typechecked, GlobalEvent::Typechecked(Ok(v))) => {
            let TypecheckValue { typ, metadata } = v;
            (GlobalState::Compiled { typ, metadata }, GlobalStep::ForceCompile)
        },
        (GlobalState::Compiled { typ, metadata }, GlobalEvent::Compiled(Ok(name))) => {
            (GlobalState::Called { id: name, typ, metadata }, GlobalStep::CallThunk)
        },
        (GlobalState::Called { id, typ, metadata }, GlobalEvent::Called(Ok(value))) => {
            if settings.run_io && (*typ).is_io() {
                let result_type = io_result(&typ);
                (GlobalState::Io { id, typ: result_type, metadata }, GlobalStep::RunIo(value))
            } else {
                (GlobalState::Done, GlobalStep::Finish(Ok(finish(id, typ, metadata, &value, vm))))
            }
        },
        (GlobalState::Io { id, typ, metadata }, GlobalEvent::Io(Ok(value))) => {
            (GlobalState::Done, GlobalStep::Finish(Ok(finish(id, typ, metadata, &value, vm))))
        },
        (_, GlobalEvent::ExternModule(Err(e))) => (GlobalState::Done, GlobalStep::Finish(Err(e))),
        (_, GlobalEvent::Typechecked(Err(e))) => (GlobalState::Done, GlobalStep::Finish(Err(e))),
        (_, GlobalEvent::Compiled(Err(e))) => (GlobalState::Done, GlobalStep::Finish(Err(e))),
        (_, GlobalEvent::Called(Err(e))) => (GlobalState::Done, GlobalStep::Finish(Err(e))),
        (_, GlobalEvent::Io(Err(e))) => (GlobalState::Done, GlobalStep::Finish(Err(e))),
        (_, _) => {
            // No other event answers a state.
            proof {
                assert(false);
            }
            (GlobalState::Done, GlobalStep::ForceTypecheck)
        },
    }
}

/// The global of a module as the database hands it out: what the cache
/// holds for it, rooted in the thread of the database.
pub fn global(db: &CompilerDatabase, inner: Result<UnrootedGlobal>) -> (r: Result<DatabaseGlobal>)
    requires
        db.thread is Some,
    ensures
        match inner {
            Ok(g) => r matches Ok(rooted) && rooted@.global == g@ && Some(rooted@.thread)
                == db.thread,
            Err(e) => r matches Err(err) && err == e,
        },
{
    match inner {
        Ok(g) => Ok(root_global_with(g, db.thread())),
        Err(e) => Err(e),
    }
}

} // verus!
