use std::sync::Arc;

use gluon_core::base::pos::Span;
use gluon_core::base::symbol::Symbol;
use gluon_core::base::types::{Alias, AliasField, ArcType, Field, Kind, Type, TypedIdent};
use gluon_core::ir::expr::{freeze_expr, CExpr, Expr, Literal};
use gluon_core::ir::interpreter::{Global as CoreGlobal, OptimizerInfo};
use gluon_core::ir::optimize::OptimizeEnv;
use gluon_core::query::cycle::{
    cyclic_dependency, participant_of, recover_cycle, recover_cycle_expected_type,
    recover_cycle_typecheck,
};
use gluon_core::query::database::{
    garbage_queries, garbage_strategy, operator_char, CompilationBase,
    CompilerDatabase, Query, Settings, SweepStrategy,
};
use gluon_core::query::env::Variable;
use gluon_core::query::error::{operator_not_a_field_message, Error};
use gluon_core::query::filemap::FileMap;
use gluon_core::query::queries::{
    compiled_module, core_expr, extern_module, extern_module_step, global, global_inner, import,
    import_symbol, try_compiled_module, typecheck_text_failure, ExternModule, ExternStep, GlobalEvent, GlobalState,
    GlobalStep,
};
use gluon_core::query::state::{module_filename, State, TextChange, TextSource};
use gluon_core::query::value::{
    root_global_with, unroot_global, Global, Metadata, RootedValue, Thread, TypecheckValue,
    UnrootedGlobal, Value,
};

fn int_type() -> ArcType {
    Type::ident("Int")
}

fn vm() -> Thread {
    Thread { id: 1 }
}

fn unrooted(id: &str, typ: ArcType, metadata: Metadata, value: Value) -> UnrootedGlobal {
    Global {
        id: Symbol::from(id),
        typ,
        metadata: Arc::new(metadata),
        value: RootedValue::new(vm(), &value).unroot(),
    }
}

fn record_type(types: Vec<AliasField>, fields: Vec<(&str, ArcType)>) -> ArcType {
    Type::record(types, fields.into_iter().map(|(n, t)| Field::new(n, t)).collect())
}

fn bool_alias() -> Arc<Alias> {
    Arc::new(Alias { name: Symbol::from("Bool"), params: vec![], typ: Type::ident("Bool") })
}

/// A database with the module `std.types`, a record with the type field `Bool`, the
/// operator `+` and the nested record `inner`.
fn database() -> CompilerDatabase {
    let mut db = CompilerDatabase::new_base(Some(vm()));
    let inner = Type::alias(
        "Inner",
        vec![],
        record_type(vec![], vec![("x", int_type()), ("y", Type::ident("String"))]),
    );
    let typ = record_type(
        vec![AliasField { name: Symbol::from("Bool"), typ: bool_alias() }],
        vec![("+", int_type()), ("inner", inner), ("one", int_type())],
    );
    let value = Value::Data(
        0,
        vec![
            Value::Function(Symbol::from("add")),
            Value::Data(0, vec![Value::Int(7), Value::String("seven".to_string())]),
            Value::Int(1),
        ],
    );
    let metadata = Metadata {
        comment: Some("types".to_string()),
        module: vec![(
            "inner".to_string(),
            Arc::new(Metadata {
                comment: None,
                module: vec![(
                    "x".to_string(),
                    Arc::new(Metadata { comment: Some("the x".to_string()), module: vec![] }),
                )],
            }),
        )],
    };
    db.set_module_global(
        "std.types".to_string(),
        unrooted("@std.types", typ, metadata, value),
    );
    db
}

#[test]
fn text_updates_are_idempotent() {
    let mut state = State::new();
    assert_eq!(state.add_module("m".to_string(), "1"), TextChange::Added);
    assert_eq!(state.add_module("m".to_string(), "1"), TextChange::Unchanged);
    assert_eq!(state.add_module("m".to_string(), "2"), TextChange::Replaced);
    assert_eq!(state.add_module("m".to_string(), "2"), TextChange::Unchanged);
    assert_eq!(state.inline_text("m"), Some("2".to_string()));
    assert_eq!(state.inline_text("n"), None);
}

#[test]
fn identical_text_invalidates_nothing() {
    // add_module("m", "1"); force global("m"); add_module("m", "1")
    let mut db = CompilerDatabase::new_base(Some(vm()));
    assert_eq!(db.add_module("m".to_string(), "1"), TextChange::Added);
    db.set_typechecked_module(
        "m".to_string(),
        TypecheckValue { typ: int_type(), metadata: Arc::new(Metadata::empty()) },
    );
    db.set_module_global(
        "m".to_string(),
        unrooted("@m", int_type(), Metadata::empty(), Value::Int(1)),
    );
    assert_eq!(
        CompilationBase::add_module(&mut db, "m".to_string(), "1"),
        TextChange::Unchanged
    );
    assert!(db.peek_typechecked_module("m").is_some());
    assert!(db.peek_global("m").is_some());
}

#[test]
fn inline_text_shadows_the_file() {
    let mut state = State::new();
    assert_eq!(state.module_text("std.m"), TextSource::File("std/m.glu".to_string()));
    state.add_module("std.m".to_string(), "inline");
    assert_eq!(state.module_text("std.m"), TextSource::Inline("inline".to_string()));
    assert!(state.remove_module("std.m"));
    assert!(!state.remove_module("std.m"));
    assert_eq!(state.module_text("std.m"), TextSource::File("std/m.glu".to_string()));
    assert_eq!(module_filename("main"), "main.glu");
    assert_eq!(module_filename("a.b.c"), "a/b/c.glu");
}

#[test]
fn file_maps_follow_the_text() {
    let mut state = State::new();
    assert_eq!(state.get_filemap("a"), None);
    let a = state.add_filemap("a", "one");
    assert_eq!(
        a,
        FileMap { name: "a".to_string(), src: "one".to_string(), start: 1, end: 4 }
    );
    // The same source again gives the file that is there.
    assert_eq!(state.add_filemap("a", "one"), a);
    let b = state.add_filemap("b", "");
    assert_eq!(b, FileMap { name: "b".to_string(), src: "".to_string(), start: 5, end: 5 });
    assert_eq!(state.get_filemap("a"), Some(a.duplicate()));
    assert_eq!(state.get_filemap("b"), Some(b.duplicate()));
    assert_eq!(state.get_or_insert_filemap("a", "other"), a);
    let c = state.get_or_insert_filemap("c", "sée");
    assert_eq!(c, FileMap { name: "c".to_string(), src: "sée".to_string(), start: 6, end: 10 });
    // Another source for a module adds a file and moves the module to it.
    let a2 = state.add_filemap("a", "two!");
    assert_eq!(a2.start, 11);
    assert_eq!(state.get_filemap("a"), Some(a2));
    assert_eq!(state.code_map().iter().count(), 4);
}

#[test]
fn file_maps_are_updated() {
    let mut state = State::new();
    state.add_filemap("a", "a");
    state.add_filemap("b", "b");
    assert_eq!(state.update_filemap("missing", "x"), None);
    let shorter = state.update_filemap("b", "").unwrap();
    assert_eq!(shorter, FileMap { name: "b".to_string(), src: "".to_string(), start: 3, end: 3 });
    assert_eq!(state.get_filemap("b"), Some(shorter));
    let moved = state.update_filemap("a", "aaaa").unwrap();
    assert_eq!(moved.src, "aaaa");
    assert_eq!(moved.name, "a");
    assert_eq!(state.get_filemap("a"), Some(moved));
    assert_eq!(state.code_map().iter().count(), 2);
}

#[test]
fn the_order_of_the_code_map_is_tested() {
    let mut state = State::new();
    assert!(state.files_in_order());
    state.add_filemap("a", "a");
    state.add_filemap("b", "b");
    state.add_filemap("c", "c");
    assert!(state.files_in_order());
    assert_eq!(
        state.try_update_filemap("a", ""),
        Some(Some(FileMap { name: "a".to_string(), src: "".to_string(), start: 1, end: 1 }))
    );
    assert_eq!(state.try_update_filemap("missing", "x"), Some(None));
    assert!(state.files_in_order());
    // The file of `b` now starts two bytes after the end of `a`. A source of
    // two bytes has room counted from there, but not from the start of `b`,
    // and the code map lets it reach the file of `c`.
    assert_eq!(
        state.try_update_filemap("b", "bb"),
        Some(Some(FileMap { name: "b".to_string(), src: "bb".to_string(), start: 3, end: 5 }))
    );
    assert!(!state.files_in_order());
    // The file of `c` starts where the file of `b` ends: no file is moved.
    assert!(!state.files_movable());
    assert_eq!(state.try_update_filemap("a", "x"), None);
    // The files are still found, and a module without a file is given one.
    assert_eq!(
        state.try_get_or_insert_filemap("a", "x"),
        Some(FileMap { name: "a".to_string(), src: "".to_string(), start: 1, end: 1 })
    );
    assert_eq!(
        state.get_or_insert_filemap("d", "dd"),
        FileMap { name: "d".to_string(), src: "dd".to_string(), start: 7, end: 9 }
    );
    assert_eq!(
        state.try_get_or_insert_filemap("e", ""),
        Some(FileMap { name: "e".to_string(), src: "".to_string(), start: 10, end: 10 })
    );
    assert_eq!(state.code_map().iter().count(), 5);

    let mut state = State::new();
    let a = state.try_get_or_insert_filemap("a", "one").unwrap();
    assert_eq!(a.src, "one");
    assert_eq!(state.try_get_or_insert_filemap("a", "two"), Some(a));
    let mut db = CompilerDatabase::new_base(None);
    assert!(db.files_in_order());
    db.add_filemap("n", "x");
    assert_eq!(db.try_update_filemap("n", "z").map(|f| f.map(|f| f.src)), Some(Some("z".to_string())));
    assert_eq!(db.try_get_or_insert_filemap("n", "y").map(|f| f.src), Some("z".to_string()));
    assert_eq!(db.try_get_or_insert_filemap("o", "y").map(|f| f.src), Some("y".to_string()));
}

#[test]
fn modules_compile_where_the_code_map_is_out_of_order() {
    let mut db = CompilerDatabase::new_base(Some(vm()));
    db.add_module("a".to_string(), "a");
    db.add_module("b".to_string(), "b");
    db.add_module("c".to_string(), "c");
    // The new text of `a` has no room in front of `b`: its file moves to
    // the end.
    let a = db.update_filemap("a", "aa").unwrap();
    assert_eq!(a, FileMap { name: "a".to_string(), src: "aa".to_string(), start: 7, end: 9 });
    assert!(db.files_in_order());
    // The file of `b` is now the first. It has room for three bytes counted
    // from the start of the code map: the new text stays in place and
    // reaches into the file of `c`.
    let b = db.update_filemap("b", "bbb").unwrap();
    assert_eq!(b, FileMap { name: "b".to_string(), src: "bbb".to_string(), start: 3, end: 6 });
    assert!(!db.files_in_order());
    let request = try_compiled_module(&db, "b").unwrap();
    assert_eq!(request.source, b);
    assert_eq!(request.module_id, Symbol::from("@b"));
    assert_eq!(try_compiled_module(&db, "a").map(|r| r.source), Some(a));
    assert!(try_compiled_module(&db, "missing").is_none());
    // No file starts where another one ends: the files are updated still.
    assert!(db.files_movable());
    assert_eq!(
        db.try_update_filemap("a", "a"),
        Some(Some(FileMap { name: "a".to_string(), src: "a".to_string(), start: 7, end: 8 }))
    );
    assert_eq!(db.try_update_filemap("missing", "a"), Some(None));
}

#[test]
fn a_new_or_another_text_invalidates() {
    assert!(!TextChange::Unchanged.invalidates());
    assert!(TextChange::Added.invalidates());
    assert!(TextChange::Replaced.invalidates());
    let mut db = CompilerDatabase::new_base(None);
    // The first inline text stands in front of what the importer found.
    assert!(db.add_module("m".to_string(), "1").invalidates());
    assert!(!db.add_module("m".to_string(), "1").invalidates());
    assert!(db.add_module("m".to_string(), "2").invalidates());
    // Without the inline text the module has the text of its file again.
    assert_eq!(db.state.module_text("m"), TextSource::Inline("2".to_string()));
    assert!(db.remove_module("m"));
    assert_eq!(db.state.module_text("m"), TextSource::File("m.glu".to_string()));
    assert!(!db.remove_module("m"));
}

#[test]
fn adding_a_module_adds_its_file() {
    let mut db = CompilerDatabase::new_base(None);
    db.add_module("m".to_string(), "1 + 2");
    assert_eq!(db.get_filemap("m").map(|f| f.src), Some("1 + 2".to_string()));
    db.add_module("m".to_string(), "3");
    assert_eq!(db.get_filemap("m").map(|f| f.src), Some("3".to_string()));
    assert_eq!(db.add_filemap("n", "x").name, "n");
    assert_eq!(db.get_or_insert_filemap("n", "y").src, "x");
    assert_eq!(db.update_filemap("n", "z").map(|f| f.src), Some("z".to_string()));
    assert_eq!(db.code_map().iter().count(), 3);
}

#[test]
fn cyclic_import() {
    // add_module("a", "import! b"); add_module("b", "import! a"); force global("a")
    let cycle = vec![
        "import(\"@a\")".to_string(),
        "global_inner(\"a\")".to_string(),
        "typechecked_module((\"a\", None))".to_string(),
        "import(\"@b\")".to_string(),
        "global_inner(\"b\")".to_string(),
        "typechecked_module((\"b\", None))".to_string(),
    ];
    let result: Result<(), Error> = recover_cycle(&cycle, &"a".to_string());
    assert_eq!(
        result,
        Err(Error::CyclicDependency {
            requested: "a".to_string(),
            participants: vec!["a".to_string(), "b".to_string()],
        })
    );
    let result: Result<u8, Error> = recover_cycle_expected_type(&cycle, &"b".to_string());
    assert_eq!(result, Err(cyclic_dependency(&cycle, &"b".to_string())));
    let result: Result<u8, (Option<u8>, Error)> = recover_cycle_typecheck(&cycle, &"b".to_string());
    assert_eq!(result, Err((None, cyclic_dependency(&cycle, &"b".to_string()))));
}

#[test]
fn participants_of_a_cycle() {
    assert_eq!(participant_of("import(\"@std.prelude\")"), "std.prelude");
    assert_eq!(participant_of("import(\"a\")"), "a");
    assert_eq!(participant_of("import(\"\")"), "");
    assert_eq!(participant_of("no quotes"), "");
    let only_others = vec!["global_inner(\"a\")".to_string()];
    assert_eq!(
        cyclic_dependency(&only_others, &"a".to_string()),
        Error::CyclicDependency { requested: "a".to_string(), participants: vec![] }
    );
    // A module whose name holds the word is listed for each of its queries.
    let odd = vec![
        "import(\"@import_utils\")".to_string(),
        "global_inner(\"import_utils\")".to_string(),
    ];
    assert_eq!(
        cyclic_dependency(&odd, &"import_utils".to_string()),
        Error::CyclicDependency {
            requested: "import_utils".to_string(),
            participants: vec!["import_utils".to_string(), "import_utils".to_string()],
        }
    );
}

#[test]
fn roots_and_unroots() {
    let value = Value::Data(1, vec![Value::Int(3)]);
    let rooted = RootedValue::new(vm(), &value);
    assert_eq!(rooted.vm(), vm());
    assert_eq!(*rooted.get_value(), value);
    let cached = rooted.unroot();
    let other = Thread { id: 2 };
    let again = cached.root_with(other);
    assert_eq!(again.vm(), other);
    assert_eq!(*again.get_value(), value);
    assert_eq!(*cached.clone().root_with(vm()).get_value(), value);

    let global = unrooted("@m", int_type(), Metadata::empty(), Value::Int(3));
    let rooted = root_global_with(global, other);
    assert_eq!(rooted.value.vm(), other);
    assert_eq!(rooted.id, Symbol::from("@m"));
    let back = unroot_global(rooted);
    assert_eq!(*back.value.root_with(vm()).get_value(), Value::Int(3));
}

#[test]
fn global_is_rooted_in_the_thread_of_the_database() {
    let db = CompilerDatabase::new_base(Some(Thread { id: 9 }));
    let inner = Ok(unrooted("@m", int_type(), Metadata::empty(), Value::Int(3)));
    let result = global(&db, inner).unwrap();
    assert_eq!(result.value.vm(), Thread { id: 9 });
    assert_eq!(*result.value.get_value(), Value::Int(3));
    let failed = global(&db, Err(Error::UndefinedBinding("m".to_string())));
    assert_eq!(failed.unwrap_err(), Error::UndefinedBinding("m".to_string()));
}

#[test]
fn values_and_types() {
    let value = Value::Data(0, vec![Value::Int(1)]);
    assert_eq!(value.deep_clone(), value);
    assert_eq!(value.get_variant(0), Some(&Value::Int(1)));
    assert_eq!(value.get_variant(1), None);
    assert_eq!(Value::Int(1).get_variant(0), None);
    let record = record_type(vec![], vec![("a", int_type()), ("b", int_type())]);
    assert_eq!(record.find_field("b"), Some(1));
    assert_eq!(record.find_field("c"), None);
    assert_eq!(int_type().find_field("b"), None);
    let io = Type::app(Type::ident("IO"), vec![int_type()]);
    assert!(io.is_io());
    assert!(!int_type().is_io());
    assert!(!Type::app(Type::ident("Array"), vec![int_type()]).is_io());
    let alias = Alias {
        name: Symbol::from("Map"),
        params: vec![Arc::new(Kind::Type), Arc::new(Kind::Row)],
        typ: Type::hole(),
    };
    assert_eq!(
        *alias.kind(),
        Kind::Function(
            Arc::new(Kind::Type),
            Arc::new(Kind::Function(Arc::new(Kind::Row), Arc::new(Kind::Type)))
        )
    );
}

#[test]
fn get_binding_walks_the_path() {
    let db = database();
    let (value, typ) = db.get_binding("std.types").unwrap();
    assert!(matches!(&*typ, Type::Record(_, _)));
    let (_, typ) = db.get_binding("std.types.inner").unwrap();
    assert!(matches!(&*typ, Type::Alias(_)));
    assert!(matches!(value.get_value(), Value::Data(0, _)));
    assert_eq!(value.vm(), vm());

    let (value, typ) = db.get_binding("std.types.one").unwrap();
    assert_eq!(*value.get_value(), Value::Int(1));
    assert_eq!(typ, int_type());

    let (value, typ) = db.get_binding("std.types.inner.y").unwrap();
    assert_eq!(*value.get_value(), Value::String("seven".to_string()));
    assert_eq!(typ, Type::ident("String"));

    let (value, _) = db.get_binding("std.types.(+)").unwrap();
    assert_eq!(*value.get_value(), Value::Function(Symbol::from("add")));
}

#[test]
fn get_binding_errors() {
    let db = database();
    assert_eq!(
        db.get_binding("other.x").unwrap_err(),
        Error::UndefinedBinding("other.x".to_string())
    );
    assert_eq!(db.get_binding("").unwrap_err(), Error::UndefinedBinding("".to_string()));
    match db.get_binding("std.types.missing").unwrap_err() {
        Error::UndefinedField(typ, field) => {
            assert!(matches!(&*typ, Type::Record(_, _)));
            assert_eq!(field, "missing");
        }
        other => panic!("unexpected error {:?}", other),
    }
    match db.get_binding("std.types.one.deeper").unwrap_err() {
        Error::UndefinedField(typ, field) => {
            assert_eq!(typ, int_type());
            assert_eq!(field, "deeper");
        }
        other => panic!("unexpected error {:?}", other),
    }
    assert_eq!(
        db.get_binding("std.types.+").unwrap_err(),
        Error::OperatorNotAField("+".to_string())
    );
    assert!(operator_not_a_field_message().contains("parentheses"));
    assert!(operator_char('+'));
    assert!(operator_char(':'));
    assert!(!operator_char('a'));
    assert!(!operator_char('('));
}

#[test]
fn scoped_global_prefers_the_longest_module() {
    let mut db = database();
    db.set_module_global(
        "std".to_string(),
        unrooted(
            "@std",
            record_type(vec![], vec![("types", int_type())]),
            Metadata::empty(),
            Value::Data(0, vec![Value::Int(5)]),
        ),
    );
    let (rest, found) = db.get_scoped_global("std.types.one").unwrap();
    assert_eq!(rest, "one");
    assert_eq!(found.id, Symbol::from("@std.types"));
    let (rest, found) = db.get_scoped_global("std.other").unwrap();
    assert_eq!(rest, "other");
    assert_eq!(found.id, Symbol::from("@std"));
    let (rest, found) = db.get_scoped_global("std").unwrap();
    assert_eq!(rest, "");
    assert_eq!(found.id, Symbol::from("@std"));
    assert!(db.get_scoped_global("other").is_none());
}

#[test]
fn paths_lead_into_globals_of_the_host() {
    let mut db = database();
    let value = Value::Data(
        0,
        vec![Value::Int(2), Value::Data(0, vec![Value::String("deep".to_string())])],
    );
    let inner = record_type(vec![], vec![("z", Type::ident("String"))]);
    db.set_global(
        "x",
        record_type(vec![], vec![("y", int_type()), ("inner", inner)]),
        Arc::new(Metadata {
            comment: None,
            module: vec![(
                "y".to_string(),
                Arc::new(Metadata { comment: Some("the y".to_string()), module: vec![] }),
            )],
        }),
        &value,
    );
    let (found, typ) = db.get_binding("x.y").unwrap();
    assert_eq!(*found.get_value(), Value::Int(2));
    assert_eq!(typ, int_type());
    assert_eq!(found.vm(), vm());
    let (found, typ) = db.get_binding("x.inner.z").unwrap();
    assert_eq!(*found.get_value(), Value::String("deep".to_string()));
    assert_eq!(typ, Type::ident("String"));
    let (found, _) = db.get_binding("x").unwrap();
    assert_eq!(*found.get_value(), value);
    assert!(matches!(db.get_binding("x.missing"), Err(Error::UndefinedField(_, _))));
    assert_eq!(db.get_metadata("x.y").unwrap().comment, Some("the y".to_string()));
    let (rest, global) = db.get_scoped_global("x.inner.z").unwrap();
    assert_eq!(rest, "inner.z");
    assert_eq!(global.id, Symbol::from("@x"));

    // The marks of resolution in front of a path are not part of it.
    let (found, _) = db.get_binding("@x.y").unwrap();
    assert_eq!(*found.get_value(), Value::Int(2));
    let (found, _) = db.get_binding("@std.types.one").unwrap();
    assert_eq!(*found.get_value(), Value::Int(1));
    assert!(db.as_env().get_global("@x").is_some());

    // A global of the host stands in front of the global of a module of the same name.
    db.set_global("std.types", int_type(), Arc::new(Metadata::empty()), &Value::Int(9));
    let (found, typ) = db.get_binding("std.types").unwrap();
    assert_eq!(*found.get_value(), Value::Int(9));
    assert_eq!(typ, int_type());
}

#[test]
fn paths_through_a_value_that_lacks_a_field() {
    let mut db = CompilerDatabase::new_base(Some(vm()));
    let typ = record_type(vec![], vec![("a", int_type()), ("b", int_type())]);
    // The value has one field, its type two.
    db.set_module_global(
        "m".to_string(),
        unrooted("@m", typ.clone(), Metadata::empty(), Value::Data(0, vec![Value::Int(1)])),
    );
    db.set_global("n", typ, Arc::new(Metadata::empty()), &Value::Int(5));
    assert!(matches!(db.try_get_binding("m.a"), Some(Ok(_))));
    assert!(db.try_get_binding("m.b").is_none());
    assert!(db.try_get_binding("n.a").is_none());
    assert!(matches!(db.try_get_binding("m"), Some(Ok(_))));
    assert!(matches!(db.try_get_binding("m.c"), Some(Err(Error::UndefinedField(_, _)))));
    assert_eq!(
        db.try_get_binding("other"),
        Some(Err(Error::UndefinedBinding("other".to_string())))
    );
    assert!(db.try_find_type_info("m.b.T").is_none());
    assert!(matches!(db.try_find_type_info("m.T"), Some(Err(Error::UndefinedField(_, _)))));
    assert_eq!(db.get_binding("m.a").map(|(v, _)| v.get_value().clone()), Ok(Value::Int(1)));
}

#[test]
fn extern_globals() {
    let mut db = database();
    assert!(db.get_extern_global("host").is_none());
    let value = Value::Data(0, vec![Value::Int(2)]);
    db.set_global(
        "host",
        record_type(vec![], vec![("n", int_type())]),
        Arc::new(Metadata::empty()),
        &value,
    );
    let found = db.get_extern_global("host").unwrap();
    assert_eq!(found.id, Symbol::from("@host"));
    assert_eq!(*found.value.get_value(), value);
    assert_eq!(found.value.vm(), vm());
    assert!(db.state.is_extern_global("host"));
    let view = db.as_env();
    assert!(view.get_global("host").is_some());
    assert_eq!(
        view.find_var(&Symbol::from("host")).map(|(v, _)| v),
        Some(Variable::UpVar(Symbol::from("@host")))
    );
    assert!(view.find_type(&Symbol::from("host")).is_some());
    assert!(view.find_type(&Symbol::from("std.types")).is_none());
}

#[test]
fn find_type_info_and_metadata() {
    let db = database();
    assert_eq!(db.find_type_info("std.types.Bool").unwrap(), bool_alias());
    match db.find_type_info("std.types.Missing").unwrap_err() {
        Error::UndefinedField(_, field) => assert_eq!(field, "Missing"),
        other => panic!("unexpected error {:?}", other),
    }
    assert_eq!(
        db.find_type_info("nothing.Bool").unwrap_err(),
        Error::UndefinedBinding("nothing".to_string())
    );
    assert_eq!(
        db.get_metadata("std.types").unwrap().comment,
        Some("types".to_string())
    );
    assert_eq!(
        db.get_metadata("std.types.inner.x").unwrap().comment,
        Some("the x".to_string())
    );
    assert_eq!(
        db.get_metadata("std.types.one").unwrap_err(),
        Error::MetadataDoesNotExist("std.types.one".to_string())
    );
    assert_eq!(
        db.get_metadata("nothing").unwrap_err(),
        Error::MetadataDoesNotExist("nothing".to_string())
    );
}

#[test]
fn environment_view() {
    let mut db = database();
    db.set_typechecked_module(
        "std.types".to_string(),
        TypecheckValue {
            typ: int_type(),
            metadata: Arc::new(Metadata { comment: Some("doc".to_string()), module: vec![] }),
        },
    );
    db.set_type_info("@std.types.Bool".to_string(), bool_alias());
    db.set_core_expr(
        "std.types".to_string(),
        CoreGlobal {
            value: freeze_expr(&Arc::new(Expr::Const(Literal::Int(1), Span::none()))),
            info: Arc::new(OptimizerInfo::empty()),
        },
    );
    let view = db.as_env();
    let global = Symbol::from("@std.types");
    let local = Symbol::from("std.types");
    assert_eq!(
        view.find_var(&global).map(|(v, _)| v),
        Some(Variable::UpVar(Symbol::from("@std.types")))
    );
    assert!(view.find_var(&local).is_none());
    assert!(view.find_type(&global).is_some());
    assert!(view.get_global("@std.types").is_some());
    assert!(view.get_global("std.types").is_some());
    assert!(view.get_global("std").is_none());
    assert_eq!(view.get_metadata(&global).unwrap().comment, Some("doc".to_string()));
    assert!(view.get_metadata(&local).is_none());
    assert!(view.get_metadata(&Symbol::from("@other")).is_none());
    assert_eq!(view.find_type_info(&Symbol::from("@std.types.Bool")), Some(bool_alias()));
    assert!(view.find_type_info(&Symbol::from("std.types.Bool")).is_none());
    assert_eq!(view.find_kind(&Symbol::from("@std.types.Bool")), Some(Arc::new(Kind::Type)));
    assert!(view.find_kind(&Symbol::from("@std.types.Int")).is_none());
    assert!(view.find_expr(&global).is_some());
    assert!(view.find_expr(&local).is_none());
    assert!(view.knows_bool());
    assert_eq!(view.get_bool(), Arc::new(Type::Alias(bool_alias())));
    assert!(!CompilerDatabase::new_base(Some(vm())).as_env().knows_bool());
}

#[test]
fn garbage_collection_keeps_globals() {
    let mut db = database();
    db.set_typechecked_module(
        "std.types".to_string(),
        TypecheckValue { typ: int_type(), metadata: Arc::new(Metadata::empty()) },
    );
    let loaded = import(&mut db, "std.types", Ok(int_type())).unwrap();
    assert_eq!(loaded, TypedIdent::new(Symbol::from("@std.types"), int_type()));
    assert!(db.peek_typechecked_module("std.types").is_none());
    assert!(db.peek_global("std.types").is_some());
    let failed = import(&mut db, "@m", Err(Error::SourceNotFound { module: "m".to_string() }));
    assert_eq!(failed, Err(Error::SourceNotFound { module: "m".to_string() }));
    assert_eq!(import_symbol("@m"), Symbol::from("@m"));
    assert_eq!(import_symbol("m"), Symbol::from("@m"));
    assert_eq!(
        garbage_strategy(),
        SweepStrategy { discard_values: true, all_revisions: true }
    );
    assert_eq!(
        garbage_queries(),
        vec![Query::ModuleText, Query::TypecheckedModule, Query::CoreExpr, Query::CompiledModule]
    );
}

fn add(a: i64, b: i64) -> CExpr {
    let lit = |i| Arc::new(Expr::Const(Literal::Int(i), Span::none()));
    Arc::new(Expr::Call(
        Arc::new(Expr::Ident(
            TypedIdent::new(Symbol::from("#Int+"), int_type()),
            Span::none(),
        )),
        vec![lit(a), lit(b)],
    ))
}

#[test]
fn core_expr_follows_the_settings() {
    let mut db = CompilerDatabase::new_base(Some(vm()));
    assert_eq!(
        db.settings,
        Settings { use_standard_lib: true, optimize: true, emit_debug_info: false, run_io: false }
    );
    assert_eq!(Settings::default(), db.settings);
    let expr = add(1, 2);
    let optimized = core_expr(&db, &expr);
    assert_eq!(
        *optimized.value.expr(),
        Arc::new(Expr::Const(Literal::Int(3), Span::none()))
    );
    db.settings.optimize = false;
    let plain = core_expr(&db, &expr);
    assert_eq!(*plain.value.expr(), expr);
    assert!(plain.info.pure_symbols.get("a").is_none());
    assert!(try_compiled_module(&db, "std.list").is_none());
    db.add_module("std.list".to_string(), "[]");
    assert_eq!(try_compiled_module(&db, "std.list"), Some(compiled_module(&db, "std.list")));
    let request = compiled_module(&db, "std.list");
    assert_eq!(request.source.src, "[]");
    assert_eq!(request.symbols_module, "std");
    assert_eq!(request.module_id, Symbol::from("@std.list"));
    assert!(!request.emit_debug_info);
}

fn drive(extern_loader: bool, settings: &Settings, typ: ArcType) -> Vec<&'static str> {
    let mut trace = vec![];
    let (mut state, mut step) =
        global_inner(GlobalState::Start, GlobalEvent::Begin { extern_loader }, settings, vm());
    loop {
        let event = match step {
            GlobalStep::ForceExternModule => {
                trace.push("extern");
                GlobalEvent::ExternModule(Ok((
                    Symbol::from("@m"),
                    ExternModule {
                        typ: typ.clone(),
                        metadata: Metadata::empty(),
                        value: RootedValue::new(vm(), &Value::Int(3)),
                    },
                )))
            }
            GlobalStep::ForceTypecheck => {
                trace.push("typecheck");
                GlobalEvent::Typechecked(Ok(TypecheckValue {
                    typ: typ.clone(),
                    metadata: Arc::new(Metadata::empty()),
                }))
            }
            GlobalStep::ForceCompile => {
                trace.push("compile");
                GlobalEvent::Compiled(Ok(Symbol::from("@m")))
            }
            GlobalStep::CallThunk => {
                trace.push("call");
                GlobalEvent::Called(Ok(Value::Int(3)))
            }
            GlobalStep::RunIo(action) => {
                assert_eq!(action, Value::Int(3));
                trace.push("io");
                GlobalEvent::Io(Ok(Value::Int(4)))
            }
            GlobalStep::Finish(result) => {
                let global = result.unwrap();
                assert_eq!(global.id, Symbol::from("@m"));
                let value = global.value.root_with(vm());
                trace.push(match value.get_value() {
                    Value::Int(3) => "three",
                    Value::Int(4) => "four",
                    _ => "other",
                });
                trace.push(if global.typ == int_type() { "Int" } else { "not Int" });
                return trace;
            }
        };
        let next = global_inner(state, event, settings, vm());
        state = next.0;
        step = next.1;
    }
}

#[test]
fn trivial_module() {
    // add_module("main", "1 + 2"); force global("main")
    let db = CompilerDatabase::new_base(Some(vm()));
    let optimized = core_expr(&db, &add(1, 2));
    assert_eq!(
        *optimized.value.expr(),
        Arc::new(Expr::Const(Literal::Int(3), Span::none()))
    );
    assert_eq!(
        drive(false, &db.settings, int_type()),
        vec!["typecheck", "compile", "call", "three", "Int"]
    );
}

#[test]
fn global_inner_runs_io_when_asked() {
    let io = Type::app(Type::ident("IO"), vec![int_type()]);
    let mut settings = Settings::default();
    assert_eq!(
        drive(false, &settings, io.clone()),
        vec!["typecheck", "compile", "call", "three", "not Int"]
    );
    settings.run_io = true;
    assert_eq!(
        drive(false, &settings, io),
        vec!["typecheck", "compile", "call", "io", "four", "Int"]
    );
    assert_eq!(
        drive(false, &settings, int_type()),
        vec!["typecheck", "compile", "call", "three", "Int"]
    );
    assert_eq!(drive(true, &settings, int_type()), vec!["extern", "three", "Int"]);
}

#[test]
fn global_inner_stops_at_the_first_failure() {
    let settings = Settings::default();
    let failure = || Error::Typecheck { module: "m".to_string(), span: Span::none() };
    let (state, _) =
        global_inner(GlobalState::Start, GlobalEvent::Begin { extern_loader: false }, &settings, vm());
    let (state, step) = global_inner(state, GlobalEvent::Typechecked(Err(failure())), &settings, vm());
    assert!(matches!(state, GlobalState::Done));
    match step {
        GlobalStep::Finish(Err(e)) => assert_eq!(e, failure()),
        _ => panic!("expected the failure"),
    }
    let (state, step) = global_inner(
        GlobalState::Called {
            id: Symbol::from("@m"),
            typ: int_type(),
            metadata: Arc::new(Metadata::empty()),
        },
        GlobalEvent::Called(Err(Error::VmRuntime {
            module: "m".to_string(),
            message: "boom".to_string(),
        })),
        &settings,
        vm(),
    );
    assert!(matches!(state, GlobalState::Done));
    assert!(matches!(step, GlobalStep::Finish(Err(Error::VmRuntime { .. }))));
}

#[test]
fn extern_modules_import_their_dependencies_first() {
    let deps = vec!["a".to_string(), "b".to_string()];
    assert_eq!(extern_module_step(&deps, 0, None), ExternStep::Import("a".to_string()));
    assert_eq!(extern_module_step(&deps, 1, None), ExternStep::Import("b".to_string()));
    assert_eq!(extern_module_step(&deps, 2, None), ExternStep::Load);
    let failure = Error::SourceNotFound { module: "a".to_string() };
    assert_eq!(
        extern_module_step(&deps, 1, Some(Error::SourceNotFound { module: "a".to_string() })),
        ExternStep::Fail(failure)
    );
    let module = ExternModule {
        typ: int_type(),
        metadata: Metadata::empty(),
        value: RootedValue::new(vm(), &Value::Int(1)),
    };
    let (id, loaded) = extern_module("host.lib", Ok(module)).unwrap();
    assert_eq!(id, Symbol::from("@host.lib"));
    assert_eq!(*loaded.value.get_value(), Value::Int(1));
    let failed = extern_module(
        "host.lib",
        Err(Error::ExternLoad { module: "host.lib".to_string(), message: "no".to_string() }),
    );
    assert!(matches!(failed, Err(Error::ExternLoad { .. })));
    let (partial, err) = typecheck_text_failure(Error::SourceNotFound { module: "m".to_string() });
    assert!(partial.is_none());
    assert_eq!(err, Error::SourceNotFound { module: "m".to_string() });
}
