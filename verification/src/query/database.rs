//! The compilation database: the text store, the settings, and the
//! results that are computed already, as far as other phases may look
//! at them. Looking at a result never computes it.

use vstd::prelude::*;
use vstd::hash_map::StringHashMap;
use vstd::string::*;
use std::sync::Arc;
use crate::base::shared::share;
use crate::base::strings::{
    ends_with_char,
    lemma_trailing_bound,
    starts_with_char,
    trailing,
    trim_end,
    trim_start_matches,
    CharClass,
};
use crate::base::symbol::{
    components,
    definition_name,
    last_of,
    module_of,
    name_components,
    name_last,
    name_module,
    resolved_name,
    resolved_symbol,
};
use crate::base::types::{
    field_index, lemma_field_index_bounds, remove_aliases, row_fields, type_field_alias,
    type_fields, without_aliases, Alias, AliasView, ArcType, TypeView,
};
use crate::ir::expr::CoreExpr;
use crate::query::error::{Error, ErrorView, Result};
use crate::query::state::State;
use crate::query::value::{
    metadata_field,
    root_global_with,
    DatabaseGlobal,
    Global,
    GlobalView,
    Metadata,
    MetadataView,
    RootedValue,
    Thread,
    TypecheckValue,
    TypecheckValueView,
    UnrootedGlobal,
    Value,
    ValueView,
};

verus! {

/// The options of the compilation.
#[derive(Clone, Copy, Debug, PartialEq, Eq, Structural)]
pub struct Settings {
    /// Whether the importer may take a module that it does not find
    /// from the standard library that comes with it.
    pub use_standard_lib: bool,
    /// Whether the core expression of a module is optimized.
    pub optimize: bool,
    /// Whether the bytecode records the positions in the source.
    pub emit_debug_info: bool,
    /// Whether an IO action that a module evaluates to is run.
    pub run_io: bool,
}

/// The settings of a host that embeds the compiler as a library: the
/// standard library may be used, the optimizer runs, no positions are
/// recorded and IO actions are not run.
pub open spec fn default_settings() -> Settings {
    Settings { use_standard_lib: true, optimize: true, emit_debug_info: false, run_io: false }
}

impl Default for Settings {
    fn default() -> (r: Settings)
        ensures
            r == default_settings(),
    {
        Settings { use_standard_lib: true, optimize: true, emit_debug_info: false, run_io: false }
    }
}

/// Whether a character is one that operators are made of.
pub open spec fn is_operator_char(c: char) -> bool {
    c == '!' || c == '#' || c == '$' || c == '%' || c == '&' || c == '*' || c == '+' || c == '-'
        || c == '.' || c == '/' || c == '<' || c == '=' || c == '>' || c == '?' || c == '@' || c
        == '\\' || c == '^' || c == '|' || c == '~' || c == ':'
}

pub fn operator_char(c: char) -> (r: bool)
    ensures
        r == is_operator_char(c),
{
    c == '!' || c == '#' || c == '$' || c == '%' || c == '&' || c == '*' || c == '+' || c == '-'
        || c == '.' || c == '/' || c == '<' || c == '=' || c == '>' || c == '?' || c == '@' || c
        == '\\' || c == '^' || c == '|' || c == '~' || c == ':'
}

/// Whether a part of a path holds a character of operators.
pub open spec fn has_operator_char(s: Seq<char>) -> bool {
    exists|i: int| 0 <= i < s.len() && is_operator_char(#[trigger] s[i])
}

fn contains_operator_char(s: &str) -> (r: bool)
    ensures
        r == has_operator_char(s@),
{
    let n = s.unicode_len();
    let mut i: usize = 0;
    while i < n
        invariant
            i <= n,
            n == s@.len(),
            forall|j: int| 0 <= j < i ==> !is_operator_char(#[trigger] s@[j]),
        decreases n - i,
    {
        if operator_char(s.get_char(i)) {
            return true;
        }
        i += 1;
    }
    false
}

/// The name of the field that a part of a path asks for: what stands
/// between the parentheses of a part that is put in parentheses, the
/// part itself where it holds no character of operators, and none for
/// any other part.
pub open spec fn field_segment(raw: Seq<char>) -> Option<Seq<char>> {
    if raw.len() > 0 && raw[0] == '(' && raw.last() == ')' {
        Some(raw.subrange(1, raw.len() - 1))
    } else if has_operator_char(raw) {
        None
    } else {
        Some(raw)
    }
}

/// What a path through the fields of a global leads to.
pub ghost enum Found {
    Binding(ValueView, TypeView),
    UndefinedField(TypeView, Seq<char>),
    OperatorNotAField(Seq<char>),
    /// The type has the field, but the value is not constructed or has
    /// no field at that place: the value does not belong to the type.
    Misshapen,
}

/// The field at `index` of a constructed value.
pub open spec fn value_field(value: ValueView, index: int) -> Option<ValueView> {
    match value {
        ValueView::Data(_, fields) => if 0 <= index < fields.len() {
            Some(fields[index])
        } else {
            None
        },
        _ => None,
    }
}

/// What the parts of a path, from index `from` on, lead to from the
/// value `value` of the type `typ`: each part names a field of the
/// record type that stands behind the aliases of the type so far, and
/// leads to the value and the type of the first field of that name.
pub open spec fn walk_fields(typ: TypeView, value: ValueView, parts: Seq<Seq<char>>, from: int) -> Found
    decreases parts.len() - from,
{
    if 0 <= from < parts.len() {
        match field_segment(parts[from]) {
            None => Found::OperatorNotAField(parts[from]),
            Some(name) => {
                let record = without_aliases(typ);
                match field_index(row_fields(record), name, 0) {
                    Some(i) => match value_field(value, i) {
                        Some(field) => walk_fields(row_fields(record)[i].typ, field, parts, from + 1),
                        None => Found::Misshapen,
                    },
                    None => Found::UndefinedField(record, name),
                }
            },
        }
    } else {
        Found::Binding(value, typ)
    }
}

/// The metadata that the parts of a path, from index `from` on, lead to
/// from the metadata `m`: each part names a field.
pub open spec fn walk_metadata(m: MetadataView, parts: Seq<Seq<char>>, from: int) -> Option<
    MetadataView,
>
    decreases parts.len() - from,
{
    if 0 <= from < parts.len() {
        match metadata_field(m, parts[from], 0) {
            Some(field) => walk_metadata(field, parts, from + 1),
            None => None,
        }
    } else {
        Some(m)
    }
}

/// What is left of a path behind the module `module` and the dot that
/// follows it.
pub open spec fn remaining_fields(name: Seq<char>, module: Seq<char>) -> Seq<char> {
    name.skip(
        if name.len() < module.len() + 1 {
            name.len() as int
        } else {
            module.len() as int + 1
        },
    )
}

pub proof fn lemma_module_is_shorter(s: Seq<char>)
    requires
        s.len() > 0,
    ensures
        name_module(s).len() < s.len(),
{
    let other = CharClass { ch: '.', negated: true };
    let dot = CharClass { ch: '.', negated: false };
    lemma_trailing_bound(s, other);
    let t = trim_end(s, other);
    lemma_trailing_bound(t, dot);
    if trailing(s, other) == 0 {
        assert(t =~= s);
        assert(dot.has(s.last()));
    }
}

/// The database without its engine: the store of module text, the
/// settings, the thread of the machine that it works for, and the
/// results of the queries that are computed already, by module.
pub struct CompilerDatabase {
    pub state: State,
    pub thread: Option<Thread>,
    pub settings: Settings,
    pub typechecked: StringHashMap<TypecheckValue>,
    pub core_exprs: StringHashMap<crate::ir::interpreter::Global<CoreExpr>>,
    pub globals: StringHashMap<UnrootedGlobal>,
    pub extern_values: StringHashMap<UnrootedGlobal>,
    pub type_infos: StringHashMap<Arc<Alias>>,
}

impl CompilerDatabase {
    /// What the typechecker has found out about the module `key`, where
    /// that is computed.
    pub open spec fn typechecked_at(&self, key: Seq<char>) -> Option<TypecheckValueView> {
        if self.typechecked@.contains_key(key) {
            Some(self.typechecked@[key]@)
        } else {
            None
        }
    }

    /// The optimized core expression of the module `key`, where that is
    /// computed.
    pub open spec fn core_expr_at(&self, key: Seq<char>) -> Option<
        crate::ir::interpreter::GlobalView,
    > {
        if self.core_exprs@.contains_key(key) {
            Some(self.core_exprs@[key]@)
        } else {
            None
        }
    }

    /// The global of the module `key`, where that is computed.
    pub open spec fn global_at(&self, key: Seq<char>) -> Option<GlobalView> {
        if self.globals@.contains_key(key) {
            Some(self.globals@[key]@)
        } else {
            None
        }
    }

    /// The global `name` that the host has set, where it has set one.
    pub open spec fn extern_global_at(&self, name: Seq<char>) -> Option<GlobalView> {
        if self.state.extern_globals@.contains(name) && self.extern_values@.contains_key(name) {
            Some(self.extern_values@[name]@)
        } else {
            None
        }
    }

    /// The alias that the machine knows under the name `id`.
    pub open spec fn type_info_at(&self, id: Seq<char>) -> Option<AliasView> {
        if self.type_infos@.contains_key(id) {
            Some(self.type_infos@[id]@)
        } else {
            None
        }
    }

    /// The global of the name `module`: the one that the host has set
    /// under the name or else the global of the module.
    pub open spec fn global_for(&self, module: Seq<char>) -> Option<GlobalView> {
        match self.extern_global_at(module) {
            Some(g) => Some(g),
            None => self.global_at(module),
        }
    }

    /// The longest start of `module`, `module` itself included, that is
    /// the name of a global, with that global: the parts are taken off
    /// the end of the name one by one.
    pub open spec fn scoped_global(&self, module: Seq<char>) -> Option<(Seq<char>, GlobalView)>
        decreases module.len(),
    {
        if module.len() == 0 {
            None
        } else {
            match self.global_for(module) {
                Some(g) => Some((module, g)),
                None => {
                    proof {
                        lemma_module_is_shorter(module);
                    }
                    self.scoped_global(name_module(module))
                },
            }
        }
    }

    /// A database that holds nothing, for the thread `thread`.
    pub fn new_base(thread: Option<Thread>) -> (r: CompilerDatabase)
        ensures
            r.thread == thread,
            r.settings == default_settings(),
            r.state.inline_texts() == Map::<Seq<char>, Seq<char>>::empty(),
            forall|k: Seq<char>| r.global_at(k) is None && r.extern_global_at(k) is None,
            forall|k: Seq<char>| r.typechecked_at(k) is None && r.core_expr_at(k) is None,
            forall|k: Seq<char>| r.type_info_at(k) is None,
    {
        CompilerDatabase {
            state: State::new(),
            thread,
            settings: Settings::default(),
            typechecked: StringHashMap::new(),
            core_exprs: StringHashMap::new(),
            globals: StringHashMap::new(),
            extern_values: StringHashMap::new(),
            type_infos: StringHashMap::new(),
        }
    }

    /// The thread that the database works for.
    pub fn thread(&self) -> (r: Thread)
        requires
            self.thread is Some,
        ensures
            Some(r) == self.thread,
    {
        match self.thread {
            Some(t) => t,
            None => {
                proof {
                    assert(false);
                }
                Thread { id: 0 }
            },
        }
    }

    /// Gives the module `module` the inline text `contents`. The result
    /// says whether the text query of the module must be invalidated.
    /// Where the text is new or another, the module is also given a file
    /// with the text in the code map.
    pub fn add_module(&mut self, module: String, contents: &str) -> (r: crate::query::state::TextChange)
        ensures
            (final(self).state.inline_texts(), r) == crate::query::state::text_update(
                old(self).state.inline_texts(),
                module@,
                contents@,
            ),
            r == crate::query::state::TextChange::Unchanged ==> *final(self) == *old(self),
            r != crate::query::state::TextChange::Unchanged ==> old(self).state.filed(
                final(self).state,
                module@,
                contents@,
            ),
            old(self).state.wf() && crate::query::filemap::next_start(old(self).state.files())
                + crate::query::filemap::byte_len(contents@) <= u32::MAX ==> final(self).state.wf(),
            final(self).state.extern_globals == old(self).state.extern_globals,
            final(self).thread == old(self).thread,
            final(self).settings == old(self).settings,
            final(self).typechecked == old(self).typechecked,
            final(self).core_exprs == old(self).core_exprs,
            final(self).globals == old(self).globals,
            final(self).extern_values == old(self).extern_values,
            final(self).type_infos == old(self).type_infos,
    {
        self.state.add_module(module, contents)
    }

    /// Takes the inline text of `module` away, so that its text is the
    /// one that the importer finds. The result says whether the module
    /// had an inline text: then what the text query holds for the
    /// module is out of date and must be invalidated.
    pub fn remove_module(&mut self, module: &str) -> (r: bool)
        ensures
            r == old(self).state.inline_texts().contains_key(module@),
            final(self).state.inline_texts() == old(self).state.inline_texts().remove(module@),
            final(self).state.extern_globals == old(self).state.extern_globals,
            final(self).state.code_map == old(self).state.code_map,
            final(self).state.index_map == old(self).state.index_map,
            final(self).thread == old(self).thread,
            final(self).settings == old(self).settings,
            final(self).typechecked == old(self).typechecked,
            final(self).core_exprs == old(self).core_exprs,
            final(self).globals == old(self).globals,
            final(self).extern_values == old(self).extern_values,
            final(self).type_infos == old(self).type_infos,
    {
        self.state.remove_module(module)
    }

    /// A copy of the code map.
    pub fn code_map(&self) -> (r: codespan::CodeMap<String>)
        ensures
            crate::query::filemap::code_map_files(r) == self.state.files(),
    {
        self.state.code_map()
    }

    /// Whether the spans of the files of the code map are in order and
    /// apart.
    pub fn files_in_order(&self) -> (r: bool)
        ensures
            r == crate::query::filemap::spaced(self.state.files()),
            r ==> crate::query::filemap::movable(self.state.files()),
    {
        self.state.files_in_order()
    }

    /// Whether a file of the code map can be given another place: no
    /// file starts at the position 0 or at the position at which one of
    /// the two files before it ends.
    pub fn files_movable(&self) -> (r: bool)
        ensures
            r == crate::query::filemap::movable(self.state.files()),
    {
        self.state.files_movable()
    }

    /// Gives the file of the module `file` the source `source`. The
    /// result is the new file, which has the name of the old one and has
    /// taken its place in the code map, and whose start is recorded for
    /// the module. Where nothing is returned, nothing changes; in a code
    /// map that is in order that is so only where no position is
    /// recorded for the module or no file of the code map holds that
    /// position in its span. The files of the code map must be such that
    /// one of them can be given another place, which they are where they
    /// are in order.
    pub fn update_filemap(&mut self, file: &str, source: &str) -> (r: Option<
        crate::query::filemap::FileMap,
    >)
        requires
            crate::query::filemap::movable(old(self).state.files()),
        ensures
            old(self).state.updated(final(self).state, file@, source@, r),
            final(self).state.inline_modules == old(self).state.inline_modules,
            final(self).state.extern_globals == old(self).state.extern_globals,
            final(self).thread == old(self).thread,
            final(self).settings == old(self).settings,
            final(self).typechecked == old(self).typechecked,
            final(self).core_exprs == old(self).core_exprs,
            final(self).globals == old(self).globals,
            final(self).extern_values == old(self).extern_values,
            final(self).type_infos == old(self).type_infos,
    {
        self.state.update_filemap(file, source)
    }

    /// `update_filemap` for a code map of which it is not known whether
    /// a file of it can be given another place: where none can, nothing
    /// is done and the result is `None`.
    pub fn try_update_filemap(&mut self, file: &str, source: &str) -> (r: Option<
        Option<crate::query::filemap::FileMap>,
    >)
        ensures
            match r {
                Some(updated) => crate::query::filemap::movable(old(self).state.files()) && old(self).state.updated(final(self).state, file@, source@, updated),
                None => !crate::query::filemap::movable(old(self).state.files()) && *final(self)
                    == *old(self),
            },
            final(self).state.inline_modules == old(self).state.inline_modules,
            final(self).state.extern_globals == old(self).state.extern_globals,
            final(self).thread == old(self).thread,
            final(self).settings == old(self).settings,
            final(self).typechecked == old(self).typechecked,
            final(self).core_exprs == old(self).core_exprs,
            final(self).globals == old(self).globals,
            final(self).extern_values == old(self).extern_values,
            final(self).type_infos == old(self).type_infos,
    {
        self.state.try_update_filemap(file, source)
    }

    /// The file of the module `file`.
    pub fn get_filemap(&self, file: &str) -> (r: Option<crate::query::filemap::FileMap>)
        ensures
            match r {
                Some(f) => self.state.indices().contains_key(file@) && self.state.files().contains(
                    f@,
                ) && crate::query::filemap::in_span(f@, self.state.indices()[file@]),
                None => !self.state.indices().contains_key(file@) || (
                crate::query::filemap::spaced(self.state.files()) ==> forall|i: int|
                    0 <= i < self.state.files().len() ==> !crate::query::filemap::in_span(
                        #[trigger] self.state.files()[i],
                        self.state.indices()[file@],
                    )),
            },
            self.state.wf() ==> (r is Some <==> self.state.indices().contains_key(file@)),
            self.state.wf() ==> (r matches Some(f) ==> f.start == self.state.indices()[file@]),
    {
        self.state.get_filemap(file)
    }

    /// Gives the module `file` a file with the source `source`, unless
    /// it has one with that source.
    pub fn add_filemap(&mut self, file: &str, source: &str) -> (r: crate::query::filemap::FileMap)
        ensures
            r.src@ == source@,
            old(self).state.filed(final(self).state, file@, source@),
            final(self).state.files() == old(self).state.files() ==> old(self).state.files().contains(r@) && crate::query::filemap::in_span(
                r@,
                old(self).state.indices()[file@],
            ),
            final(self).state.files() != old(self).state.files() ==> final(self).state.files().last() == r@,
            old(self).state.wf() && crate::query::filemap::next_start(old(self).state.files())
                + crate::query::filemap::byte_len(source@) <= u32::MAX ==> final(self).state.wf(),
            final(self).state.inline_modules == old(self).state.inline_modules,
            final(self).state.extern_globals == old(self).state.extern_globals,
            final(self).thread == old(self).thread,
            final(self).settings == old(self).settings,
            final(self).typechecked == old(self).typechecked,
            final(self).core_exprs == old(self).core_exprs,
            final(self).globals == old(self).globals,
            final(self).extern_values == old(self).extern_values,
            final(self).type_infos == old(self).type_infos,
    {
        self.state.add_filemap(file, source)
    }

    /// The file of the module `file`, which is added with the source
    /// `source` where no position is recorded for the module. A module
    /// for which a position is recorded must have a file, in a code map
    /// that is in order.
    pub fn get_or_insert_filemap(&mut self, file: &str, source: &str) -> (r:
        crate::query::filemap::FileMap)
        requires
            old(self).state.indices().contains_key(file@) ==> crate::query::filemap::spaced(
                old(self).state.files(),
            ) && old(self).state.has_file(file@),
        ensures
            old(self).state.indices().contains_key(file@) ==> *final(self) == *old(self)
                && crate::query::filemap::in_span(r@, old(self).state.indices()[file@]) && old(self).state.files().contains(r@),
            !old(self).state.indices().contains_key(file@) ==> r.name@ == file@ && r.src@
                == source@ && final(self).state.files() == old(self).state.files().push(r@)
                && final(self).state.indices() == old(self).state.indices().insert(
                file@,
                r.start,
            ),
            final(self).state.inline_modules == old(self).state.inline_modules,
            final(self).state.extern_globals == old(self).state.extern_globals,
            final(self).thread == old(self).thread,
            final(self).settings == old(self).settings,
            final(self).typechecked == old(self).typechecked,
            final(self).core_exprs == old(self).core_exprs,
            final(self).globals == old(self).globals,
            final(self).extern_values == old(self).extern_values,
            final(self).type_infos == old(self).type_infos,
    {
        self.state.get_or_insert_filemap(file, source)
    }

    /// `get_or_insert_filemap` for a database of which it is not known
    /// whether it meets what that function asks for. The result is
    /// `None`, and nothing is done, only where a position is recorded
    /// for the module and the search of the code map finds no file for
    /// it; in a code map that is in order that is where no file holds
    /// the position.
    pub fn try_get_or_insert_filemap(&mut self, file: &str, source: &str) -> (r: Option<
        crate::query::filemap::FileMap,
    >)
        ensures
            !old(self).state.indices().contains_key(file@) ==> r is Some,
            crate::query::filemap::spaced(old(self).state.files()) ==> (r is Some <==> (old(self).state.indices().contains_key(file@) ==> old(self).state.has_file(file@))),
            r is None ==> *final(self) == *old(self),
            r matches Some(f) ==> {
                &&& old(self).state.indices().contains_key(file@) ==> *final(self) == *old(self)
                    && crate::query::filemap::in_span(f@, old(self).state.indices()[file@])
                    && old(self).state.files().contains(f@)
                &&& !old(self).state.indices().contains_key(file@) ==> f.name@ == file@ && f.src@
                    == source@ && final(self).state.files() == old(self).state.files().push(f@)
                    && final(self).state.indices() == old(self).state.indices().insert(
                    file@,
                    f.start,
                )
            },
            final(self).state.inline_modules == old(self).state.inline_modules,
            final(self).state.extern_globals == old(self).state.extern_globals,
            final(self).thread == old(self).thread,
            final(self).settings == old(self).settings,
            final(self).typechecked == old(self).typechecked,
            final(self).core_exprs == old(self).core_exprs,
            final(self).globals == old(self).globals,
            final(self).extern_values == old(self).extern_values,
            final(self).type_infos == old(self).type_infos,
    {
        self.state.try_get_or_insert_filemap(file, source)
    }

    /// What the typechecker has found out about the module `key`, where
    /// that is computed.
    pub fn peek_typechecked_module(&self, key: &str) -> (r: Option<TypecheckValue>)
        ensures
            match r {
                Some(v) => Some(v@),
                None => None,
            } == self.typechecked_at(key@),
    {
        match self.typechecked.get(key) {
            Some(v) => Some(v.duplicate()),
            None => None,
        }
    }

    /// The optimized core expression of the module `key`, where that is
    /// computed.
    pub fn peek_core_expr(&self, key: &str) -> (r: Option<
        crate::ir::interpreter::Global<CoreExpr>,
    >)
        ensures
            match r {
                Some(v) => Some(v@),
                None => None,
            } == self.core_expr_at(key@),
    {
        match self.core_exprs.get(key) {
            Some(v) => Some(v.duplicate()),
            None => None,
        }
    }

    /// The global of the module `key`, where that is computed, rooted
    /// in the thread of the database.
    pub fn peek_global(&self, key: &str) -> (r: Option<DatabaseGlobal>)
        requires
            self.thread is Some,
        ensures
            match r {
                Some(g) => Some(g@.global),
                None => None,
            } == self.global_at(key@),
            r matches Some(g) ==> Some(g@.thread) == self.thread,
    {
        match self.globals.get(key) {
            Some(g) => Some(root_global_with(g.duplicate(), self.thread())),
            None => None,
        }
    }

    /// The global `name` that the host has set, where it has set one,
    /// rooted in the thread of the database.
    pub fn get_extern_global(&self, name: &str) -> (r: Option<DatabaseGlobal>)
        requires
            self.thread is Some,
        ensures
            match r {
                Some(g) => Some(g@.global),
                None => None,
            } == self.extern_global_at(name@),
            r matches Some(g) ==> Some(g@.thread) == self.thread,
    {
        if self.state.is_extern_global(name) {
            match self.extern_values.get(name) {
                Some(g) => Some(root_global_with(g.duplicate(), self.thread())),
                None => None,
            }
        } else {
            None
        }
    }

    /// Records what the typechecker has found out about a module.
    pub fn set_typechecked_module(&mut self, key: String, value: TypecheckValue)
        ensures
            final(self).typechecked@ == old(self).typechecked@.insert(key@, value),
            final(self).state == old(self).state,
            final(self).thread == old(self).thread,
            final(self).settings == old(self).settings,
            final(self).core_exprs == old(self).core_exprs,
            final(self).globals == old(self).globals,
            final(self).extern_values == old(self).extern_values,
            final(self).type_infos == old(self).type_infos,
    {
        self.typechecked.insert(key, value);
    }

    /// Records the optimized core expression of a module.
    pub fn set_core_expr(&mut self, key: String, value: crate::ir::interpreter::Global<CoreExpr>)
        ensures
            final(self).core_exprs@ == old(self).core_exprs@.insert(key@, value),
            final(self).state == old(self).state,
            final(self).thread == old(self).thread,
            final(self).settings == old(self).settings,
            final(self).typechecked == old(self).typechecked,
            final(self).globals == old(self).globals,
            final(self).extern_values == old(self).extern_values,
            final(self).type_infos == old(self).type_infos,
    {
        self.core_exprs.insert(key, value);
    }

    /// Records the global of a module. The cache takes the global
    /// without a root.
    pub fn set_module_global(&mut self, key: String, global: UnrootedGlobal)
        ensures
            final(self).globals@ == old(self).globals@.insert(key@, global),
            final(self).state == old(self).state,
            final(self).thread == old(self).thread,
            final(self).settings == old(self).settings,
            final(self).typechecked == old(self).typechecked,
            final(self).core_exprs == old(self).core_exprs,
            final(self).extern_values == old(self).extern_values,
            final(self).type_infos == old(self).type_infos,
    {
        self.globals.insert(key, global);
    }

    /// Records an alias that the machine knows.
    pub fn set_type_info(&mut self, id: String, alias: Arc<Alias>)
        ensures
            final(self).type_infos@ == old(self).type_infos@.insert(id@, alias),
            final(self).state == old(self).state,
            final(self).thread == old(self).thread,
            final(self).settings == old(self).settings,
            final(self).typechecked == old(self).typechecked,
            final(self).core_exprs == old(self).core_exprs,
            final(self).globals == old(self).globals,
            final(self).extern_values == old(self).extern_values,
    {
        self.type_infos.insert(id, alias);
    }

    /// Sets the global `name` from the host: a copy of `value` that
    /// shares nothing with it is kept, without a root, under the
    /// resolved symbol of `name`.
    pub fn set_global(&mut self, name: &str, typ: ArcType, metadata: Arc<Metadata>, value: &Value)
        requires
            old(self).thread is Some,
        ensures
            final(self).extern_global_at(name@) == Some(
                GlobalView {
                    id: resolved_name(name@),
                    typ: typ@,
                    metadata: metadata@,
                    value: value@,
                },
            ),
            forall|k: Seq<char>| k != name@ ==> final(self).extern_global_at(k) == old(self).extern_global_at(k),
            final(self).globals == old(self).globals,
            final(self).thread == old(self).thread,
            final(self).settings == old(self).settings,
            final(self).typechecked == old(self).typechecked,
            final(self).core_exprs == old(self).core_exprs,
            final(self).type_infos == old(self).type_infos,
            final(self).state.inline_modules == old(self).state.inline_modules,
            final(self).state.code_map == old(self).state.code_map,
            final(self).state.index_map == old(self).state.index_map,
    {
        let thread = self.thread();
        let rooted = RootedValue::new(thread, value);
        let id = resolved_symbol(name);
        let global = Global { id, typ, metadata, value: rooted.unroot() };
        self.state.add_extern_global(name);
        self.extern_values.insert(name.to_owned(), global);
    }

    /// The alias that the machine knows under the name `id`.
    pub fn type_info(&self, id: &str) -> (r: Option<Arc<Alias>>)
        ensures
            match r {
                Some(a) => Some(a@),
                None => None,
            } == self.type_info_at(id@),
    {
        match self.type_infos.get(id) {
            Some(a) => Some(share(a)),
            None => None,
        }
    }

    /// The global that the path `name` starts at, with what is left of
    /// the path behind its name. The marks of resolution in front of the
    /// path are not part of it. The longest start of the path that names
    /// a global decides, whether the host has set the global or a module
    /// has evaluated to it.
    pub fn get_scoped_global(&self, name: &str) -> (r: Option<(String, DatabaseGlobal)>)
        requires
            self.thread is Some,
        ensures
            match self.scoped_global(definition_name(name@)) {
                Some((module, g)) => r matches Some((rest, global)) && rest@ == remaining_fields(
                    definition_name(name@),
                    module,
                ) && global@.global == g && Some(global@.thread) == self.thread,
                None => r is None,
            },
    {
        let path = trim_start_matches(name, CharClass::only('@'));
        let mut module = path;
        loop
            invariant
                self.thread is Some,
                path@ == definition_name(name@),
                self.scoped_global(definition_name(name@)) == self.scoped_global(module@),
            decreases module@.len(),
        {
            if module.unicode_len() == 0 {
                return None;
            }
            let found = match self.get_extern_global(module) {
                Some(g) => Some(g),
                None => self.peek_global(module),
            };
            match found {
                Some(global) => {
                    let n = path.unicode_len();
                    let m = module.unicode_len();
                    let offset = if n <= m {
                        n
                    } else {
                        m + 1
                    };
                    let rest = path.substring_char(offset, n);
                    assert(rest@ =~= remaining_fields(path@, module@));
                    return Some((rest.to_owned(), global));
                },
                None => {
                    proof {
                        lemma_module_is_shorter(module@);
                    }
                    module = module_of(module);
                },
            }
        }
    }

    /// What the path `name` leads to: the first part of it that is the
    /// name of a global is looked up, the longest first, and every
    /// further part names a field of the record that the path has led
    /// to so far.
    pub open spec fn binding_at(&self, name: Seq<char>) -> Option<Found> {
        match self.scoped_global(definition_name(name)) {
            Some((module, g)) => Some(
                walk_fields(
                    g.typ,
                    g.value,
                    name_components(remaining_fields(definition_name(name), module)),
                    0,
                ),
            ),
            None => None,
        }
    }

    /// A path whose longest start that names a global is the name of a
    /// global that the host has set leads into that global: the rest of
    /// the path is walked through its fields.
    pub proof fn lemma_path_into_host_global(&self, path: Seq<char>, g: GlobalView)
        requires
            path.len() > 0,
            definition_name(path) == path,
            self.global_for(path) is None,
            name_module(path).len() > 0,
            self.extern_global_at(name_module(path)) == Some(g),
        ensures
            self.binding_at(path) == Some(
                walk_fields(
                    g.typ,
                    g.value,
                    name_components(remaining_fields(path, name_module(path))),
                    0,
                ),
            ),
    {
        let module = name_module(path);
        assert(self.scoped_global(path) == self.scoped_global(module));
        assert(self.global_for(module) == Some(g));
        assert(self.scoped_global(module) == Some((module, g)));
    }

    /// Whether the path `name` can be followed: it does not lead through
    /// a value that lacks a field which its type has.
    pub open spec fn well_shaped(&self, name: Seq<char>) -> bool {
        self.binding_at(name) != Some(Found::Misshapen)
    }

    /// The value and the type that the path `name` leads to, or nothing
    /// where the path leads through a value that lacks a field which its
    /// type has. The value is rooted in the thread of the database.
    pub fn try_get_binding(&self, name: &str) -> (r: Option<Result<(RootedValue, ArcType)>>)
        requires
            self.thread is Some,
        ensures
            match self.binding_at(name@) {
                None => r matches Some(Err(e)) && e@ == ErrorView::UndefinedBinding(name@),
                Some(Found::Binding(value, typ)) => r matches Some(Ok((v, t))) && v@.value == value
                    && t@ == typ && Some(v@.thread) == self.thread,
                Some(Found::UndefinedField(typ, field)) => r matches Some(Err(e)) && e@
                    == ErrorView::UndefinedField(typ, field),
                Some(Found::OperatorNotAField(field)) => r matches Some(Err(e)) && e@
                    == ErrorView::OperatorNotAField(field),
                Some(Found::Misshapen) => r is None,
            },
    {
        let (remaining_fields, global) = match self.get_scoped_global(name) {
            Some(found) => found,
            None => {
                return Some(Err(Error::UndefinedBinding(name.to_owned())));
            },
        };
        let parts = components(remaining_fields.as_str());
        let ghost names = name_components(remaining_fields@);
        let ghost goal = walk_fields(global@.global.typ, global@.global.value, names, 0);
        let thread = self.thread();
        let Global { id: _, typ: global_typ, metadata: _, value: rooted } = global;
        let mut typ = global_typ;
        let mut value: &Value = rooted.get_value();
        let mut i: usize = 0;
        while i < parts.len()
            invariant
                i <= parts@.len(),
                parts@.len() == names.len(),
                forall|j: int| 0 <= j < parts@.len() ==> (#[trigger] parts@[j])@ == names[j],
                goal == walk_fields(typ@, value@, names, i as int),
                self.binding_at(name@) == Some(goal),
                Some(thread) == self.thread,
            decreases parts.len() - i,
        {
            let raw = parts[i].as_str();
            let n = raw.unicode_len();
            let field_name: &str = if starts_with_char(raw, '(') && ends_with_char(raw, ')') {
                raw.substring_char(1, n - 1)
            } else if contains_operator_char(raw) {
                return Some(Err(Error::OperatorNotAField(raw.to_owned())));
            } else {
                raw
            };
            assert(field_segment(raw@) == Some(field_name@));
            let record = remove_aliases(&typ);
            proof {
                lemma_field_index_bounds(row_fields(record@), field_name@, 0);
            }
            match (*record).find_field(field_name) {
                Some(index) => {
                    let fields = match (*record).record_fields() {
                        Some(fields) => fields,
                        None => {
                            // A field that was found is a field of a record.
                            proof {
                                assert(false);
                            }
                            return None;
                        },
                    };
                    let next = match value.get_variant(index) {
                        Some(v) => v,
                        None => {
                            return None;
                        },
                    };
                    value = next;
                    typ = share(&fields[index].typ);
                },
                None => {
                    return Some(Err(Error::UndefinedField(record, field_name.to_owned())));
                },
            }
            i += 1;
        }
        Some(Ok((RootedValue::new(thread, value), typ)))
    }

    /// The value and the type that the path `name` leads to. The value
    /// is rooted in the thread of the database. The path must not lead
    /// through a value that lacks a field which its type has.
    pub fn get_binding(&self, name: &str) -> (r: Result<(RootedValue, ArcType)>)
        requires
            self.thread is Some,
            self.well_shaped(name@),
        ensures
            match self.binding_at(name@) {
                None => r matches Err(e) && e@ == ErrorView::UndefinedBinding(name@),
                Some(Found::Binding(value, typ)) => r matches Ok((v, t)) && v@.value == value && t@
                    == typ && Some(v@.thread) == self.thread,
                Some(Found::UndefinedField(typ, field)) => r matches Err(e) && e@
                    == ErrorView::UndefinedField(typ, field),
                Some(Found::OperatorNotAField(field)) => r matches Err(e) && e@
                    == ErrorView::OperatorNotAField(field),
                Some(Found::Misshapen) => false,
            },
    {
        match self.try_get_binding(name) {
            Some(r) => r,
            None => {
                proof {
                    assert(false);
                }
                Err(Error::UndefinedBinding(name.to_owned()))
            },
        }
    }

    /// What the path `name` leads to as the name of a type: the path
    /// without its last part leads to a binding, and the last part names
    /// a type field of the type of that binding.
    pub open spec fn type_info_found(&self, name: Seq<char>) -> Option<
        core::result::Result<AliasView, ErrorView>,
    > {
        match self.binding_at(name_module(name)) {
            None => Some(Err(ErrorView::UndefinedBinding(name_module(name)))),
            Some(Found::Binding(_, typ)) => match type_field_alias(
                type_fields(typ),
                name_last(name),
                0,
            ) {
                Some(alias) => Some(Ok(alias)),
                None => Some(Err(ErrorView::UndefinedField(typ, name_last(name)))),
            },
            Some(Found::UndefinedField(typ, field)) => Some(
                Err(ErrorView::UndefinedField(typ, field)),
            ),
            Some(Found::OperatorNotAField(field)) => Some(Err(ErrorView::OperatorNotAField(field))),
            Some(Found::Misshapen) => None,
        }
    }

    /// The alias that the path `name` leads to, or nothing where the
    /// path without its last part leads through a value that lacks a
    /// field which its type has.
    pub fn try_find_type_info(&self, name: &str) -> (r: Option<Result<Arc<Alias>>>)
        requires
            self.thread is Some,
        ensures
            match self.type_info_found(name@) {
                Some(Ok(alias)) => r matches Some(Ok(a)) && a@ == alias,
                Some(Err(error)) => r matches Some(Err(e)) && e@ == error,
                None => r is None,
            },
    {
        let (_, typ) = match self.try_get_binding(module_of(name)) {
            Some(Ok(found)) => found,
            Some(Err(e)) => {
                return Some(Err(e));
            },
            None => {
                return None;
            },
        };
        let field_name = last_of(name);
        match (*typ).find_type_field(field_name) {
            Some(alias) => Some(Ok(alias)),
            None => Some(Err(Error::UndefinedField(typ, field_name.to_owned()))),
        }
    }

    /// The alias that the path `name` leads to: the path without its
    /// last part leads to a binding, and the last part names a type
    /// field of the type of that binding. That part of the path must not
    /// lead through a value that lacks a field which its type has.
    pub fn find_type_info(&self, name: &str) -> (r: Result<Arc<Alias>>)
        requires
            self.thread is Some,
            self.well_shaped(name_module(name@)),
        ensures
            match self.type_info_found(name@) {
                Some(Ok(alias)) => r matches Ok(a) && a@ == alias,
                Some(Err(error)) => r matches Err(e) && e@ == error,
                None => false,
            },
    {
        match self.try_find_type_info(name) {
            Some(r) => r,
            None => {
                proof {
                    assert(false);
                }
                Err(Error::UndefinedBinding(name.to_owned()))
            },
        }
    }

    /// The metadata that the path `name` leads to.
    pub open spec fn metadata_at(&self, name: Seq<char>) -> Option<MetadataView> {
        match self.scoped_global(definition_name(name)) {
            Some((module, g)) => walk_metadata(
                g.metadata,
                name_components(remaining_fields(definition_name(name), module)),
                0,
            ),
            None => None,
        }
    }

    fn get_metadata_(&self, name: &str) -> (r: Option<Arc<Metadata>>)
        requires
            self.thread is Some,
        ensures
            match r {
                Some(m) => Some(m@),
                None => None,
            } == self.metadata_at(name@),
    {
        let (remaining, global) = match self.get_scoped_global(name) {
            Some(found) => found,
            None => {
                return None;
            },
        };
        let parts = components(remaining.as_str());
        let ghost names = name_components(remaining@);
        let ghost goal = walk_metadata(global@.global.metadata, names, 0);
        let mut metadata = share(&global.metadata);
        let mut i: usize = 0;
        while i < parts.len()
            invariant
                i <= parts@.len(),
                parts@.len() == names.len(),
                forall|j: int| 0 <= j < parts@.len() ==> (#[trigger] parts@[j])@ == names[j],
                goal == walk_metadata(metadata@, names, i as int),
                self.metadata_at(name@) == goal,
            decreases parts.len() - i,
        {
            metadata = match (*metadata).get(parts[i].as_str()) {
                Some(m) => m,
                None => {
                    return None;
                },
            };
            i += 1;
        }
        Some(metadata)
    }

    /// The metadata of what the path `name` leads to: the metadata of
    /// the global that the path starts at and, for every further part,
    /// that of the field of that name.
    pub fn get_metadata(&self, name: &str) -> (r: Result<Arc<Metadata>>)
        requires
            self.thread is Some,
        ensures
            match self.metadata_at(name@) {
                Some(m) => r matches Ok(found) && found@ == m,
                None => r matches Err(e) && e@ == ErrorView::MetadataDoesNotExist(name@),
            },
    {
        match self.get_metadata_(name) {
            Some(m) => Ok(m),
            None => Err(Error::MetadataDoesNotExist(name.to_owned())),
        }
    }

    /// Discards the results that are needed no longer once the global of
    /// a module exists: what the typechecker has found out and the core
    /// expressions. The globals stay.
    pub fn collect_garbage(&mut self)
        ensures
            forall|k: Seq<char>|
                final(self).typechecked_at(k) is None && final(self).core_expr_at(k) is None,
            final(self).state == old(self).state,
            final(self).thread == old(self).thread,
            final(self).settings == old(self).settings,
            final(self).globals == old(self).globals,
            final(self).extern_values == old(self).extern_values,
            final(self).type_infos == old(self).type_infos,
    {
        self.typechecked.clear();
        self.core_exprs.clear();
    }
}

/// How cached results are evicted.
#[derive(Clone, Copy, Debug, PartialEq, Eq, Structural)]
pub struct SweepStrategy {
    /// The values go; what a result depends on is kept.
    pub discard_values: bool,
    /// Results of the current revision go too.
    pub all_revisions: bool,
}

/// The queries whose results are intermediate.
#[derive(Clone, Copy, Debug, PartialEq, Eq, Structural)]
pub enum Query {
    ModuleText,
    TypecheckedModule,
    CoreExpr,
    CompiledModule,
}

/// How the engine is swept once the global of a module exists: the
/// values of all revisions are discarded.
pub fn garbage_strategy() -> (r: SweepStrategy)
    ensures
        r == (SweepStrategy { discard_values: true, all_revisions: true }),
{
    SweepStrategy { discard_values: true, all_revisions: true }
}

/// The queries that are swept once the global of a module exists, in
/// order: the text, the typecheck, the core expression and the
/// bytecode. The globals are not swept.
pub fn garbage_queries() -> (r: Vec<Query>)
    ensures
        r@ == seq![
            Query::ModuleText,
            Query::TypecheckedModule,
            Query::CoreExpr,
            Query::CompiledModule,
        ],
{
    let mut queries: Vec<Query> = Vec::new();
    queries.push(Query::ModuleText);
    queries.push(Query::TypecheckedModule);
    queries.push(Query::CoreExpr);
    queries.push(Query::CompiledModule);
    assert(queries@ =~= seq![
        Query::ModuleText,
        Query::TypecheckedModule,
        Query::CoreExpr,
        Query::CompiledModule,
    ]);
    queries
}

/// A database as the phases outside the query graph reach it: they may
/// add text and look at what is computed, and never compute.
pub trait CompilationBase {
    /// The database.
    spec fn database(&self) -> CompilerDatabase;

    fn compiler(&self) -> (r: &CompilerDatabase)
        ensures
            *r == self.database(),
    ;

    fn thread(&self) -> (r: Thread)
        requires
            self.database().thread is Some,
        ensures
            Some(r) == self.database().thread,
    ;

    fn add_module(&mut self, module: String, contents: &str) -> (r:
        crate::query::state::TextChange)
        ensures
            (final(self).database().state.inline_texts(), r) == crate::query::state::text_update(
                old(self).database().state.inline_texts(),
                module@,
                contents@,
            ),
            r == crate::query::state::TextChange::Unchanged ==> final(self).database() == old(self).database(),
            r != crate::query::state::TextChange::Unchanged ==> old(self).database().state.filed(
                final(self).database().state,
                module@,
                contents@,
            ),
            old(self).database().state.wf() && crate::query::filemap::next_start(
                old(self).database().state.files(),
            ) + crate::query::filemap::byte_len(contents@) <= u32::MAX ==> final(self).database().state.wf(),
            final(self).database().state.extern_globals == old(self).database().state.extern_globals,
            final(self).database().thread == old(self).database().thread,
            final(self).database().settings == old(self).database().settings,
            final(self).database().typechecked == old(self).database().typechecked,
            final(self).database().core_exprs == old(self).database().core_exprs,
            final(self).database().globals == old(self).database().globals,
            final(self).database().extern_values == old(self).database().extern_values,
            final(self).database().type_infos == old(self).database().type_infos,
    ;

    fn peek_typechecked_module(&self, key: &str) -> (r: Option<TypecheckValue>)
        ensures
            match r {
                Some(v) => Some(v@),
                None => None,
            } == self.database().typechecked_at(key@),
    ;

    fn peek_core_expr(&self, key: &str) -> (r: Option<crate::ir::interpreter::Global<CoreExpr>>)
        ensures
            match r {
                Some(v) => Some(v@),
                None => None,
            } == self.database().core_expr_at(key@),
    ;

    fn peek_global(&self, key: &str) -> (r: Option<DatabaseGlobal>)
        requires
            self.database().thread is Some,
        ensures
            match r {
                Some(g) => Some(g@.global),
                None => None,
            } == self.database().global_at(key@),
            r matches Some(g) ==> Some(g@.thread) == self.database().thread,
    ;
}

impl CompilationBase for CompilerDatabase {
    open spec fn database(&self) -> CompilerDatabase {
        *self
    }

    fn compiler(&self) -> (r: &CompilerDatabase) {
        self
    }

    fn thread(&self) -> (r: Thread) {
        CompilerDatabase::thread(self)
    }

    fn add_module(&mut self, module: String, contents: &str) -> (r:
        crate::query::state::TextChange) {
        CompilerDatabase::add_module(self, module, contents)
    }

    fn peek_typechecked_module(&self, key: &str) -> (r: Option<TypecheckValue>) {
        CompilerDatabase::peek_typechecked_module(self, key)
    }

    fn peek_core_expr(&self, key: &str) -> (r: Option<crate::ir::interpreter::Global<CoreExpr>>) {
        CompilerDatabase::peek_core_expr(self, key)
    }

    fn peek_global(&self, key: &str) -> (r: Option<DatabaseGlobal>) {
        CompilerDatabase::peek_global(self, key)
    }
}

} // verus!
