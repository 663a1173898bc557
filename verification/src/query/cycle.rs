//! Recovery from a cycle in the query graph.
//!
//! The engine hands the participants of a cycle to the recovery as the
//! keys of their queries, each written as the name of the query and, in
//! round brackets, its argument as the debug formatter writes it: for
//! the import of the module `a`, `import("a")`.

use vstd::prelude::*;
use vstd::string::*;
use crate::base::strings::{
    strings_view,
    contains,
    contains_text,
    lemma_leading_is,
    lemma_trailing_is,
    occurs_at,
    trim,
    trim_matches,
    trim_start,
    trim_start_matches,
    CharClass,
};
use crate::query::error::Error;

verus! {

/// The module that the key of a query names: what stands between the
/// outermost quotation marks of the key, without the marks of
/// resolution in front of it.
pub open spec fn participant(key: Seq<char>) -> Seq<char> {
    trim_start(
        trim(trim(key, CharClass { ch: '"', negated: true }), CharClass { ch: '"', negated: false }),
        CharClass { ch: '@', negated: false },
    )
}

/// Whether the key of a query is that of an import.
pub open spec fn is_import_key(key: Seq<char>) -> bool {
    contains_text(key, "import"@)
}

/// The modules of the imports among the keys of a cycle, from index
/// `from` on, in the order of the cycle.
pub open spec fn participants(cycle: Seq<Seq<char>>, from: int) -> Seq<Seq<char>>
    decreases cycle.len() - from,
{
    if 0 <= from < cycle.len() {
        if is_import_key(cycle[from]) {
            seq![participant(cycle[from])] + participants(cycle, from + 1)
        } else {
            participants(cycle, from + 1)
        }
    } else {
        Seq::empty()
    }
}

/// The key under which the engine lists the import of the module `name`.
pub open spec fn import_key(name: Seq<char>) -> Seq<char> {
    "import(\""@ + name + "\")"@
}

/// Whether a name holds no quotation mark.
pub open spec fn unquoted(name: Seq<char>) -> bool {
    forall|i: int| 0 <= i < name.len() ==> name[i] != '"'
}

/// Whether the name of a module is written into the key of its import
/// as it stands and is read back from it as it stands: it holds no
/// quotation mark and does not begin with the mark of resolution.
pub open spec fn plain_name(name: Seq<char>) -> bool {
    unquoted(name) && (name.len() > 0 ==> name[0] != '@')
}

/// What stands between the quotation marks of the key of an import is
/// read back from it.
proof fn lemma_quoted_part(inner: Seq<char>)
    requires
        unquoted(inner),
    ensures
        is_import_key(import_key(inner)),
        trim(
            trim(import_key(inner), CharClass { ch: '"', negated: true }),
            CharClass { ch: '"', negated: false },
        ) == inner,
{
    reveal_strlit("import(\"");
    reveal_strlit("\")");
    reveal_strlit("import");
    let head = "import(\""@;
    let tail = "\")"@;
    let key = import_key(inner);
    let other = CharClass { ch: '"', negated: true };
    let quote = CharClass { ch: '"', negated: false };
    assert(key.subrange(0, 6) =~= "import"@);
    assert(occurs_at(key, "import"@, 0));
    assert(key.len() == inner.len() + 10);
    assert(key[7] == '"');
    assert(key[key.len() - 2] == '"');
    assert(key[key.len() - 1] == ')');
    lemma_leading_is(key, other, 7);
    let t1 = key.skip(7);
    assert(t1.len() == inner.len() + 3);
    assert(t1[t1.len() - 1] == ')');
    assert(t1[t1.len() - 2] == '"');
    lemma_trailing_is(t1, other, 1);
    let t2 = t1.take(t1.len() - 1);
    assert(trim(key, other) == t2);
    assert(t2.len() == inner.len() + 2);
    assert(t2[0] == '"');
    assert(t2[t2.len() - 1] == '"');
    assert forall|i: int| 0 <= i < inner.len() implies t2[i + 1] == inner[i] by {}
    if inner.len() == 0 {
        lemma_leading_is(t2, quote, 2);
        let t3 = t2.skip(2);
        lemma_trailing_is(t3, quote, 0);
        assert(trim(t2, quote) =~= inner);
    } else {
        assert(t2[1] == inner[0]);
        lemma_leading_is(t2, quote, 1);
        let t3 = t2.skip(1);
        assert(t3.len() == inner.len() + 1);
        assert(t3[t3.len() - 1] == '"');
        assert(t3[t3.len() - 2] == inner[inner.len() - 1]);
        lemma_trailing_is(t3, quote, 1);
        assert(trim(t2, quote) =~= inner);
    }
}

/// The key of the import of a module names that module, whether the
/// import was requested under the module's name or under its resolved
/// name.
pub proof fn lemma_import_key_names_module(name: Seq<char>)
    requires
        plain_name(name),
    ensures
        is_import_key(import_key(name)),
        participant(import_key(name)) == name,
        is_import_key(import_key(crate::base::symbol::resolved_name(name))),
        participant(import_key(crate::base::symbol::resolved_name(name))) == name,
{
    let at = CharClass { ch: '@', negated: false };
    let resolved = crate::base::symbol::resolved_name(name);
    lemma_quoted_part(name);
    lemma_leading_is(name, at, 0);
    assert(trim_start(name, at) =~= name);
    assert(unquoted(resolved)) by {
        assert forall|i: int| 0 <= i < resolved.len() implies resolved[i] != '"' by {
            if i > 0 {
                assert(resolved[i] == name[i - 1]);
            }
        }
    }
    lemma_quoted_part(resolved);
    if name.len() > 0 {
        assert(resolved[1] == name[0]);
    }
    lemma_leading_is(resolved, at, 1);
    assert(trim_start(resolved, at) =~= name);
}

/// A cycle of imports is reported with exactly its modules, in the
/// order of the cycle: where every key of the cycle is the key of the
/// import of a module under its resolved name, the participants are
/// the names of the modules.
pub proof fn lemma_cycle_of_imports(names: Seq<Seq<char>>, from: int)
    requires
        0 <= from <= names.len(),
        forall|i: int| 0 <= i < names.len() ==> plain_name(#[trigger] names[i]),
    ensures
        participants(
            Seq::new(
                names.len(),
                |i: int| import_key(crate::base::symbol::resolved_name(names[i])),
            ),
            from,
        ) == names.skip(from),
    decreases names.len() - from,
{
    let cycle = Seq::new(
        names.len(),
        |i: int| import_key(crate::base::symbol::resolved_name(names[i])),
    );
    if from < names.len() {
        lemma_import_key_names_module(names[from]);
        lemma_cycle_of_imports(names, from + 1);
        assert(seq![names[from]] + names.skip(from + 1) =~= names.skip(from));
    } else {
        assert(names.skip(from) =~= Seq::empty());
    }
}

/// The module that the key of a query names.
pub fn participant_of(key: &str) -> (r: String)
    ensures
        r@ == participant(key@),
{
    trim_start_matches(
        trim_matches(trim_matches(key, CharClass::all_but('"')), CharClass::only('"')),
        CharClass::only('@'),
    ).to_owned()
}

/// The error for the module `module`, requested while it was being
/// computed: a cyclic dependency whose participants are the modules of
/// the imports among the keys of `cycle`, in order.
pub fn cyclic_dependency(cycle: &Vec<String>, module: &String) -> (r: Error)
    ensures
        r matches Error::CyclicDependency { requested, participants: p } && requested@ == module@
            && strings_view(p@) == participants(strings_view(cycle@), 0),
{
    let ghost keys = strings_view(cycle@);
    let mut out: Vec<String> = Vec::new();
    let mut i: usize = 0;
    assert(strings_view(out@) + participants(keys, 0) =~= participants(keys, 0));
    while i < cycle.len()
        invariant
            i <= cycle.len(),
            keys == strings_view(cycle@),
            participants(keys, 0) == strings_view(out@) + participants(keys, i as int),
        decreases cycle.len() - i,
    {
        let key = &cycle[i];
        assert(keys[i as int] == key@);
        let ghost done = strings_view(out@);
        if contains(key.as_str(), "import") {
            let name = participant_of(key.as_str());
            out.push(name);
            assert(strings_view(out@) =~= done.push(participant(key@)));
            assert(done + (seq![participant(key@)] + participants(keys, i + 1)) =~= done.push(
                participant(key@),
            ) + participants(keys, i + 1));
        }
        i += 1;
    }
    assert(strings_view(out@) + participants(keys, i as int) =~= strings_view(out@));
    Error::CyclicDependency { requested: module.clone(), participants: out }
}

/// Recovers a query from a cycle: the query fails with the cyclic
/// dependency of `module`.
pub fn recover_cycle<T>(cycle: &Vec<String>, module: &String) -> (r: Result<T, Error>)
    ensures
        r matches Err(Error::CyclicDependency { requested, participants: p }) && requested@
            == module@ && strings_view(p@) == participants(strings_view(cycle@), 0),
{
    Err(cyclic_dependency(cycle, module))
}

/// Recovers a query that takes an expected type from a cycle.
pub fn recover_cycle_expected_type<T>(cycle: &Vec<String>, module: &String) -> (r: Result<
    T,
    Error,
>)
    ensures
        r matches Err(Error::CyclicDependency { requested, participants: p }) && requested@
            == module@ && strings_view(p@) == participants(strings_view(cycle@), 0),
{
    recover_cycle(cycle, module)
}

/// Recovers the typecheck query from a cycle: it fails with the cyclic
/// dependency of `module` and without a partial result.
pub fn recover_cycle_typecheck<T>(cycle: &Vec<String>, module: &String) -> (r: Result<
    T,
    (Option<T>, Error),
>)
    ensures
        r matches Err((None, Error::CyclicDependency { requested, participants: p }))
            && requested@ == module@ && strings_view(p@) == participants(
            strings_view(cycle@),
            0,
        ),
{
    Err((None, cyclic_dependency(cycle, module)))
}

} // verus!
