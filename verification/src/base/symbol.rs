//! Symbols and dotted module names.
//!
//! A leading `@` marks a symbol as fully resolved: the name of a module's
//! global as generated code refers to it. The bare form is the one used
//! as a query key.

use vstd::prelude::*;
use vstd::string::*;
use crate::base::strings::{
    after_last, count_leading, count_trailing, first_index, lemma_leading_bound,
    lemma_trailing_bound, starts_with_char, trim_end, trim_end_matches, trim_start,
    trim_start_matches, CharClass,
};

verus! {

/// An identifier of the intermediate representation.
#[derive(Debug, PartialEq, Eq, Hash)]
pub struct Symbol {
    pub name: String,
}

impl View for Symbol {
    type V = Seq<char>;

    open spec fn view(&self) -> Seq<char> {
        self.name@
    }
}

/// Whether a name is that of a fully resolved symbol.
pub open spec fn is_global_name(s: Seq<char>) -> bool {
    s.len() > 0 && s[0] == '@'
}

/// A name without the marks of resolution in front of it.
pub open spec fn definition_name(s: Seq<char>) -> Seq<char> {
    trim_start(s, CharClass { ch: '@', negated: false })
}

/// The resolved form of a module's name.
pub open spec fn resolved_name(s: Seq<char>) -> Seq<char> {
    seq!['@'] + s
}

/// The module part of a dotted name: what stands before its last dot,
/// without the dots that end it. Empty where the name has no dot.
pub open spec fn name_module(s: Seq<char>) -> Seq<char> {
    trim_end(
        trim_end(s, CharClass { ch: '.', negated: true }),
        CharClass { ch: '.', negated: false },
    )
}

/// The last part of a dotted name: what stands after its last dot, or
/// the whole name where it has no dot.
pub open spec fn name_last(s: Seq<char>) -> Seq<char> {
    s.skip(s.len() - after_last(s, '.'))
}

/// The parts of a dotted name, in order. A name that ends in a dot has no
/// empty part after it; the empty name has no parts.
pub open spec fn name_components(s: Seq<char>) -> Seq<Seq<char>>
    decreases s.len(),
{
    if s.len() == 0 {
        Seq::empty()
    } else {
        let i = first_index(s, '.');
        if i < s.len() {
            seq![s.take(i as int)] + name_components(s.skip(i as int + 1))
        } else {
            seq![s]
        }
    }
}

impl Symbol {
    pub fn from(name: &str) -> (r: Symbol)
        ensures
            r@ == name@,
    {
        Symbol { name: name.to_owned() }
    }

    pub fn as_str(&self) -> (r: &str)
        ensures
            r@ == self@,
    {
        self.name.as_str()
    }

    /// Whether this is the resolved name of a module's global.
    pub fn is_global(&self) -> (r: bool)
        ensures
            r == is_global_name(self@),
    {
        starts_with_char(self.name.as_str(), '@')
    }

    /// The name under which the symbol's definition is looked up.
    pub fn definition_name(&self) -> (r: &str)
        ensures
            r@ == definition_name(self@),
    {
        trim_start_matches(self.name.as_str(), CharClass::only('@'))
    }

    /// Whether two symbols were declared under the same name.
    pub fn name_eq(&self, other: &Symbol) -> (r: bool)
        ensures
            r == (self@ == other@),
    {
        self.name == other.name
    }

    pub fn duplicate(&self) -> (r: Symbol)
        ensures
            r == *self,
    {
        Symbol { name: self.name.clone() }
    }
}

impl Clone for Symbol {
    fn clone(&self) -> (r: Symbol)
        ensures
            r == *self,
    {
        self.duplicate()
    }
}

/// The resolved symbol of the module `name`.
pub fn resolved_symbol(name: &str) -> (r: Symbol)
    ensures
        r@ == resolved_name(name@),
{
    proof {
        reveal_strlit("@");
    }
    let r = String::from_str("@").concat(name);
    assert(r@ =~= resolved_name(name@));
    Symbol { name: r }
}

/// The module part of a dotted name.
pub fn module_of<'a>(name: &'a str) -> (r: &'a str)
    ensures
        r@ == name_module(name@),
{
    trim_end_matches(trim_end_matches(name, CharClass::all_but('.')), CharClass::only('.'))
}

/// The last part of a dotted name.
pub fn last_of<'a>(name: &'a str) -> (r: &'a str)
    ensures
        r@ == name_last(name@),
{
    let n = name.unicode_len();
    let k = count_trailing(name, CharClass::all_but('.'));
    proof {
        lemma_trailing_bound(name@, CharClass { ch: '.', negated: true });
    }
    let r = name.substring_char(n - k, n);
    assert(r@ =~= name_last(name@));
    r
}

/// The parts of a dotted name, in order.
pub fn components(name: &str) -> (r: Vec<String>)
    ensures
        r@.len() == name_components(name@).len(),
        forall|i: int| 0 <= i < r@.len() ==> (#[trigger] r@[i])@ == name_components(name@)[i],
{
    let mut out: Vec<String> = Vec::new();
    let mut rest = name;
    let ghost mut done: Seq<Seq<char>> = Seq::empty();
    loop
        invariant
            out@.len() == done.len(),
            forall|i: int| 0 <= i < out@.len() ==> (#[trigger] out@[i])@ == done[i],
            name_components(name@) == done + name_components(rest@),
        decreases rest@.len(),
    {
        let n = rest.unicode_len();
        if n == 0 {
            assert(done + name_components(rest@) =~= done);
            return out;
        }
        let i = count_leading(rest, CharClass::all_but('.'));
        proof {
            lemma_leading_bound(rest@, CharClass { ch: '.', negated: true });
        }
        if i < n {
            let part = rest.substring_char(0, i);
            let tail = rest.substring_char(i + 1, n);
            proof {
                assert(part@ =~= rest@.take(i as int));
                assert(tail@ =~= rest@.skip(i + 1));
                assert(done + name_components(rest@) =~= done.push(part@) + name_components(
                    tail@,
                ));
                done = done.push(part@);
            }
            out.push(part.to_owned());
            rest = tail;
        } else {
            proof {
                assert(done + name_components(rest@) =~= done.push(rest@));
            }
            out.push(rest.to_owned());
            return out;
        }
    }
}

} // verus!
