//! Values of the virtual machine as the database holds them, and the
//! two states of a value with respect to the machine's collector.
//!
//! A rooted value is pinned by a thread of the machine, which keeps it
//! reachable. An unrooted value is plain data: it takes no part in
//! reachability, can be kept in a cache, and must be rooted before use.
//! The two are types of their own, and the only ways from one to the
//! other are `root_with` and `unroot`.

use vstd::prelude::*;
use std::sync::Arc;
use crate::base::shared::share;
use crate::base::strings::str_eq;
use crate::base::symbol::Symbol;
use crate::base::types::{type_view, ArcType, TypeView};

verus! {

/// A thread of the virtual machine, by its number.
#[derive(Clone, Copy, Debug, PartialEq, Eq, Structural)]
pub struct Thread {
    pub id: u64,
}

/// A value of the virtual machine.
#[derive(Debug, PartialEq, Eq)]
pub enum Value {
    Int(i64),
    Byte(u8),
    String(String),
    /// A constructed value: the tag of its constructor and its fields.
    Data(u32, Vec<Value>),
    /// A function, by the symbol of its definition.
    Function(Symbol),
}

/// A value as the contracts speak of it.
pub ghost enum ValueView {
    Int(i64),
    Byte(u8),
    String(Seq<char>),
    Data(u32, Seq<ValueView>),
    Function(Seq<char>),
}

pub open spec fn value_view(v: Value) -> ValueView
    decreases v,
{
    match v {
        Value::Int(i) => ValueView::Int(i),
        Value::Byte(b) => ValueView::Byte(b),
        Value::String(s) => ValueView::String(s@),
        Value::Data(tag, fields) => ValueView::Data(tag, values_view(fields@)),
        Value::Function(s) => ValueView::Function(s@),
    }
}

pub open spec fn values_view(s: Seq<Value>) -> Seq<ValueView>
    decreases s,
{
    Seq::new(
        s.len(),
        |i: int|
            if 0 <= i < s.len() {
                value_view(s[i])
            } else {
                arbitrary()
            },
    )
}

impl View for Value {
    type V = ValueView;

    open spec fn view(&self) -> ValueView {
        value_view(*self)
    }
}

impl Value {
    /// A copy of the value that shares nothing with it.
    pub fn deep_clone(&self) -> (r: Value)
        ensures
            r@ == self@,
        decreases self, 0int,
    {
        match self {
            Value::Int(i) => Value::Int(*i),
            Value::Byte(b) => Value::Byte(*b),
            Value::String(s) => Value::String(s.clone()),
            Value::Data(tag, fields) => Value::Data(*tag, deep_clone_all(fields)),
            Value::Function(s) => Value::Function(s.duplicate()),
        }
    }

    /// The field of a constructed value at `index`.
    pub fn get_variant(&self, index: usize) -> (r: Option<&Value>)
        ensures
            match r {
                Some(v) => self@ matches ValueView::Data(_, fields) && index < fields.len()
                    && v@ == fields[index as int],
                None => !(self@ matches ValueView::Data(_, fields) && index < fields.len()),
            },
    {
        match self {
            Value::Data(_, fields) => {
                if index < fields.len() {
                    Some(&fields[index])
                } else {
                    None
                }
            },
            _ => None,
        }
    }
}

impl Clone for Value {
    fn clone(&self) -> (r: Value)
        ensures
            r@ == self@,
    {
        self.deep_clone()
    }
}

fn deep_clone_all(values: &Vec<Value>) -> (r: Vec<Value>)
    ensures
        values_view(r@) == values_view(values@),
    decreases values, 1int,
{
    let mut out: Vec<Value> = Vec::new();
    let mut i: usize = 0;
    while i < values.len()
        invariant
            i <= values.len(),
            out@.len() == i,
            forall|j: int| 0 <= j < i ==> (#[trigger] out@[j])@ == values@[j]@,
        decreases values.len() - i,
    {
        out.push(values[i].deep_clone());
        i += 1;
    }
    assert(values_view(out@) =~= values_view(values@));
    out
}

/// A value that a thread of the machine keeps reachable.
#[derive(Clone, Debug, PartialEq, Eq)]
pub struct RootedValue {
    vm: Thread,
    value: Value,
}

/// A value that takes no part in reachability. Nothing can be read from
/// it before it is rooted.
#[derive(Debug)]
pub struct UnrootedValue(Value);

/// A rooted value as the contracts speak of it: the value and the
/// thread that keeps it reachable.
pub ghost struct RootedValueView {
    pub thread: Thread,
    pub value: ValueView,
}

impl View for RootedValue {
    type V = RootedValueView;

    closed spec fn view(&self) -> RootedValueView {
        RootedValueView { thread: self.vm, value: self.value@ }
    }
}

impl View for UnrootedValue {
    type V = ValueView;

    closed spec fn view(&self) -> ValueView {
        self.0@
    }
}

impl RootedValue {
    /// The thread that keeps the value reachable.
    pub open spec fn rooted_in(&self) -> Thread {
        self@.thread
    }

    /// Pins a copy of `value` to the thread `vm`.
    pub fn new(vm: Thread, value: &Value) -> (r: RootedValue)
        ensures
            r@ == (RootedValueView { thread: vm, value: value@ }),
    {
        RootedValue { vm, value: value.deep_clone() }
    }

    pub fn vm(&self) -> (r: Thread)
        ensures
            r == self.rooted_in(),
    {
        self.vm
    }

    /// The value.
    pub fn get_value(&self) -> (r: &Value)
        ensures
            r@ == self@.value,
    {
        &self.value
    }

    /// Gives up the root: the value leaves the reachability of the
    /// thread and becomes plain data.
    pub fn unroot(self) -> (r: UnrootedValue)
        ensures
            r@ == self@.value,
    {
        UnrootedValue(self.value)
    }
}

impl UnrootedValue {
    /// Pins a copy of the value to the thread `vm`.
    pub fn root_with(&self, vm: Thread) -> (r: RootedValue)
        ensures
            r@ == (RootedValueView { thread: vm, value: self@ }),
    {
        RootedValue { vm, value: self.0.deep_clone() }
    }

    pub fn duplicate(&self) -> (r: UnrootedValue)
        ensures
            r@ == self@,
    {
        UnrootedValue(self.0.deep_clone())
    }
}

impl Clone for UnrootedValue {
    fn clone(&self) -> (r: UnrootedValue)
        ensures
            r@ == self@,
    {
        self.duplicate()
    }
}

/// What is known about a binding besides its type: its documentation
/// and, for a module or a record, the same for each of its fields.
#[derive(Clone, Debug, PartialEq, Eq)]
pub struct Metadata {
    pub comment: Option<String>,
    pub module: Vec<(String, Arc<Metadata>)>,
}

pub ghost struct MetadataView {
    pub comment: Option<Seq<char>>,
    pub module: Seq<(Seq<char>, MetadataView)>,
}

pub open spec fn metadata_view(m: Metadata) -> MetadataView
    decreases m,
{
    MetadataView {
        comment: match m.comment {
            Some(c) => Some(c@),
            None => None,
        },
        module: Seq::new(
            m.module.len() as nat,
            |i: int|
                if 0 <= i < m.module.len() {
                    (m.module[i].0@, metadata_view(*m.module[i].1))
                } else {
                    arbitrary()
                },
        ),
    }
}

impl View for Metadata {
    type V = MetadataView;

    open spec fn view(&self) -> MetadataView {
        metadata_view(*self)
    }
}

/// The metadata of the first field named `name`, from index `from` on.
pub open spec fn metadata_field(m: MetadataView, name: Seq<char>, from: int) -> Option<
    MetadataView,
>
    decreases m.module.len() - from,
{
    if 0 <= from < m.module.len() {
        if m.module[from].0 == name {
            Some(m.module[from].1)
        } else {
            metadata_field(m, name, from + 1)
        }
    } else {
        None
    }
}

impl Metadata {
    /// Metadata that says nothing.
    pub fn empty() -> (r: Metadata)
        ensures
            r@ == (MetadataView { comment: None, module: Seq::empty() }),
    {
        let r = Metadata { comment: None, module: Vec::new() };
        assert(r@.module =~= Seq::empty());
        r
    }

    /// The metadata of the first field named `name`.
    pub fn get(&self, name: &str) -> (r: Option<Arc<Metadata>>)
        ensures
            match r {
                Some(m) => Some(m@),
                None => None,
            } == metadata_field(self@, name@, 0),
    {
        let mut i: usize = 0;
        while i < self.module.len()
            invariant
                i <= self.module.len(),
                metadata_field(self@, name@, 0) == metadata_field(self@, name@, i as int),
            decreases self.module.len() - i,
        {
            if str_eq(self.module[i].0.as_str(), name) {
                return Some(share(&self.module[i].1));
            }
            i += 1;
        }
        None
    }
}

/// A binding of the virtual machine that belongs to a module: its
/// resolved symbol, its type, its metadata and its value.
#[derive(Clone, Debug)]
pub struct Global<V> {
    pub id: Symbol,
    pub typ: ArcType,
    pub metadata: Arc<Metadata>,
    pub value: V,
}

/// A global as the cache holds it.
pub type UnrootedGlobal = Global<UnrootedValue>;

/// A global as the database hands it out.
pub type DatabaseGlobal = Global<RootedValue>;

pub ghost struct GlobalView {
    pub id: Seq<char>,
    pub typ: TypeView,
    pub metadata: MetadataView,
    pub value: ValueView,
}

impl View for Global<UnrootedValue> {
    type V = GlobalView;

    open spec fn view(&self) -> GlobalView {
        GlobalView {
            id: self.id@,
            typ: type_view(*self.typ),
            metadata: metadata_view(*self.metadata),
            value: self.value@,
        }
    }
}

/// A global that the database hands out, as the contracts speak of it:
/// the global and the thread that keeps its value reachable.
pub ghost struct RootedGlobalView {
    pub global: GlobalView,
    pub thread: Thread,
}

impl View for Global<RootedValue> {
    type V = RootedGlobalView;

    open spec fn view(&self) -> RootedGlobalView {
        RootedGlobalView {
            global: GlobalView {
                id: self.id@,
                typ: type_view(*self.typ),
                metadata: metadata_view(*self.metadata),
                value: self.value@.value,
            },
            thread: self.value@.thread,
        }
    }
}

impl Global<UnrootedValue> {
    pub fn duplicate(&self) -> (r: UnrootedGlobal)
        ensures
            r@ == self@,
    {
        Global {
            id: self.id.duplicate(),
            typ: share(&self.typ),
            metadata: share(&self.metadata),
            value: self.value.duplicate(),
        }
    }
}

/// The global `global`, its value pinned to the thread `vm`.
pub fn root_global_with(global: UnrootedGlobal, vm: Thread) -> (r: DatabaseGlobal)
    ensures
        r@ == (RootedGlobalView { global: global@, thread: vm }),
{
    let Global { id, typ, metadata, value } = global;
    Global { id, typ, metadata, value: value.root_with(vm) }
}

/// The global `global` as the cache can hold it: its value holds no
/// root.
pub fn unroot_global(global: DatabaseGlobal) -> (r: UnrootedGlobal)
    ensures
        r@ == global@.global,
{
    let Global { id, typ, metadata, value } = global;
    Global { id, typ, metadata, value: value.unroot() }
}

/// What the typechecker has found out about a module.
#[derive(Clone, Debug)]
pub struct TypecheckValue {
    pub typ: ArcType,
    pub metadata: Arc<Metadata>,
}

pub ghost struct TypecheckValueView {
    pub typ: TypeView,
    pub metadata: MetadataView,
}

impl View for TypecheckValue {
    type V = TypecheckValueView;

    open spec fn view(&self) -> TypecheckValueView {
        TypecheckValueView {
            typ: type_view(*self.typ),
            metadata: metadata_view(*self.metadata),
        }
    }
}

impl TypecheckValue {
    pub fn duplicate(&self) -> (r: TypecheckValue)
        ensures
            r@ == self@,
    {
        TypecheckValue { typ: share(&self.typ), metadata: share(&self.metadata) }
    }
}

} // verus!
