//! Types as far as the compilation core reads them: the rows of records,
//! aliases, and applications such as that of the IO effect.

use vstd::prelude::*;
use vstd::string::*;
use std::sync::Arc;
use crate::base::shared::share;
use crate::base::strings::str_eq;
use crate::base::symbol::Symbol;

verus! {

/// The kind of a type.
#[derive(Clone, Debug, PartialEq, Eq, Hash)]
pub enum Kind {
    Hole,
    Type,
    Row,
    Function(Arc<Kind>, Arc<Kind>),
}

pub type ArcKind = Arc<Kind>;

pub type ArcType = Arc<Type>;

/// A type. The nodes of a type are shared by reference count.
#[derive(Clone, Debug, PartialEq, Eq, Hash)]
pub enum Type {
    /// A type that is not known.
    Hole,
    /// A type that is referred to by name, built in or declared.
    Ident(Symbol),
    /// A type constructor applied to arguments.
    App(ArcType, Vec<ArcType>),
    Function(ArcType, ArcType),
    /// A record: its type fields, then its value fields, each in the
    /// order of declaration.
    Record(Vec<AliasField>, Vec<Field>),
    /// A name for the type that it holds.
    Alias(Arc<Alias>),
}

/// A value field of a record type.
#[derive(Clone, Debug, PartialEq, Eq, Hash)]
pub struct Field {
    pub name: Symbol,
    pub typ: ArcType,
}

/// A type field of a record type.
#[derive(Clone, Debug, PartialEq, Eq, Hash)]
pub struct AliasField {
    pub name: Symbol,
    pub typ: Arc<Alias>,
}

/// A declared name for a type, with the kinds of its parameters.
#[derive(Clone, Debug, PartialEq, Eq, Hash)]
pub struct Alias {
    pub name: Symbol,
    pub params: Vec<ArcKind>,
    pub typ: ArcType,
}

/// An identifier together with its type.
#[derive(Debug, PartialEq, Eq, Hash)]
pub struct TypedIdent {
    pub name: Symbol,
    pub typ: ArcType,
}

/// A type as the contracts speak of it.
pub ghost enum TypeView {
    Hole,
    Ident(Seq<char>),
    App(Box<TypeView>, Seq<TypeView>),
    Function(Box<TypeView>, Box<TypeView>),
    Record(Seq<AliasFieldView>, Seq<FieldView>),
    Alias(Box<AliasView>),
}

pub ghost struct FieldView {
    pub name: Seq<char>,
    pub typ: TypeView,
}

pub ghost struct AliasFieldView {
    pub name: Seq<char>,
    pub typ: AliasView,
}

pub ghost struct AliasView {
    pub name: Seq<char>,
    pub params: Seq<Kind>,
    pub typ: TypeView,
}

pub ghost struct TypedIdentView {
    pub name: Seq<char>,
    pub typ: TypeView,
}

pub open spec fn type_view(t: Type) -> TypeView
    decreases t,
{
    match t {
        Type::Hole => TypeView::Hole,
        Type::Ident(s) => TypeView::Ident(s@),
        Type::App(f, args) => TypeView::App(
            Box::new(type_view(*f)),
            Seq::new(
                args.len() as nat,
                |i: int|
                    if 0 <= i < args.len() {
                        type_view(*args[i])
                    } else {
                        TypeView::Hole
                    },
            ),
        ),
        Type::Function(a, r) => TypeView::Function(
            Box::new(type_view(*a)),
            Box::new(type_view(*r)),
        ),
        Type::Record(types, fields) => TypeView::Record(
            Seq::new(
                types.len() as nat,
                |i: int|
                    if 0 <= i < types.len() {
                        AliasFieldView { name: types[i].name@, typ: alias_view(*types[i].typ) }
                    } else {
                        arbitrary()
                    },
            ),
            Seq::new(
                fields.len() as nat,
                |i: int|
                    if 0 <= i < fields.len() {
                        FieldView { name: fields[i].name@, typ: type_view(*fields[i].typ) }
                    } else {
                        arbitrary()
                    },
            ),
        ),
        Type::Alias(a) => TypeView::Alias(Box::new(alias_view(*a))),
    }
}

pub open spec fn alias_view(a: Alias) -> AliasView
    decreases a,
{
    AliasView {
        name: a.name@,
        params: Seq::new(a.params.len() as nat, |i: int| *a.params[i]),
        typ: type_view(*a.typ),
    }
}

impl View for Type {
    type V = TypeView;

    open spec fn view(&self) -> TypeView {
        type_view(*self)
    }
}

impl View for Alias {
    type V = AliasView;

    open spec fn view(&self) -> AliasView {
        alias_view(*self)
    }
}

impl View for Field {
    type V = FieldView;

    open spec fn view(&self) -> FieldView {
        FieldView { name: self.name@, typ: type_view(*self.typ) }
    }
}

impl View for AliasField {
    type V = AliasFieldView;

    open spec fn view(&self) -> AliasFieldView {
        AliasFieldView { name: self.name@, typ: alias_view(*self.typ) }
    }
}

impl View for TypedIdent {
    type V = TypedIdentView;

    open spec fn view(&self) -> TypedIdentView {
        TypedIdentView { name: self.name@, typ: type_view(*self.typ) }
    }
}

/// The value fields of a record type, in the order of declaration; none
/// for any other type.
pub open spec fn row_fields(t: TypeView) -> Seq<FieldView> {
    match t {
        TypeView::Record(_, fields) => fields,
        _ => Seq::empty(),
    }
}

/// The type fields of a record type, in the order of declaration; none
/// for any other type.
pub open spec fn type_fields(t: TypeView) -> Seq<AliasFieldView> {
    match t {
        TypeView::Record(types, _) => types,
        _ => Seq::empty(),
    }
}

/// The index of the first field named `name` in `row`, from index
/// `from` on.
pub open spec fn field_index(row: Seq<FieldView>, name: Seq<char>, from: int) -> Option<int>
    decreases row.len() - from,
{
    if 0 <= from < row.len() {
        if row[from].name == name {
            Some(from)
        } else {
            field_index(row, name, from + 1)
        }
    } else {
        None
    }
}

pub proof fn lemma_field_index_bounds(row: Seq<FieldView>, name: Seq<char>, from: int)
    requires
        0 <= from,
    ensures
        match field_index(row, name, from) {
            Some(i) => from <= i < row.len() && row[i].name == name,
            None => true,
        },
    decreases row.len() - from,
{
    if from < row.len() && row[from].name != name {
        lemma_field_index_bounds(row, name, from + 1);
    }
}

/// The alias of the first type field named `name` in `types`, from
/// index `from` on.
pub open spec fn type_field_alias(types: Seq<AliasFieldView>, name: Seq<char>, from: int) -> Option<
    AliasView,
>
    decreases types.len() - from,
{
    if 0 <= from < types.len() {
        if types[from].name == name {
            Some(types[from].typ)
        } else {
            type_field_alias(types, name, from + 1)
        }
    } else {
        None
    }
}

/// The type that stands behind the aliases that wrap `t`.
pub open spec fn without_aliases(t: TypeView) -> TypeView
    decreases t,
{
    match t {
        TypeView::Alias(a) => without_aliases(a.typ),
        _ => t,
    }
}

/// Whether `t` is an application of the type constructor named `IO`.
pub open spec fn is_io_type(t: TypeView) -> bool {
    match t {
        TypeView::App(f, _) => *f == TypeView::Ident("IO"@),
        _ => false,
    }
}

/// The kind of a type constructor with parameters of the kinds `params`,
/// from index `from` on, that yields a type.
pub open spec fn kind_of_params(params: Seq<Kind>, from: int) -> Kind
    decreases params.len() - from,
{
    if 0 <= from < params.len() {
        Kind::Function(Arc::new(params[from]), Arc::new(kind_of_params(params, from + 1)))
    } else {
        Kind::Type
    }
}

impl Type {
    pub fn hole() -> (r: ArcType)
        ensures
            r@ == TypeView::Hole,
    {
        Arc::new(Type::Hole)
    }

    pub fn ident(name: &str) -> (r: ArcType)
        ensures
            r@ == TypeView::Ident(name@),
    {
        Arc::new(Type::Ident(Symbol::from(name)))
    }

    pub fn app(f: ArcType, args: Vec<ArcType>) -> (r: ArcType)
        ensures
            *r == Type::App(f, args),
    {
        Arc::new(Type::App(f, args))
    }

    pub fn function(arg: ArcType, ret: ArcType) -> (r: ArcType)
        ensures
            *r == Type::Function(arg, ret),
    {
        Arc::new(Type::Function(arg, ret))
    }

    pub fn record(types: Vec<AliasField>, fields: Vec<Field>) -> (r: ArcType)
        ensures
            *r == Type::Record(types, fields),
    {
        Arc::new(Type::Record(types, fields))
    }

    pub fn alias(name: &str, params: Vec<ArcKind>, typ: ArcType) -> (r: ArcType)
        ensures
            r@ matches TypeView::Alias(a) && a.name == name@ && a.typ == typ@ && a.params
                == Seq::new(params.len() as nat, |i: int| *params[i]),
    {
        let ghost kinds = Seq::new(params.len() as nat, |i: int| *params[i]);
        let a = Alias { name: Symbol::from(name), params, typ };
        assert(a@.params =~= kinds);
        Arc::new(Type::Alias(Arc::new(a)))
    }

    /// The value fields of a record type.
    pub fn record_fields(&self) -> (r: Option<&Vec<Field>>)
        ensures
            match r {
                Some(fields) => fields@.len() == row_fields(self@).len() && forall|i: int|
                    0 <= i < fields@.len() ==> (#[trigger] fields@[i])@ == row_fields(self@)[i],
                None => row_fields(self@).len() == 0,
            },
    {
        match self {
            Type::Record(_, fields) => Some(fields),
            _ => None,
        }
    }

    /// The index of the first value field named `name` in a record type.
    pub fn find_field(&self, name: &str) -> (r: Option<usize>)
        ensures
            match r {
                Some(i) => Some(i as int),
                None => None,
            } == field_index(row_fields(self@), name@, 0),
    {
        match self {
            Type::Record(_, fields) => {
                let mut i: usize = 0;
                while i < fields.len()
                    invariant
                        i <= fields.len(),
                        row_fields(self@).len() == fields.len(),
                        forall|j: int|
                            0 <= j < fields.len() ==> (#[trigger] row_fields(self@)[j]).name
                                == fields[j].name@,
                        field_index(row_fields(self@), name@, 0) == field_index(
                            row_fields(self@),
                            name@,
                            i as int,
                        ),
                    decreases fields.len() - i,
                {
                    if str_eq(fields[i].name.as_str(), name) {
                        return Some(i);
                    }
                    i += 1;
                }
                None
            },
            _ => None,
        }
    }

    /// The alias of the first type field named `name` in a record type.
    pub fn find_type_field(&self, name: &str) -> (r: Option<Arc<Alias>>)
        ensures
            match r {
                Some(a) => Some(a@),
                None => None,
            } == type_field_alias(type_fields(self@), name@, 0),
    {
        match self {
            Type::Record(types, _) => {
                let mut i: usize = 0;
                while i < types.len()
                    invariant
                        i <= types.len(),
                        type_fields(self@).len() == types.len(),
                        forall|j: int|
                            0 <= j < types.len() ==> #[trigger] type_fields(self@)[j]
                                == types[j]@,
                        type_field_alias(type_fields(self@), name@, 0) == type_field_alias(
                            type_fields(self@),
                            name@,
                            i as int,
                        ),
                    decreases types.len() - i,
                {
                    if str_eq(types[i].name.as_str(), name) {
                        return Some(share(&types[i].typ));
                    }
                    i += 1;
                }
                None
            },
            _ => None,
        }
    }

    /// Whether this is an application of the type constructor named `IO`.
    pub fn is_io(&self) -> (r: bool)
        ensures
            r == is_io_type(self@),
    {
        proof {
            reveal_with_fuel(type_view, 2);
        }
        match self {
            Type::App(f, _) => match &**f {
                Type::Ident(s) => {
                    let r = str_eq(s.as_str(), "IO");
                    r
                },
                _ => false,
            },
            _ => false,
        }
    }
}

/// The type that stands behind the aliases that wrap `t`.
pub fn remove_aliases(t: &ArcType) -> (r: ArcType)
    ensures
        r@ == without_aliases(t@),
    decreases **t,
{
    proof {
        reveal_with_fuel(type_view, 2);
        reveal_with_fuel(alias_view, 2);
    }
    match &**t {
        Type::Alias(a) => remove_aliases(&a.typ),
        _ => share(t),
    }
}

impl Alias {
    /// The kind of the alias as a type constructor.
    pub fn kind(&self) -> (r: ArcKind)
        ensures
            *r == kind_of_params(self@.params, 0),
    {
        let mut k: ArcKind = Arc::new(Kind::Type);
        let mut i: usize = self.params.len();
        while i > 0
            invariant
                i <= self.params.len(),
                self@.params.len() == self.params.len(),
                forall|j: int| 0 <= j < self.params.len() ==> self@.params[j] == *self.params[j],
                *k == kind_of_params(self@.params, i as int),
            decreases i,
        {
            i -= 1;
            k = Arc::new(Kind::Function(share(&self.params[i]), k));
        }
        k
    }
}

impl Field {
    pub fn new(name: &str, typ: ArcType) -> (r: Field)
        ensures
            r@ == (FieldView { name: name@, typ: typ@ }),
    {
        Field { name: Symbol::from(name), typ }
    }
}

impl TypedIdent {
    pub fn new(name: Symbol, typ: ArcType) -> (r: TypedIdent)
        ensures
            r == (TypedIdent { name, typ }),
    {
        TypedIdent { name, typ }
    }

    pub fn duplicate(&self) -> (r: TypedIdent)
        ensures
            r == *self,
    {
        TypedIdent { name: self.name.duplicate(), typ: share(&self.typ) }
    }
}

impl Clone for TypedIdent {
    fn clone(&self) -> (r: TypedIdent)
        ensures
            r == *self,
    {
        self.duplicate()
    }
}

} // verus!
