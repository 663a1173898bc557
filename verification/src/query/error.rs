//! The errors of the compilation database.

use vstd::prelude::*;
use crate::base::pos::Span;
use crate::base::types::{type_view, ArcType, TypeView};

verus! {

/// Why a query of the database failed.
#[derive(Clone, Debug, PartialEq, Eq)]
pub enum Error {
    /// No source was found for the module.
    SourceNotFound { module: String },
    Parse { module: String, span: Span },
    Typecheck { module: String, span: Span },
    CoreTranslation { module: String },
    Bytecode { module: String },
    VmRuntime { module: String, message: String },
    /// The module was requested while it was being computed. The
    /// participants are the modules of the chain of imports that leads
    /// back to it, in the order in which they were reached.
    CyclicDependency { requested: String, participants: Vec<String> },
    /// No global has a name that the path starts with.
    UndefinedBinding(String),
    /// The type has no field of the name.
    UndefinedField(ArcType, String),
    MetadataDoesNotExist(String),
    /// A part of a path is an operator that is not put in parentheses.
    OperatorNotAField(String),
    ExternLoad { module: String, message: String },
}

pub ghost enum ErrorView {
    SourceNotFound { module: Seq<char> },
    Parse { module: Seq<char>, span: Span },
    Typecheck { module: Seq<char>, span: Span },
    CoreTranslation { module: Seq<char> },
    Bytecode { module: Seq<char> },
    VmRuntime { module: Seq<char>, message: Seq<char> },
    CyclicDependency { requested: Seq<char>, participants: Seq<Seq<char>> },
    UndefinedBinding(Seq<char>),
    UndefinedField(TypeView, Seq<char>),
    MetadataDoesNotExist(Seq<char>),
    OperatorNotAField(Seq<char>),
    ExternLoad { module: Seq<char>, message: Seq<char> },
}

impl View for Error {
    type V = ErrorView;

    open spec fn view(&self) -> ErrorView {
        match self {
            Error::SourceNotFound { module } => ErrorView::SourceNotFound { module: module@ },
            Error::Parse { module, span } => ErrorView::Parse { module: module@, span: *span },
            Error::Typecheck { module, span } => ErrorView::Typecheck {
                module: module@,
                span: *span,
            },
            Error::CoreTranslation { module } => ErrorView::CoreTranslation { module: module@ },
            Error::Bytecode { module } => ErrorView::Bytecode { module: module@ },
            Error::VmRuntime { module, message } => ErrorView::VmRuntime {
                module: module@,
                message: message@,
            },
            Error::CyclicDependency { requested, participants } => ErrorView::CyclicDependency {
                requested: requested@,
                participants: Seq::new(participants@.len(), |i: int| participants@[i]@),
            },
            Error::UndefinedBinding(name) => ErrorView::UndefinedBinding(name@),
            Error::UndefinedField(typ, name) => ErrorView::UndefinedField(type_view(**typ), name@),
            Error::MetadataDoesNotExist(name) => ErrorView::MetadataDoesNotExist(name@),
            Error::OperatorNotAField(name) => ErrorView::OperatorNotAField(name@),
            Error::ExternLoad { module, message } => ErrorView::ExternLoad {
                module: module@,
                message: message@,
            },
        }
    }
}

pub type Result<T> = std::result::Result<T, Error>;

/// The text of the diagnostic for an operator that is used as a field
/// without parentheses.
pub open spec fn operator_message() -> Seq<char> {
    "Operators cannot be used as fields directly. To access an operator field, enclose the operator with parentheses before passing it in. (test.(+) instead of test.+)"@
}

/// The text of the diagnostic for an operator that is used as a field
/// without parentheses.
pub fn operator_not_a_field_message() -> (r: &'static str)
    ensures
        r@ == operator_message(),
{
    "Operators cannot be used as fields directly. To access an operator field, enclose the operator with parentheses before passing it in. (test.(+) instead of test.+)"
}

} // verus!
