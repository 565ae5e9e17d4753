use vstd::prelude::*;
use crate::name::Name;
use crate::types::{Type, TypeModel};

verus! {

/// Mathematical model of a resolution or export failure.
pub enum ErrorModel {
    /// A type hint (`Some`) or a no-hint placeholder (`None`) matched
    /// no primitive and no reachable declaration.
    UnresolvedType(Option<Seq<char>>),
    /// Two declarations in the same parent scope share a qualified name.
    DuplicateDeclaration(Seq<char>),
    /// An annotation references a variable not yet bound at that point.
    UndeclaredVariable(Seq<char>),
    /// A reference's declared type disagrees with its binding-site type
    /// (expected, found).
    TypeMismatch(TypeModel, TypeModel),
    /// An unsolved type reached the export boundary.
    SerializationInvariant,
}

/// A resolution or export failure, attributable to a specific name.
#[derive(Clone, PartialEq)]
pub enum CompileError {
    UnresolvedTypeError(Option<String>),
    DuplicateDeclarationError(Name),
    UndeclaredVariableError(Name),
    TypeMismatchError(Type, Type),
    SerializationInvariantError,
}

impl View for CompileError {
    type V = ErrorModel;

    open spec fn view(&self) -> ErrorModel {
        match self {
            CompileError::UnresolvedTypeError(h) => ErrorModel::UnresolvedType(
                match h {
                    Some(s) => Some(s@),
                    None => None,
                },
            ),
            CompileError::DuplicateDeclarationError(n) => ErrorModel::DuplicateDeclaration(n@),
            CompileError::UndeclaredVariableError(n) => ErrorModel::UndeclaredVariable(n@),
            CompileError::TypeMismatchError(e, f) => ErrorModel::TypeMismatch(e@, f@),
            CompileError::SerializationInvariantError => ErrorModel::SerializationInvariant,
        }
    }
}

} // verus!
