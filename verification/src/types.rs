use vstd::prelude::*;
use vstd::string::*;

use crate::name::Name;

verus! {

/// Mathematical model of a type kind.
pub enum KindModel {
    Int32,
    Data,
    Unsolved(Seq<char>),
    UnsolvedNoHint,
}

/// Mathematical model of a type: a kind together with an optional
/// back-reference to the canonical name of the declaring structure.
#[verifier::ext_equal]
pub struct TypeModel {
    pub kind: KindModel,
    pub refs: Option<Seq<char>>,
}

/// The kind of a type: a built-in primitive, a resolved user-defined
/// structure, or a transient placeholder awaiting resolution.
#[derive(Clone, Debug, PartialEq)]
pub enum TypeKind {
    Int32,
    Data,
    Unsolved(String),
    UnsolvedNoHint,
}

impl View for TypeKind {
    type V = KindModel;

    open spec fn view(&self) -> KindModel {
        match self {
            TypeKind::Int32 => KindModel::Int32,
            TypeKind::Data => KindModel::Data,
            TypeKind::Unsolved(hint) => KindModel::Unsolved(hint@),
            TypeKind::UnsolvedNoHint => KindModel::UnsolvedNoHint,
        }
    }
}

/// A type: kind plus an optional back-reference. `refs` is present
/// exactly when the kind denotes a user-defined structure, and then
/// holds that structure's canonical declaration name.
#[derive(Clone, PartialEq)]
pub struct Type {
    pub kind: TypeKind,
    pub refs: Option<Name>,
}

impl View for Type {
    type V = TypeModel;

    open spec fn view(&self) -> TypeModel {
        TypeModel {
            kind: self.kind@,
            refs: match self.refs {
                Some(n) => Some(n@),
                None => None,
            },
        }
    }
}

/// What a textual type hint denotes before any declaration lookup:
/// the primitive spelled "i32", or an unsolved placeholder carrying
/// the hint.
pub open spec fn kind_of_hint(hint: Seq<char>) -> KindModel {
    if hint == seq!['i', '3', '2'] {
        KindModel::Int32
    } else {
        KindModel::Unsolved(hint)
    }
}

impl TypeKind {
    /// Reads a raw textual hint: "i32" names the primitive; any other
    /// text stays an unsolved placeholder carrying the hint.
    pub fn from(name: String) -> (r: TypeKind)
        ensures
            r@ == kind_of_hint(name@),
    {
        proof {
            reveal_strlit("i32");
            assert("i32"@ =~= seq!['i', '3', '2']);
        }
        if name.eq(&String::from_str("i32")) {
            TypeKind::Int32
        } else {
            TypeKind::Unsolved(name)
        }
    }
}

impl Type {
    /// Pairs a kind with an optional declaration back-reference.
    pub fn new(kind: TypeKind, name: Option<Name>) -> (r: Type)
        ensures
            r == (Type { kind, refs: name }),
    {
        Type { kind, refs: name }
    }

    /// The placeholder for a position with no lexical hint at all.
    pub fn new_unsovled_nohint() -> (r: Type)
        ensures
            r == (Type { kind: TypeKind::UnsolvedNoHint, refs: None }),
    {
        Type { kind: TypeKind::UnsolvedNoHint, refs: None }
    }

    /// Reads a raw textual hint into a type with no back-reference.
    pub fn from(name: String) -> (r: Type)
        ensures
            r@ == (TypeModel { kind: kind_of_hint(name@), refs: None }),
    {
        Type { kind: TypeKind::from(name), refs: None }
    }

    /// Structural equality of two types.
    pub fn same(&self, other: &Type) -> (r: bool)
        ensures
            r == (self@ == other@),
    {
        let kinds_eq = match (&self.kind, &other.kind) {
            (TypeKind::Int32, TypeKind::Int32) => true,
            (TypeKind::Data, TypeKind::Data) => true,
            (TypeKind::Unsolved(a), TypeKind::Unsolved(b)) => a.eq(b),
            (TypeKind::UnsolvedNoHint, TypeKind::UnsolvedNoHint) => true,
            _ => false,
        };
        let refs_eq = match (&self.refs, &other.refs) {
            (None, None) => true,
            (Some(a), Some(b)) => a.same(b),
            _ => false,
        };
        proof {
            if kinds_eq && refs_eq {
                assert(self@ =~= other@);
            }
        }
        kinds_eq && refs_eq
    }

    /// Whether this type is still a transient placeholder.
    pub fn is_unsolved(&self) -> (r: bool)
        ensures
            r == !solved_kind(self@.kind),
    {
        match self.kind {
            TypeKind::Unsolved(_) => true,
            TypeKind::UnsolvedNoHint => true,
            _ => false,
        }
    }
}

/// A kind is solved when it is no placeholder: the primitive or a
/// resolved user-defined structure.
pub open spec fn solved_kind(k: KindModel) -> bool {
    match k {
        KindModel::Int32 => true,
        KindModel::Data => true,
        KindModel::Unsolved(_) => false,
        KindModel::UnsolvedNoHint => false,
    }
}

} // verus!
