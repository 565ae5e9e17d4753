use vstd::prelude::*;
use vstd::string::*;

verus! {

/// A hierarchical, dot-separated identifier: the key by which every
/// declaration of a system model is known. Equality is structural
/// (full path equality).
#[derive(Clone, Debug, PartialEq)]
pub struct Name {
    pub path: String,
}

impl View for Name {
    type V = Seq<char>;

    open spec fn view(&self) -> Seq<char> {
        self.path@
    }
}

/// The path obtained by appending one segment to a parent scope path.
pub open spec fn child_path(parent: Seq<char>, seg: Seq<char>) -> Seq<char> {
    if parent.len() == 0 {
        seg
    } else {
        parent + seq!['.'] + seg
    }
}

impl Name {
    /// The empty root path, parent of every top-level unit.
    pub fn root() -> (r: Name)
        ensures
            r@ == Seq::<char>::empty(),
    {
        Name { path: String::new() }
    }

    /// A name made of a single bare identifier.
    pub fn from_str(seg: &str) -> (r: Name)
        ensures
            r@ == seg@,
    {
        Name { path: String::from_str(seg) }
    }

    /// Construction by appending a segment to a parent scope path.
    pub fn child(parent: &Name, seg: &str) -> (r: Name)
        ensures
            r@ == child_path(parent@, seg@),
    {
        if parent.path.as_str().is_empty() {
            Name { path: String::from_str(seg) }
        } else {
            let mut p = parent.path.clone();
            proof {
                reveal_strlit(".");
            }
            p.append(".");
            p.append(seg);
            Name { path: p }
        }
    }

    /// Structural equality of two names.
    pub fn same(&self, other: &Name) -> (r: bool)
        ensures
            r == (self@ == other@),
    {
        self.path.eq(&other.path)
    }
}

} // verus!
