use vstd::prelude::*;
use vstd::string::*;

use crate::error::{CompileError, ErrorModel};
use crate::name::Name;
use crate::types::{KindModel, Type, TypeKind, TypeModel};

verus! {

// ------------------------------------------------------------------
// The scope resolver's symbol table: an owned stack of frames, one per
// nesting level, each holding the data declarations of that level as
// (local name, canonical name) entries. Lookup walks from the nearest
// frame outward; within a frame the earliest entry wins.
// ------------------------------------------------------------------

/// One data-namespace entry: the local declaration name and the
/// canonical (fully qualified) name of the declaration.
#[derive(Clone, PartialEq)]
pub struct ScopeEntry {
    pub local: String,
    pub canonical: Name,
}

impl View for ScopeEntry {
    type V = (Seq<char>, Seq<char>);

    open spec fn view(&self) -> (Seq<char>, Seq<char>) {
        (self.local@, self.canonical@)
    }
}

/// One scope frame: the data declarations visible at one level.
#[derive(Clone, PartialEq)]
pub struct ScopeFrame {
    pub datas: Vec<ScopeEntry>,
}

impl View for ScopeFrame {
    type V = Seq<(Seq<char>, Seq<char>)>;

    open spec fn view(&self) -> Seq<(Seq<char>, Seq<char>)> {
        self.datas@.map_values(|e: ScopeEntry| e@)
    }
}

impl ScopeFrame {
    /// An empty frame, as a fresh nesting level opens.
    pub fn new() -> (r: ScopeFrame)
        ensures
            r@ =~= Seq::<(Seq<char>, Seq<char>)>::empty(),
    {
        ScopeFrame { datas: Vec::new() }
    }

    /// Records one data declaration in this frame.
    pub fn push_data(&mut self, local: String, canonical: Name)
        ensures
            final(self)@ =~= old(self)@.push((local@, canonical@)),
    {
        let ghost before = self.datas@;
        self.datas.push(ScopeEntry { local, canonical });
        proof {
            assert(self@ =~= before.map_values(|e: ScopeEntry| e@).push(
                (self.datas@.last().local@, self.datas@.last().canonical@),
            ));
        }
    }
}

/// The model of a frame stack.
pub open spec fn frames_view(frames: Seq<ScopeFrame>) -> Seq<Seq<(Seq<char>, Seq<char>)>> {
    frames.map_values(|f: ScopeFrame| f@)
}

/// First entry of one frame whose local name matches the hint.
pub open spec fn lookup_frame(entries: Seq<(Seq<char>, Seq<char>)>, hint: Seq<char>) -> Option<
    Seq<char>,
>
    decreases entries.len(),
{
    if entries.len() == 0 {
        None
    } else if entries.first().0 == hint {
        Some(entries.first().1)
    } else {
        lookup_frame(entries.drop_first(), hint)
    }
}

/// Nearest-enclosing-scope lookup: the last frame is the innermost
/// scope and wins over the frames outward of it.
pub open spec fn lookup_data(frames: Seq<Seq<(Seq<char>, Seq<char>)>>, hint: Seq<char>) -> Option<
    Seq<char>,
>
    decreases frames.len(),
{
    if frames.len() == 0 {
        None
    } else {
        match lookup_frame(frames.last(), hint) {
            Option::Some(c) => Some(c),
            Option::None => lookup_data(frames.drop_last(), hint),
        }
    }
}

/// What resolving a textual hint yields: the primitive for "i32", a
/// user-defined type with its canonical back-reference for a declared
/// structure, and an error for anything else.
pub open spec fn resolve_hint_spec(
    frames: Seq<Seq<(Seq<char>, Seq<char>)>>,
    hint: Seq<char>,
) -> Result<TypeModel, ErrorModel> {
    if hint == seq!['i', '3', '2'] {
        Ok(TypeModel { kind: KindModel::Int32, refs: None })
    } else {
        match lookup_data(frames, hint) {
            Option::Some(c) => Ok(TypeModel { kind: KindModel::Data, refs: Some(c) }),
            Option::None => Err(ErrorModel::UnresolvedType(Some(hint))),
        }
    }
}

fn frame_find(frame: &ScopeFrame, hint: &String) -> (r: Option<Name>)
    ensures
        match r {
            Option::Some(c) => lookup_frame(frame@, hint@) == Some(c@),
            Option::None => lookup_frame(frame@, hint@) is None,
        },
{
    let ghost s = frame@;
    proof {
        assert(s.skip(0) =~= s);
    }
    let mut i: usize = 0;
    while i < frame.datas.len()
        invariant
            i <= frame.datas.len(),
            s == frame@,
            s.len() == frame.datas@.len(),
            lookup_frame(s, hint@) == lookup_frame(s.skip(i as int), hint@),
        decreases frame.datas.len() - i,
    {
        proof {
            assert(s[i as int] == frame.datas@[i as int]@);
            assert(s.skip(i as int).first() == s[i as int]);
        }
        if frame.datas[i].local.eq(hint) {
            let c = Name { path: String::from_str(frame.datas[i].canonical.path.as_str()) };
            return Some(c);
        }
        proof {
            assert(s.skip(i as int).drop_first() =~= s.skip(i as int + 1));
        }
        i = i + 1;
    }
    proof {
        assert(s.skip(s.len() as int) =~= Seq::<(Seq<char>, Seq<char>)>::empty());
    }
    None
}

/// Resolves one textual type hint against the frame stack: "i32" is
/// the primitive; any other hint must name a data declaration visible
/// from the innermost frame outward, and resolves to a user-defined
/// type carrying that declaration's canonical name; otherwise the
/// resolution fails with the unresolved-type error naming the hint.
pub fn resolve_hint(frames: &Vec<ScopeFrame>, hint: &String) -> (r: Result<Type, CompileError>)
    ensures
        match r {
            Result::Ok(t) => resolve_hint_spec(frames_view(frames@), hint@) == Ok::<
                TypeModel,
                ErrorModel,
            >(t@),
            Result::Err(e) => resolve_hint_spec(frames_view(frames@), hint@) == Err::<
                TypeModel,
                ErrorModel,
            >(e@),
        },
{
    proof {
        reveal_strlit("i32");
        assert("i32"@ =~= seq!['i', '3', '2']);
    }
    if hint.eq(&String::from_str("i32")) {
        return Ok(Type { kind: TypeKind::Int32, refs: None });
    }
    let ghost fv = frames_view(frames@);
    proof {
        assert(fv.take(frames@.len() as int) =~= fv);
    }
    let mut fi: usize = frames.len();
    while fi > 0
        invariant
            fi <= frames.len(),
            fv == frames_view(frames@),
            fv.len() == frames@.len(),
            hint@ != seq!['i', '3', '2'],
            lookup_data(fv, hint@) == lookup_data(fv.take(fi as int), hint@),
        decreases fi,
    {
        proof {
            assert(fv[fi - 1] == frames@[fi - 1]@);
            assert(fv.take(fi as int).last() == fv[fi - 1]);
            assert(fv.take(fi as int).drop_last() =~= fv.take(fi - 1));
        }
        match frame_find(&frames[fi - 1], hint) {
            Option::Some(c) => {
                proof {
                    assert(lookup_data(fv.take(fi as int), hint@) == Some(c@));
                    assert(lookup_data(fv, hint@) == Some(c@));
                }
                return Ok(Type { kind: TypeKind::Data, refs: Some(c) });
            },
            Option::None => {},
        }
        fi = fi - 1;
    }
    proof {
        assert(fv.take(0) =~= Seq::<Seq<(Seq<char>, Seq<char>)>>::empty());
    }
    Err(CompileError::UnresolvedTypeError(Some(String::from_str(hint.as_str()))))
}

// ------------------------------------------------------------------
// Duplicate detection: the earliest name that repeats an earlier
// declaration in the same parent scope.
// ------------------------------------------------------------------

/// The first name in declaration order that already occurred earlier.
pub open spec fn dup_in(s: Seq<Seq<char>>) -> Option<Seq<char>>
    decreases s.len(),
{
    if s.len() == 0 {
        None
    } else {
        match dup_in(s.drop_last()) {
            Option::Some(d) => Some(d),
            Option::None => if s.drop_last().contains(s.last()) {
                Some(s.last())
            } else {
                None
            },
        }
    }
}

/// Duplicate detection finds a name exactly when two positions carry
/// the same name.
pub proof fn lemma_dup_iff(s: Seq<Seq<char>>)
    ensures
        dup_in(s) is Some <==> exists|i: int, j: int| 0 <= i < j < s.len() && s[i] == s[j],
    decreases s.len(),
{
    if s.len() == 0 {
    } else {
        lemma_dup_iff(s.drop_last());
        let pre = s.drop_last();
        if dup_in(pre) is Some {
            let (i, j) = choose|i: int, j: int| 0 <= i < j < pre.len() && pre[i] == pre[j];
            assert(s[i] == s[j]);
        } else if pre.contains(s.last()) {
            let i = choose|i: int| 0 <= i < pre.len() && pre[i] == s.last();
            assert(s[i] == s[s.len() - 1]);
        } else {
            if exists|i: int, j: int| 0 <= i < j < s.len() && s[i] == s[j] {
                let (i, j) = choose|i: int, j: int| 0 <= i < j < s.len() && s[i] == s[j];
                if j < s.len() - 1 {
                    assert(pre[i] == pre[j]);
                    assert(false);
                } else {
                    assert(pre[i] == s.last());
                    assert(pre.contains(s.last()));
                    assert(false);
                }
            }
        }
    }
}

/// Scans a declaration list for the first duplicated name.
pub fn find_duplicate(names: &Vec<Name>) -> (r: Option<Name>)
    ensures
        match r {
            Option::Some(d) => dup_in(names@.map_values(|n: Name| n@)) == Some(d@),
            Option::None => dup_in(names@.map_values(|n: Name| n@)) is None,
        },
{
    let ghost s = names@.map_values(|n: Name| n@);
    let mut j: usize = 0;
    while j < names.len()
        invariant
            j <= names.len(),
            s == names@.map_values(|n: Name| n@),
            s.len() == names@.len(),
            dup_in(s.take(j as int)) is None,
        decreases names.len() - j,
    {
        let mut i: usize = 0;
        while i < j
            invariant
                i <= j,
                j < names.len(),
                s == names@.map_values(|n: Name| n@),
                s.len() == names@.len(),
                dup_in(s.take(j as int)) is None,
                forall|k: int| 0 <= k < i ==> s.take(j as int)[k] != s[j as int],
            decreases j - i,
        {
            proof {
                assert(s[i as int] == names@[i as int]@);
                assert(s[j as int] == names@[j as int]@);
                assert(s.take(j as int)[i as int] == s[i as int]);
            }
            if names[i].same(&names[j]) {
                let d = Name { path: String::from_str(names[j].path.as_str()) };
                proof {
                    assert(s.take(j as int).contains(s[j as int]));
                    assert(s.take(j as int + 1).drop_last() =~= s.take(j as int));
                    assert(s.take(j as int + 1).last() == s[j as int]);
                    lemma_dup_prefix(s, j as int + 1);
                }
                return Some(d);
            }
            i = i + 1;
        }
        proof {
            assert(s.take(j as int + 1).drop_last() =~= s.take(j as int));
            assert(s.take(j as int + 1).last() == s[j as int]);
            assert(!s.take(j as int).contains(s[j as int])) by {
                if s.take(j as int).contains(s[j as int]) {
                    let k = choose|k: int|
                        0 <= k < j && s.take(j as int)[k] == s[j as int];
                    assert(false);
                }
            }
        }
        j = j + 1;
    }
    proof {
        assert(s.take(s.len() as int) =~= s);
    }
    None
}

/// A duplicate found in a prefix stays the duplicate of the whole
/// list: later declarations cannot displace the earliest repetition.
pub proof fn lemma_dup_prefix(s: Seq<Seq<char>>, j: int)
    requires
        0 <= j <= s.len(),
        dup_in(s.take(j)) is Some,
    ensures
        dup_in(s) == dup_in(s.take(j)),
    decreases s.len() - j,
{
    if j == s.len() {
        assert(s.take(j) =~= s);
    } else {
        assert(s.take(j + 1).drop_last() =~= s.take(j));
        lemma_dup_prefix(s, j + 1);
    }
}


// ------------------------------------------------------------------
// Laws of hint resolution.
// ------------------------------------------------------------------

/// The hint "i32" resolves to the primitive with no back-reference,
/// whatever declarations are in scope.
pub proof fn lemma_primitive_hint(frames: Seq<Seq<(Seq<char>, Seq<char>)>>)
    ensures
        resolve_hint_spec(frames, seq!['i', '3', '2']) == Ok::<TypeModel, ErrorModel>(
            TypeModel { kind: KindModel::Int32, refs: None },
        ),
{
}

/// If one frame declares the hint, the whole lookup finds a canonical
/// name: declarations reachable from the scope are never missed.
pub proof fn lemma_frame_reachable(entries: Seq<(Seq<char>, Seq<char>)>, hint: Seq<char>)
    requires
        exists|e: int| 0 <= e < entries.len() && entries[e].0 == hint,
    ensures
        lookup_frame(entries, hint) is Some,
    decreases entries.len(),
{
    if entries.first().0 == hint {
    } else {
        let e = choose|e: int| 0 <= e < entries.len() && entries[e].0 == hint;
        assert(e != 0);
        assert(entries.drop_first()[e - 1].0 == hint);
        lemma_frame_reachable(entries.drop_first(), hint);
    }
}

/// A data declaration visible in any frame of the stack is found.
pub proof fn lemma_lookup_reachable(frames: Seq<Seq<(Seq<char>, Seq<char>)>>, hint: Seq<char>)
    requires
        exists|k: int, e: int|
            0 <= k < frames.len() && 0 <= e < frames[k].len() && frames[k][e].0 == hint,
    ensures
        lookup_data(frames, hint) is Some,
    decreases frames.len(),
{
    let (k, e) = choose|k: int, e: int|
        0 <= k < frames.len() && 0 <= e < frames[k].len() && frames[k][e].0 == hint;
    if lookup_frame(frames.last(), hint) is Some {
    } else {
        if k == frames.len() - 1 {
            lemma_frame_reachable(frames.last(), hint);
            assert(false);
        } else {
            assert(frames.drop_last()[k][e].0 == hint);
            lemma_lookup_reachable(frames.drop_last(), hint);
        }
    }
}

/// A reachable data declaration resolves to a user-defined type whose
/// back-reference is the canonical name the nearest enclosing
/// declaration carries.
pub proof fn lemma_data_hint(frames: Seq<Seq<(Seq<char>, Seq<char>)>>, hint: Seq<char>)
    requires
        hint != seq!['i', '3', '2'],
        exists|k: int, e: int|
            0 <= k < frames.len() && 0 <= e < frames[k].len() && frames[k][e].0 == hint,
    ensures
        lookup_data(frames, hint) is Some,
        resolve_hint_spec(frames, hint) == Ok::<TypeModel, ErrorModel>(
            TypeModel { kind: KindModel::Data, refs: Some(lookup_data(frames, hint)->Some_0) },
        ),
{
    lemma_lookup_reachable(frames, hint);
}

/// A hint matching no primitive and no reachable declaration fails
/// with the unresolved-type error carrying that hint.
pub proof fn lemma_unknown_hint(frames: Seq<Seq<(Seq<char>, Seq<char>)>>, hint: Seq<char>)
    requires
        hint != seq!['i', '3', '2'],
        lookup_data(frames, hint) is None,
    ensures
        resolve_hint_spec(frames, hint) == Err::<TypeModel, ErrorModel>(
            ErrorModel::UnresolvedType(Some(hint)),
        ),
{
}

} // verus!
