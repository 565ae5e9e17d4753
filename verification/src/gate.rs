use vstd::prelude::*;
use vstd::string::*;

use crate::codec::{
    enc_annotation, enc_annotations, enc_arr, enc_bind, enc_binds, enc_data, enc_detail,
    enc_details, enc_function, enc_hdr, enc_kind, enc_list, enc_module, enc_str, enc_system,
    enc_type, enc_unit, ok_annotation, ok_bind, ok_binds, ok_data, ok_detail, ok_function,
    ok_annotations, ok_datas, ok_details, ok_functions, ok_module, ok_modules, ok_str,
    ok_type, ok_unit, ok_units, serializable, LEN_MAX, TAG_ARR, TAG_NIL, TAG_STR,
};
use crate::error::{CompileError, ErrorModel};
use crate::name::Name;
use crate::structure::{
    binds_view, Bind, DataModel, FunctionModel, ModuleModel, SysDCAnnotation, SysDCData,
    SysDCFunction, SysDCModule, SysDCSpawnDetail, SysDCSystem, SysDCUnit, UnitModel,
};
use crate::types::{solved_kind, Type, TypeKind};

verus! {

// ------------------------------------------------------------------
// The export side of the serialization gate. Every emitter returns
// whether its piece was serializable; on success it has appended
// exactly that piece's encoding.
// ------------------------------------------------------------------

/// Concatenating encodings distributes over list concatenation.
pub proof fn lemma_enc_list_concat<A>(s1: Seq<A>, s2: Seq<A>, f: spec_fn(A) -> Seq<u8>)
    ensures
        enc_list(s1 + s2, f) == enc_list(s1, f) + enc_list(s2, f),
    decreases s1.len(),
{
    if s1.len() == 0 {
        assert(s1 + s2 =~= s2);
        assert(enc_list(s1, f) + enc_list(s2, f) =~= enc_list(s2, f));
    } else {
        assert((s1 + s2).first() == s1.first());
        assert((s1 + s2).drop_first() =~= s1.drop_first() + s2);
        lemma_enc_list_concat(s1.drop_first(), s2, f);
        assert(enc_list(s1 + s2, f) =~= enc_list(s1, f) + enc_list(s2, f));
    }
}

/// One more item extends the encoded prefix by that item's encoding.
pub proof fn lemma_enc_list_snoc<A>(s: Seq<A>, i: int, f: spec_fn(A) -> Seq<u8>)
    requires
        0 <= i < s.len(),
    ensures
        enc_list(s.take(i + 1), f) == enc_list(s.take(i), f) + f(s[i]),
{
    let single = seq![s[i]];
    assert(s.take(i + 1) =~= s.take(i) + single);
    lemma_enc_list_concat(s.take(i), single, f);
    assert(single.first() == s[i]);
    assert(single.drop_first() =~= Seq::<A>::empty());
    assert(enc_list(single, f) == f(s[i]) + enc_list(Seq::<A>::empty(), f));
    assert(f(s[i]) + Seq::<u8>::empty() =~= f(s[i]));
}

fn emit_hdr(tag: u8, n: usize, out: &mut Vec<u8>) -> (ok: bool)
    ensures
        ok == (n <= LEN_MAX),
        ok ==> final(out)@ == old(out)@ + enc_hdr(tag, n as nat),
{
    if n > LEN_MAX {
        return false;
    }
    out.push(tag);
    out.push((n / 256) as u8);
    out.push((n % 256) as u8);
    proof {
        assert(out@ =~= old(out)@ + enc_hdr(tag, n as nat));
    }
    true
}

fn emit_str(s: &str, out: &mut Vec<u8>) -> (ok: bool)
    ensures
        ok == ok_str(s@),
        ok ==> final(out)@ == old(out)@ + enc_str(s@),
{
    let mut bv = s.as_bytes_vec();
    if !emit_hdr(TAG_STR, bv.len(), out) {
        return false;
    }
    let ghost mid = out@;
    out.append(&mut bv);
    proof {
        assert(out@ =~= old(out)@ + enc_str(s@));
    }
    true
}

fn emit_kind(k: &TypeKind, out: &mut Vec<u8>) -> (ok: bool)
    ensures
        ok == solved_kind(k@),
        ok ==> final(out)@ == old(out)@ + enc_kind(k@),
{
    match k {
        TypeKind::Int32 => {
            out.push(TAG_STR);
            out.push(0);
            out.push(3);
            out.push(105);
            out.push(51);
            out.push(50);
            proof {
                assert(out@ =~= old(out)@ + enc_kind(k@));
            }
            true
        },
        TypeKind::Data => {
            out.push(TAG_STR);
            out.push(0);
            out.push(4);
            out.push(68);
            out.push(97);
            out.push(116);
            out.push(97);
            proof {
                assert(out@ =~= old(out)@ + enc_kind(k@));
            }
            true
        },
        TypeKind::Unsolved(_) => false,
        TypeKind::UnsolvedNoHint => false,
    }
}

fn emit_type(t: &Type, out: &mut Vec<u8>) -> (ok: bool)
    ensures
        ok == ok_type(t@),
        ok ==> final(out)@ == old(out)@ + enc_type(t@),
{
    let h = emit_hdr(TAG_ARR, 2, out);
    if !emit_kind(&t.kind, out) {
        return false;
    }
    match &t.refs {
        Option::None => {
            out.push(TAG_NIL);
        },
        Option::Some(n) => {
            if !emit_str(n.path.as_str(), out) {
                return false;
            }
        },
    }
    proof {
        assert(out@ =~= old(out)@ + enc_type(t@));
    }
    true
}

fn emit_bind(b: &Bind, out: &mut Vec<u8>) -> (ok: bool)
    ensures
        ok == ok_bind(b@),
        ok ==> final(out)@ == old(out)@ + enc_bind(b@),
{
    let h = emit_hdr(TAG_ARR, 2, out);
    if !emit_str(b.name.path.as_str(), out) {
        return false;
    }
    if !emit_type(&b.ty, out) {
        return false;
    }
    proof {
        assert(out@ =~= old(out)@ + enc_bind(b@));
    }
    true
}

fn emit_binds(v: &Vec<Bind>, out: &mut Vec<u8>) -> (ok: bool)
    ensures
        ok == ok_binds(binds_view(v@)),
        ok ==> final(out)@ == old(out)@ + enc_binds(binds_view(v@)),
{
    let ghost s = binds_view(v@);
    if !emit_hdr(TAG_ARR, v.len(), out) {
        return false;
    }
    let ghost o1 = out@;
    let mut i: usize = 0;
    while i < v.len()
        invariant
            i <= v.len(),
            s == binds_view(v@),
            s.len() == v@.len(),
            o1 == old(out)@ + enc_hdr(TAG_ARR, v@.len() as nat),
            out@ == o1 + enc_list(s.take(i as int), (|b: crate::structure::BindModel| enc_bind(b))),
            forall|j: int| 0 <= j < i ==> ok_bind(#[trigger] s[j]),
        decreases v.len() - i,
    {
        assert(s[i as int] == v@[i as int]@);
        if !emit_bind(&v[i], out) {
            return false;
        }
        proof {
            lemma_enc_list_snoc(s, i as int, |b: crate::structure::BindModel| enc_bind(b));
            assert(out@ =~= o1 + enc_list(s.take(i as int + 1), (|b: crate::structure::BindModel| enc_bind(b))));
        }
        i = i + 1;
    }
    proof {
        assert(s.take(s.len() as int) =~= s);
        assert(out@ =~= old(out)@ + enc_binds(s));
    }
    true
}

#[verifier::rlimit(100)]
#[verifier::spinoff_prover]
fn emit_detail(d: &SysDCSpawnDetail, out: &mut Vec<u8>) -> (ok: bool)
    ensures
        ok == ok_detail(d@),
        ok ==> final(out)@ == old(out)@ + enc_detail(d@),
{
    match d {
        SysDCSpawnDetail::Use(n, t) => {
            out.push(0);
            let h = emit_hdr(TAG_ARR, 2, out);
            if !emit_str(n.path.as_str(), out) {
                return false;
            }
            if !emit_type(t, out) {
                return false;
            }
            proof {
                assert(out@ =~= old(out)@ + enc_detail(d@));
            }
            true
        },
        SysDCSpawnDetail::LetTo { name, func, args } => {
            out.push(1);
            if !emit_str(name.path.as_str(), out) {
                return false;
            }
            if !emit_bind(func, out) {
                return false;
            }
            if !emit_binds(args, out) {
                return false;
            }
            proof {
                assert(out@ =~= old(out)@ + enc_detail(d@));
            }
            true
        },
        SysDCSpawnDetail::Other(n, t) => {
            out.push(2);
            let h = emit_hdr(TAG_ARR, 2, out);
            if !emit_str(n.path.as_str(), out) {
                return false;
            }
            if !emit_type(t, out) {
                return false;
            }
            proof {
                assert(out@ =~= old(out)@ + enc_detail(d@));
            }
            true
        },
    }
}

#[verifier::rlimit(100)]
#[verifier::spinoff_prover]
fn emit_details(v: &Vec<SysDCSpawnDetail>, out: &mut Vec<u8>) -> (ok: bool)
    ensures
        ok == ok_details(v@.map_values(|d: SysDCSpawnDetail| d@)),
        ok ==> final(out)@ == old(out)@ + enc_details(
            v@.map_values(|d: SysDCSpawnDetail| d@),
        ),
{
    let ghost s = v@.map_values(|d: SysDCSpawnDetail| d@);
    if !emit_hdr(TAG_ARR, v.len(), out) {
        return false;
    }
    let ghost o1 = out@;
    let mut i: usize = 0;
    while i < v.len()
        invariant
            i <= v.len(),
            s == v@.map_values(|d: SysDCSpawnDetail| d@),
            s.len() == v@.len(),
            o1 == old(out)@ + enc_hdr(TAG_ARR, v@.len() as nat),
            out@ == o1 + enc_list(s.take(i as int), (|d2: crate::structure::DetailModel| enc_detail(d2))),
            forall|j: int| 0 <= j < i ==> ok_detail(#[trigger] s[j]),
        decreases v.len() - i,
    {
        assert(s[i as int] == v@[i as int]@);
        if !emit_detail(&v[i], out) {
            proof {
                assert(v@.map_values(|d: SysDCSpawnDetail| d@) == s);
                assert(!ok_details(s));
            }
            return false;
        }
        proof {
            lemma_enc_list_snoc(s, i as int, |d2: crate::structure::DetailModel| enc_detail(d2));
            assert(out@ =~= o1 + enc_list(s.take(i as int + 1), (|d2: crate::structure::DetailModel| enc_detail(d2))));
        }
        i = i + 1;
    }
    proof {
        assert(v@.map_values(|d: SysDCSpawnDetail| d@) == s);
        assert(ok_details(s));
        assert(s.take(s.len() as int) =~= s);
        assert(out@ =~= old(out)@ + enc_details(s));
    }
    true
}

#[verifier::rlimit(100)]
#[verifier::spinoff_prover]
fn emit_annotation(a: &SysDCAnnotation, out: &mut Vec<u8>) -> (ok: bool)
    ensures
        ok == ok_annotation(a@),
        ok ==> final(out)@ == old(out)@ + enc_annotation(a@),
{
    match a {
        SysDCAnnotation::Modify { target, uses } => {
            out.push(0);
            if !emit_bind(target, out) {
                return false;
            }
            if !emit_binds(uses, out) {
                return false;
            }
            proof {
                assert(out@ =~= old(out)@ + enc_annotation(a@));
            }
            true
        },
        SysDCAnnotation::Spawn { result, details } => {
            out.push(1);
            if !emit_bind(result, out) {
                return false;
            }
            if !emit_details(details, out) {
                return false;
            }
            proof {
                assert(out@ =~= old(out)@ + enc_annotation(a@));
            }
            true
        },
    }
}

#[verifier::rlimit(100)]
#[verifier::spinoff_prover]
fn emit_annotations(v: &Vec<SysDCAnnotation>, out: &mut Vec<u8>) -> (ok: bool)
    ensures
        ok == ok_annotations(v@.map_values(|a: SysDCAnnotation| a@)),
        ok ==> final(out)@ == old(out)@ + enc_annotations(
            v@.map_values(|a: SysDCAnnotation| a@),
        ),
{
    let ghost s = v@.map_values(|a: SysDCAnnotation| a@);
    if !emit_hdr(TAG_ARR, v.len(), out) {
        return false;
    }
    let ghost o1 = out@;
    let mut i: usize = 0;
    while i < v.len()
        invariant
            i <= v.len(),
            s == v@.map_values(|a: SysDCAnnotation| a@),
            s.len() == v@.len(),
            o1 == old(out)@ + enc_hdr(TAG_ARR, v@.len() as nat),
            out@ == o1 + enc_list(s.take(i as int), (|a2: crate::structure::AnnotationModel| enc_annotation(a2))),
            forall|j: int| 0 <= j < i ==> ok_annotation(#[trigger] s[j]),
        decreases v.len() - i,
    {
        assert(s[i as int] == v@[i as int]@);
        if !emit_annotation(&v[i], out) {
            proof {
                assert(v@.map_values(|a: SysDCAnnotation| a@) == s);
                assert(!ok_annotations(s));
            }
            return false;
        }
        proof {
            lemma_enc_list_snoc(s, i as int, |a2: crate::structure::AnnotationModel| enc_annotation(a2));
            assert(out@ =~= o1 + enc_list(s.take(i as int + 1), (|a2: crate::structure::AnnotationModel| enc_annotation(a2))));
        }
        i = i + 1;
    }
    proof {
        assert(v@.map_values(|a: SysDCAnnotation| a@) == s);
        assert(ok_annotations(s));
        assert(s.take(s.len() as int) =~= s);
        assert(out@ =~= old(out)@ + enc_annotations(s));
    }
    true
}

#[verifier::rlimit(100)]
#[verifier::spinoff_prover]
fn emit_function(f: &SysDCFunction, out: &mut Vec<u8>) -> (ok: bool)
    ensures
        ok == ok_function(f@),
        ok ==> final(out)@ == old(out)@ + enc_function(f@),
{
    let h = emit_hdr(TAG_ARR, 3, out);
    if !emit_str(f.name.path.as_str(), out) {
        return false;
    }
    if !emit_binds(&f.args, out) {
        return false;
    }
    if !emit_annotations(&f.annotations, out) {
        return false;
    }
    proof {
        assert(out@ =~= old(out)@ + enc_function(f@));
    }
    true
}

#[verifier::rlimit(100)]
#[verifier::spinoff_prover]
fn emit_data(d: &SysDCData, out: &mut Vec<u8>) -> (ok: bool)
    ensures
        ok == ok_data(d@),
        ok ==> final(out)@ == old(out)@ + enc_data(d@),
{
    let h = emit_hdr(TAG_ARR, 2, out);
    if !emit_str(d.name.path.as_str(), out) {
        return false;
    }
    if !emit_binds(&d.members, out) {
        return false;
    }
    proof {
        assert(out@ =~= old(out)@ + enc_data(d@));
    }
    true
}

#[verifier::rlimit(100)]
#[verifier::spinoff_prover]
fn emit_datas(v: &Vec<SysDCData>, out: &mut Vec<u8>) -> (ok: bool)
    ensures
        ok == ok_datas(v@.map_values(|d: SysDCData| d@)),
        ok ==> final(out)@ == old(out)@ + enc_arr(
            v@.map_values(|d: SysDCData| d@),
            |d: DataModel| enc_data(d),
        ),
{
    let ghost s = v@.map_values(|d: SysDCData| d@);
    if !emit_hdr(TAG_ARR, v.len(), out) {
        return false;
    }
    let ghost o1 = out@;
    let mut i: usize = 0;
    while i < v.len()
        invariant
            i <= v.len(),
            s == v@.map_values(|d: SysDCData| d@),
            s.len() == v@.len(),
            o1 == old(out)@ + enc_hdr(TAG_ARR, v@.len() as nat),
            out@ == o1 + enc_list(s.take(i as int), (|d2: DataModel| enc_data(d2))),
            forall|j: int| 0 <= j < i ==> ok_data(#[trigger] s[j]),
        decreases v.len() - i,
    {
        assert(s[i as int] == v@[i as int]@);
        if !emit_data(&v[i], out) {
            proof {
                assert(v@.map_values(|d: SysDCData| d@) == s);
                assert(!ok_datas(s));
            }
            return false;
        }
        proof {
            lemma_enc_list_snoc(s, i as int, |d2: DataModel| enc_data(d2));
            assert(out@ =~= o1 + enc_list(s.take(i as int + 1), (|d2: DataModel| enc_data(d2))));
        }
        i = i + 1;
    }
    proof {
        assert(v@.map_values(|d: SysDCData| d@) == s);
        assert(ok_datas(s));
        assert(s.take(s.len() as int) =~= s);
        assert(out@ =~= old(out)@ + enc_arr(s, (|d2: DataModel| enc_data(d2))));
    }
    true
}

#[verifier::rlimit(100)]
#[verifier::spinoff_prover]
fn emit_functions(v: &Vec<SysDCFunction>, out: &mut Vec<u8>) -> (ok: bool)
    ensures
        ok == ok_functions(v@.map_values(|f: SysDCFunction| f@)),
        ok ==> final(out)@ == old(out)@ + enc_arr(
            v@.map_values(|f: SysDCFunction| f@),
            |f: FunctionModel| enc_function(f),
        ),
{
    let ghost s = v@.map_values(|f: SysDCFunction| f@);
    if !emit_hdr(TAG_ARR, v.len(), out) {
        return false;
    }
    let ghost o1 = out@;
    let mut i: usize = 0;
    while i < v.len()
        invariant
            i <= v.len(),
            s == v@.map_values(|f: SysDCFunction| f@),
            s.len() == v@.len(),
            o1 == old(out)@ + enc_hdr(TAG_ARR, v@.len() as nat),
            out@ == o1 + enc_list(s.take(i as int), (|f2: FunctionModel| enc_function(f2))),
            forall|j: int| 0 <= j < i ==> ok_function(#[trigger] s[j]),
        decreases v.len() - i,
    {
        assert(s[i as int] == v@[i as int]@);
        if !emit_function(&v[i], out) {
            proof {
                assert(v@.map_values(|f: SysDCFunction| f@) == s);
                assert(!ok_functions(s));
            }
            return false;
        }
        proof {
            lemma_enc_list_snoc(s, i as int, |f2: FunctionModel| enc_function(f2));
            assert(out@ =~= o1 + enc_list(s.take(i as int + 1), (|f2: FunctionModel| enc_function(f2))));
        }
        i = i + 1;
    }
    proof {
        assert(v@.map_values(|f: SysDCFunction| f@) == s);
        assert(ok_functions(s));
        assert(s.take(s.len() as int) =~= s);
        assert(out@ =~= old(out)@ + enc_arr(s, (|f2: FunctionModel| enc_function(f2))));
    }
    true
}

#[verifier::rlimit(100)]
#[verifier::spinoff_prover]
fn emit_module(m: &SysDCModule, out: &mut Vec<u8>) -> (ok: bool)
    ensures
        ok == ok_module(m@),
        ok ==> final(out)@ == old(out)@ + enc_module(m@),
{
    let h = emit_hdr(TAG_ARR, 3, out);
    if !emit_str(m.name.path.as_str(), out) {
        return false;
    }
    if !emit_datas(&m.datas, out) {
        return false;
    }
    if !emit_functions(&m.functions, out) {
        return false;
    }
    proof {
        assert(out@ =~= old(out)@ + enc_module(m@));
    }
    true
}

#[verifier::rlimit(100)]
#[verifier::spinoff_prover]
fn emit_unit(u: &SysDCUnit, out: &mut Vec<u8>) -> (ok: bool)
    ensures
        ok == ok_unit(u@),
        ok ==> final(out)@ == old(out)@ + enc_unit(u@),
{
    let ghost s = u.modules@.map_values(|m: SysDCModule| m@);
    let h = emit_hdr(TAG_ARR, 2, out);
    if !emit_str(u.name.path.as_str(), out) {
        return false;
    }
    let ghost o0 = out@;
    if !emit_hdr(TAG_ARR, u.modules.len(), out) {
        return false;
    }
    let ghost o1 = out@;
    let mut i: usize = 0;
    while i < u.modules.len()
        invariant
            i <= u.modules.len(),
            s == u.modules@.map_values(|m: SysDCModule| m@),
            s.len() == u.modules@.len(),
            o1 == o0 + enc_hdr(TAG_ARR, u.modules@.len() as nat),
            out@ == o1 + enc_list(s.take(i as int), (|m2: ModuleModel| enc_module(m2))),
            forall|j: int| 0 <= j < i ==> ok_module(#[trigger] s[j]),
        decreases u.modules.len() - i,
    {
        assert(s[i as int] == u.modules@[i as int]@);
        if !emit_module(&u.modules[i], out) {
            proof {
                assert(u@.modules == s);
                assert(!ok_modules(s));
            }
            return false;
        }
        proof {
            lemma_enc_list_snoc(s, i as int, |m2: ModuleModel| enc_module(m2));
            assert(out@ =~= o1 + enc_list(s.take(i as int + 1), (|m2: ModuleModel| enc_module(m2))));
        }
        i = i + 1;
    }
    proof {
        assert(u@.modules == s);
        assert(ok_modules(s));
        assert(s.take(s.len() as int) =~= s);
        assert(out@ =~= old(out)@ + enc_unit(u@));
    }
    true
}

#[verifier::rlimit(100)]
#[verifier::spinoff_prover]
fn emit_system(m: &SysDCSystem, out: &mut Vec<u8>) -> (ok: bool)
    ensures
        ok == serializable(m@),
        ok ==> final(out)@ == old(out)@ + enc_system(m@),
{
    let ghost s = m.units@.map_values(|u: SysDCUnit| u@);
    if !emit_hdr(TAG_ARR, m.units.len(), out) {
        return false;
    }
    let ghost o1 = out@;
    let mut i: usize = 0;
    while i < m.units.len()
        invariant
            i <= m.units.len(),
            s == m.units@.map_values(|u: SysDCUnit| u@),
            s.len() == m.units@.len(),
            o1 == old(out)@ + enc_hdr(TAG_ARR, m.units@.len() as nat),
            out@ == o1 + enc_list(s.take(i as int), (|u2: UnitModel| enc_unit(u2))),
            forall|j: int| 0 <= j < i ==> ok_unit(#[trigger] s[j]),
        decreases m.units.len() - i,
    {
        assert(s[i as int] == m.units@[i as int]@);
        if !emit_unit(&m.units[i], out) {
            proof {
                assert(m@.units == s);
                assert(!ok_units(s));
            }
            return false;
        }
        proof {
            lemma_enc_list_snoc(s, i as int, |u2: UnitModel| enc_unit(u2));
            assert(out@ =~= o1 + enc_list(s.take(i as int + 1), (|u2: UnitModel| enc_unit(u2))));
        }
        i = i + 1;
    }
    proof {
        assert(m@.units == s);
        assert(ok_units(s));
        assert(s.take(s.len() as int) =~= s);
        assert(out@ =~= old(out)@ + enc_system(m@));
    }
    true
}

/// Exports a resolved model as its binary encoding. Succeeds exactly
/// on serializable models; a model still holding a placeholder type is
/// refused whole — nothing is written for it. A solved model whose
/// strings or collections exceed the 16-bit wire headers is refused
/// the same way: `serializable` states both conditions exactly.
pub fn encode_system(m: &SysDCSystem) -> (r: Result<Vec<u8>, CompileError>)
    ensures
        match r {
            Result::Ok(b) => serializable(m@) && b@ == enc_system(m@),
            Result::Err(e) => !serializable(m@) && e@ == ErrorModel::SerializationInvariant,
        },
{
    let mut out: Vec<u8> = Vec::new();
    if emit_system(m, &mut out) {
        proof {
            assert(out@ =~= Seq::<u8>::empty() + enc_system(m@));
        }
        Ok(out)
    } else {
        Err(CompileError::SerializationInvariantError)
    }
}

/// Exports a single type kind as its fixed string tag. Placeholder
/// kinds are refused.
pub fn encode_type_kind(k: &TypeKind) -> (r: Result<Vec<u8>, CompileError>)
    ensures
        match r {
            Result::Ok(b) => solved_kind(k@) && b@ == enc_kind(k@),
            Result::Err(e) => !solved_kind(k@) && e@ == ErrorModel::SerializationInvariant,
        },
{
    let mut out: Vec<u8> = Vec::new();
    if emit_kind(k, &mut out) {
        proof {
            assert(out@ =~= Seq::<u8>::empty() + enc_kind(k@));
        }
        Ok(out)
    } else {
        Err(CompileError::SerializationInvariantError)
    }
}

} // verus!
