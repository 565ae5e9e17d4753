use vstd::prelude::*;
use vstd::utf8::{decode_utf8, valid_utf8};

use crate::codec::{
    dec_annotation, dec_annotations, dec_arr, dec_bind, dec_binds, dec_data, dec_detail,
    dec_details, dec_function, dec_kind, dec_len, dec_list, dec_module, dec_refs, dec_str,
    dec_system, dec_type, dec_unit, i32_bytes, data_bytes, LEN_MAX, TAG_ARR, TAG_NIL, TAG_STR,
};
use crate::codec_lemmas::lemma_skip_skip;
use crate::name::Name;
use crate::structure::{
    binds_view, Bind, SysDCAnnotation, SysDCData, SysDCFunction, SysDCModule, SysDCSpawnDetail,
    SysDCSystem, SysDCUnit,
};
use crate::types::{Type, TypeKind};

verus! {

// ------------------------------------------------------------------
// The import side of the serialization gate: an executable decoder
// that computes exactly what the specification decoders describe.
// Each reader takes a position, and on success returns the decoded
// value and the position after it.
// ------------------------------------------------------------------

/// Relies on String::from_utf8: it succeeds exactly on valid UTF-8
/// input, and the characters of the returned string are the scalars
/// that the bytes encode.
#[verifier::external_body]
fn string_from_utf8(bytes: Vec<u8>) -> (r: Option<String>)
    ensures
        match r {
            Option::Some(s) => valid_utf8(bytes@) && s@ == decode_utf8(bytes@),
            Option::None => !valid_utf8(bytes@),
        },
{
    match String::from_utf8(bytes) {
        Ok(s) => Some(s),
        Err(_) => None,
    }
}

fn read_hdr(bytes: &Vec<u8>, pos: usize, tag: u8) -> (r: Option<usize>)
    requires
        pos <= bytes@.len(),
    ensures
        match r {
            Option::Some(n) => dec_len(bytes@.skip(pos as int), tag) == Some(n as nat) && n
                <= LEN_MAX && pos + 3 <= bytes@.len() && bytes@.len() <= usize::MAX,
            Option::None => dec_len(bytes@.skip(pos as int), tag) is None,
        },
{
    if bytes.len() - pos < 3 {
        return None;
    }
    if bytes[pos] != tag {
        proof {
            assert(bytes@.skip(pos as int)[0] == bytes@[pos as int]);
        }
        return None;
    }
    let n: usize = (bytes[pos + 1] as usize) * 256 + (bytes[pos + 2] as usize);
    proof {
        let s = bytes@.skip(pos as int);
        assert(s[0] == bytes@[pos as int]);
        assert(s[1] == bytes@[pos as int + 1]);
        assert(s[2] == bytes@[pos as int + 2]);
    }
    Some(n)
}

fn read_str(bytes: &Vec<u8>, pos: usize) -> (r: Option<(String, usize)>)
    requires
        pos <= bytes@.len(),
    ensures
        match r {
            Option::Some((v, end)) => pos <= end <= bytes@.len() && dec_str(
                bytes@.skip(pos as int),
            ) == Some((v@, end - pos as int)),
            Option::None => dec_str(bytes@.skip(pos as int)) is None,
        },
{
    proof {
        reveal(crate::codec::dec_str);
    }
    let n = match read_hdr(bytes, pos, TAG_STR) {
        Option::None => {
            return None;
        },
        Option::Some(n) => n,
    };
    if (bytes.len() - pos) - 3 < n {
        return None;
    }
    let mut v: Vec<u8> = Vec::new();
    let mut i: usize = 0;
    while i < n
        invariant
            pos + 3 + n <= bytes@.len(),
            bytes@.len() <= usize::MAX,
            i <= n,
            v@ == bytes@.subrange((pos + 3) as int, (pos + 3 + i) as int),
        decreases n - i,
    {
        v.push(bytes[pos + 3 + i]);
        proof {
            assert(v@ =~= bytes@.subrange((pos + 3) as int, (pos + 3 + i + 1) as int));
        }
        i = i + 1;
    }
    proof {
        assert(v@ =~= bytes@.skip(pos as int).subrange(3, 3 + n as int));
    }
    match string_from_utf8(v) {
        Option::Some(st) => Some((st, pos + 3 + n)),
        Option::None => None,
    }
}

fn read_kind(bytes: &Vec<u8>, pos: usize) -> (r: Option<(TypeKind, usize)>)
    requires
        pos <= bytes@.len(),
    ensures
        match r {
            Option::Some((v, end)) => pos <= end <= bytes@.len() && dec_kind(
                bytes@.skip(pos as int),
            ) == Some((v@, end - pos as int)),
            Option::None => dec_kind(bytes@.skip(pos as int)) is None,
        },
{
    proof {
        reveal(crate::codec::dec_kind);
    }
    let n = match read_hdr(bytes, pos, TAG_STR) {
        Option::None => {
            return None;
        },
        Option::Some(n) => n,
    };
    let ghost s = bytes@.skip(pos as int);
    if n == 3 {
        if (bytes.len() - pos) - 3 < 3 {
            return None;
        }
        let hit = bytes[pos + 3] == 105 && bytes[pos + 4] == 51 && bytes[pos + 5] == 50;
        proof {
            assert(s.subrange(3, 6) =~= seq![
                bytes@[pos as int + 3],
                bytes@[pos as int + 4],
                bytes@[pos as int + 5],
            ]);
            if !hit {
                assert(s.subrange(3, 6) != i32_bytes()) by {
                    if s.subrange(3, 6) == i32_bytes() {
                        assert(s.subrange(3, 6)[0] == 105u8);
                        assert(s.subrange(3, 6)[1] == 51u8);
                        assert(s.subrange(3, 6)[2] == 50u8);
                    }
                }
            } else {
                assert(s.subrange(3, 6) =~= i32_bytes());
            }
        }
        if hit {
            Some((TypeKind::Int32, pos + 6))
        } else {
            None
        }
    } else if n == 4 {
        if (bytes.len() - pos) - 3 < 4 {
            return None;
        }
        let hit = bytes[pos + 3] == 68 && bytes[pos + 4] == 97 && bytes[pos + 5] == 116 && bytes[
            pos + 6] == 97;
        proof {
            assert(s.subrange(3, 7) =~= seq![
                bytes@[pos as int + 3],
                bytes@[pos as int + 4],
                bytes@[pos as int + 5],
                bytes@[pos as int + 6],
            ]);
            if !hit {
                assert(s.subrange(3, 7) != data_bytes()) by {
                    if s.subrange(3, 7) == data_bytes() {
                        assert(s.subrange(3, 7)[0] == 68u8);
                        assert(s.subrange(3, 7)[1] == 97u8);
                        assert(s.subrange(3, 7)[2] == 116u8);
                        assert(s.subrange(3, 7)[3] == 97u8);
                    }
                }
            } else {
                assert(s.subrange(3, 7) =~= data_bytes());
            }
        }
        if hit {
            Some((TypeKind::Data, pos + 7))
        } else {
            None
        }
    } else {
        None
    }
}

fn read_refs(bytes: &Vec<u8>, pos: usize) -> (r: Option<(Option<Name>, usize)>)
    requires
        pos <= bytes@.len(),
    ensures
        match r {
            Option::Some((v, end)) => pos <= end <= bytes@.len() && dec_refs(
                bytes@.skip(pos as int),
            ) == Some(
                (
                    match v {
                        Option::Some(n) => Some(n@),
                        Option::None => None,
                    },
                    end - pos as int,
                ),
            ),
            Option::None => dec_refs(bytes@.skip(pos as int)) is None,
        },
{
    proof {
        reveal(crate::codec::dec_refs);
    }
    if bytes.len() - pos >= 1 && bytes[pos] == TAG_NIL {
        proof {
            assert(bytes@.skip(pos as int)[0] == bytes@[pos as int]);
        }
        return Some((None, pos + 1));
    }
    proof {
        if bytes@.len() - pos >= 1 {
            assert(bytes@.skip(pos as int)[0] == bytes@[pos as int]);
        }
    }
    match read_str(bytes, pos) {
        Option::None => None,
        Option::Some((st, end)) => Some((Some(Name { path: st }), end)),
    }
}

fn read_type(bytes: &Vec<u8>, pos: usize) -> (r: Option<(Type, usize)>)
    requires
        pos <= bytes@.len(),
    ensures
        match r {
            Option::Some((v, end)) => pos <= end <= bytes@.len() && dec_type(
                bytes@.skip(pos as int),
            ) == Some((v@, end - pos as int)),
            Option::None => dec_type(bytes@.skip(pos as int)) is None,
        },
{
    proof {
        reveal(crate::codec::dec_type);
    }
    let n = match read_hdr(bytes, pos, TAG_ARR) {
        Option::None => {
            return None;
        },
        Option::Some(n) => n,
    };
    if n != 2 {
        return None;
    }
    proof {
        lemma_skip_skip(bytes@, pos as int, 3);
    }
    let (k, p1) = match read_kind(bytes, pos + 3) {
        Option::None => {
            return None;
        },
        Option::Some(x) => x,
    };
    proof {
        lemma_skip_skip(bytes@, pos as int, p1 - pos as int);
    }
    let (rf, p2) = match read_refs(bytes, p1) {
        Option::None => {
            return None;
        },
        Option::Some(x) => x,
    };
    Some((Type { kind: k, refs: rf }, p2))
}

fn read_bind(bytes: &Vec<u8>, pos: usize) -> (r: Option<(Bind, usize)>)
    requires
        pos <= bytes@.len(),
    ensures
        match r {
            Option::Some((v, end)) => pos <= end <= bytes@.len() && dec_bind(
                bytes@.skip(pos as int),
            ) == Some((v@, end - pos as int)),
            Option::None => dec_bind(bytes@.skip(pos as int)) is None,
        },
{
    proof {
        reveal(crate::codec::dec_bind);
    }
    let n = match read_hdr(bytes, pos, TAG_ARR) {
        Option::None => {
            return None;
        },
        Option::Some(n) => n,
    };
    if n != 2 {
        return None;
    }
    proof {
        lemma_skip_skip(bytes@, pos as int, 3);
    }
    let (nm, p1) = match read_str(bytes, pos + 3) {
        Option::None => {
            return None;
        },
        Option::Some(x) => x,
    };
    proof {
        lemma_skip_skip(bytes@, pos as int, p1 - pos as int);
    }
    let (t, p2) = match read_type(bytes, p1) {
        Option::None => {
            return None;
        },
        Option::Some(x) => x,
    };
    Some((Bind { name: Name { path: nm }, ty: t }, p2))
}

fn read_binds_list(bytes: &Vec<u8>, pos: usize, n: usize) -> (r: Option<(Vec<Bind>, usize)>)
    requires
        pos <= bytes@.len(),
    ensures
        match r {
            Option::Some((v, end)) => pos <= end <= bytes@.len() && dec_list(
                bytes@.skip(pos as int),
                n as nat,
                |t: Seq<u8>| dec_bind(t),
            ) == Some((binds_view(v@), end - pos as int)),
            Option::None => dec_list(bytes@.skip(pos as int), n as nat, |t: Seq<u8>| dec_bind(t))
                is None,
        },
    decreases n,
{
    if n == 0 {
        proof {
            assert(binds_view(Seq::<Bind>::empty()) =~= Seq::<crate::structure::BindModel>::empty());
        }
        let v: Vec<Bind> = Vec::new();
        proof {
            assert(v@ =~= Seq::<Bind>::empty());
        }
        return Some((v, pos));
    }
    let (b, p1) = match read_bind(bytes, pos) {
        Option::None => {
            return None;
        },
        Option::Some(x) => x,
    };
    proof {
        lemma_skip_skip(bytes@, pos as int, p1 - pos as int);
    }
    let (mut v, end) = match read_binds_list(bytes, p1, n - 1) {
        Option::None => {
            return None;
        },
        Option::Some(x) => x,
    };
    let ghost tailv = v@;
    v.insert(0, b);
    proof {
        assert(binds_view(v@) =~= seq![b@] + binds_view(tailv));
    }
    Some((v, end))
}

fn read_binds(bytes: &Vec<u8>, pos: usize) -> (r: Option<(Vec<Bind>, usize)>)
    requires
        pos <= bytes@.len(),
    ensures
        match r {
            Option::Some((v, end)) => pos <= end <= bytes@.len() && dec_binds(
                bytes@.skip(pos as int),
            ) == Some((binds_view(v@), end - pos as int)),
            Option::None => dec_binds(bytes@.skip(pos as int)) is None,
        },
{
    let n = match read_hdr(bytes, pos, TAG_ARR) {
        Option::None => {
            return None;
        },
        Option::Some(n) => n,
    };
    proof {
        lemma_skip_skip(bytes@, pos as int, 3);
    }
    match read_binds_list(bytes, pos + 3, n) {
        Option::None => None,
        Option::Some((v, end)) => Some((v, end)),
    }
}


#[verifier::rlimit(100)]
#[verifier::spinoff_prover]
fn read_detail(bytes: &Vec<u8>, pos: usize) -> (r: Option<(SysDCSpawnDetail, usize)>)
    requires
        pos <= bytes@.len(),
    ensures
        match r {
            Option::Some((v, end)) => pos <= end <= bytes@.len() && dec_detail(
                bytes@.skip(pos as int),
            ) == Some((v@, end - pos as int)),
            Option::None => dec_detail(bytes@.skip(pos as int)) is None,
        },
{
    proof {
        reveal(crate::codec::dec_detail);
    }
    if bytes.len() - pos < 1 {
        return None;
    }
    let tag = bytes[pos];
    proof {
        assert(bytes@.skip(pos as int)[0] == bytes@[pos as int]);
        lemma_skip_skip(bytes@, pos as int, 1);
    }
    if tag == 0 {
        match read_bind(bytes, pos + 1) {
            Option::None => None,
            Option::Some((b, end)) => Some((SysDCSpawnDetail::Use(b.name, b.ty), end)),
        }
    } else if tag == 1 {
        let (nm, p1) = match read_str(bytes, pos + 1) {
            Option::None => {
                return None;
            },
            Option::Some(x) => x,
        };
        proof {
            lemma_skip_skip(bytes@, pos as int, p1 - pos as int);
        }
        let (func, p2) = match read_bind(bytes, p1) {
            Option::None => {
                return None;
            },
            Option::Some(x) => x,
        };
        proof {
            lemma_skip_skip(bytes@, pos as int, p2 - pos as int);
        }
        let (args, p3) = match read_binds(bytes, p2) {
            Option::None => {
                return None;
            },
            Option::Some(x) => x,
        };
        Some((SysDCSpawnDetail::LetTo { name: Name { path: nm }, func, args }, p3))
    } else if tag == 2 {
        match read_bind(bytes, pos + 1) {
            Option::None => None,
            Option::Some((b, end)) => Some((SysDCSpawnDetail::Other(b.name, b.ty), end)),
        }
    } else {
        None
    }
}

#[verifier::rlimit(100)]
#[verifier::spinoff_prover]
fn read_details_list(bytes: &Vec<u8>, pos: usize, n: usize) -> (r: Option<
    (Vec<SysDCSpawnDetail>, usize),
>)
    requires
        pos <= bytes@.len(),
    ensures
        match r {
            Option::Some((v, end)) => pos <= end <= bytes@.len() && dec_list(
                bytes@.skip(pos as int),
                n as nat,
                |t: Seq<u8>| dec_detail(t),
            ) == Some((v@.map_values(|d: SysDCSpawnDetail| d@), end - pos as int)),
            Option::None => dec_list(bytes@.skip(pos as int), n as nat, |t: Seq<u8>| dec_detail(t))
                is None,
        },
    decreases n,
{
    if n == 0 {
        let v: Vec<SysDCSpawnDetail> = Vec::new();
        proof {
            assert(v@.map_values(|d: SysDCSpawnDetail| d@) =~= Seq::<
                crate::structure::DetailModel,
            >::empty());
        }
        return Some((v, pos));
    }
    let (d, p1) = match read_detail(bytes, pos) {
        Option::None => {
            return None;
        },
        Option::Some(x) => x,
    };
    proof {
        lemma_skip_skip(bytes@, pos as int, p1 - pos as int);
    }
    let (mut v, end) = match read_details_list(bytes, p1, n - 1) {
        Option::None => {
            return None;
        },
        Option::Some(x) => x,
    };
    let ghost tailv = v@;
    v.insert(0, d);
    proof {
        assert(v@.map_values(|d2: SysDCSpawnDetail| d2@) =~= seq![d@] + tailv.map_values(
            |d2: SysDCSpawnDetail| d2@,
        ));
    }
    Some((v, end))
}

#[verifier::rlimit(100)]
#[verifier::spinoff_prover]
fn read_details(bytes: &Vec<u8>, pos: usize) -> (r: Option<(Vec<SysDCSpawnDetail>, usize)>)
    requires
        pos <= bytes@.len(),
    ensures
        match r {
            Option::Some((v, end)) => pos <= end <= bytes@.len() && dec_details(
                bytes@.skip(pos as int),
            ) == Some((v@.map_values(|d: SysDCSpawnDetail| d@), end - pos as int)),
            Option::None => dec_details(bytes@.skip(pos as int)) is None,
        },
{
    let n = match read_hdr(bytes, pos, TAG_ARR) {
        Option::None => {
            return None;
        },
        Option::Some(n) => n,
    };
    proof {
        lemma_skip_skip(bytes@, pos as int, 3);
    }
    read_details_list(bytes, pos + 3, n)
}

#[verifier::rlimit(100)]
#[verifier::spinoff_prover]
fn read_annotation(bytes: &Vec<u8>, pos: usize) -> (r: Option<(SysDCAnnotation, usize)>)
    requires
        pos <= bytes@.len(),
    ensures
        match r {
            Option::Some((v, end)) => pos <= end <= bytes@.len() && dec_annotation(
                bytes@.skip(pos as int),
            ) == Some((v@, end - pos as int)),
            Option::None => dec_annotation(bytes@.skip(pos as int)) is None,
        },
{
    proof {
        reveal(crate::codec::dec_annotation);
    }
    if bytes.len() - pos < 1 {
        return None;
    }
    let tag = bytes[pos];
    proof {
        assert(bytes@.skip(pos as int)[0] == bytes@[pos as int]);
        lemma_skip_skip(bytes@, pos as int, 1);
    }
    if tag == 0 {
        let (target, p1) = match read_bind(bytes, pos + 1) {
            Option::None => {
                return None;
            },
            Option::Some(x) => x,
        };
        proof {
            lemma_skip_skip(bytes@, pos as int, p1 - pos as int);
        }
        let (uses, p2) = match read_binds(bytes, p1) {
            Option::None => {
                return None;
            },
            Option::Some(x) => x,
        };
        Some((SysDCAnnotation::Modify { target, uses }, p2))
    } else if tag == 1 {
        let (result, p1) = match read_bind(bytes, pos + 1) {
            Option::None => {
                return None;
            },
            Option::Some(x) => x,
        };
        proof {
            lemma_skip_skip(bytes@, pos as int, p1 - pos as int);
        }
        let (details, p2) = match read_details(bytes, p1) {
            Option::None => {
                return None;
            },
            Option::Some(x) => x,
        };
        Some((SysDCAnnotation::Spawn { result, details }, p2))
    } else {
        None
    }
}

#[verifier::rlimit(100)]
#[verifier::spinoff_prover]
fn read_annotations_list(bytes: &Vec<u8>, pos: usize, n: usize) -> (r: Option<
    (Vec<SysDCAnnotation>, usize),
>)
    requires
        pos <= bytes@.len(),
    ensures
        match r {
            Option::Some((v, end)) => pos <= end <= bytes@.len() && dec_list(
                bytes@.skip(pos as int),
                n as nat,
                |t: Seq<u8>| dec_annotation(t),
            ) == Some((v@.map_values(|a: SysDCAnnotation| a@), end - pos as int)),
            Option::None => dec_list(
                bytes@.skip(pos as int),
                n as nat,
                |t: Seq<u8>| dec_annotation(t),
            ) is None,
        },
    decreases n,
{
    if n == 0 {
        let v: Vec<SysDCAnnotation> = Vec::new();
        proof {
            assert(v@.map_values(|a: SysDCAnnotation| a@) =~= Seq::<
                crate::structure::AnnotationModel,
            >::empty());
        }
        return Some((v, pos));
    }
    let (a, p1) = match read_annotation(bytes, pos) {
        Option::None => {
            return None;
        },
        Option::Some(x) => x,
    };
    proof {
        lemma_skip_skip(bytes@, pos as int, p1 - pos as int);
    }
    let (mut v, end) = match read_annotations_list(bytes, p1, n - 1) {
        Option::None => {
            return None;
        },
        Option::Some(x) => x,
    };
    let ghost tailv = v@;
    v.insert(0, a);
    proof {
        assert(v@.map_values(|a2: SysDCAnnotation| a2@) =~= seq![a@] + tailv.map_values(
            |a2: SysDCAnnotation| a2@,
        ));
    }
    Some((v, end))
}

#[verifier::rlimit(100)]
#[verifier::spinoff_prover]
fn read_annotations(bytes: &Vec<u8>, pos: usize) -> (r: Option<(Vec<SysDCAnnotation>, usize)>)
    requires
        pos <= bytes@.len(),
    ensures
        match r {
            Option::Some((v, end)) => pos <= end <= bytes@.len() && dec_annotations(
                bytes@.skip(pos as int),
            ) == Some((v@.map_values(|a: SysDCAnnotation| a@), end - pos as int)),
            Option::None => dec_annotations(bytes@.skip(pos as int)) is None,
        },
{
    let n = match read_hdr(bytes, pos, TAG_ARR) {
        Option::None => {
            return None;
        },
        Option::Some(n) => n,
    };
    proof {
        lemma_skip_skip(bytes@, pos as int, 3);
    }
    read_annotations_list(bytes, pos + 3, n)
}

#[verifier::rlimit(100)]
#[verifier::spinoff_prover]
fn read_function(bytes: &Vec<u8>, pos: usize) -> (r: Option<(SysDCFunction, usize)>)
    requires
        pos <= bytes@.len(),
    ensures
        match r {
            Option::Some((v, end)) => pos <= end <= bytes@.len() && dec_function(
                bytes@.skip(pos as int),
            ) == Some((v@, end - pos as int)),
            Option::None => dec_function(bytes@.skip(pos as int)) is None,
        },
{
    proof {
        reveal(crate::codec::dec_function);
    }
    let n = match read_hdr(bytes, pos, TAG_ARR) {
        Option::None => {
            return None;
        },
        Option::Some(n) => n,
    };
    if n != 3 {
        return None;
    }
    proof {
        lemma_skip_skip(bytes@, pos as int, 3);
    }
    let (nm, p1) = match read_str(bytes, pos + 3) {
        Option::None => {
            return None;
        },
        Option::Some(x) => x,
    };
    proof {
        lemma_skip_skip(bytes@, pos as int, p1 - pos as int);
    }
    let (args, p2) = match read_binds(bytes, p1) {
        Option::None => {
            return None;
        },
        Option::Some(x) => x,
    };
    proof {
        lemma_skip_skip(bytes@, pos as int, p2 - pos as int);
    }
    let (anns, p3) = match read_annotations(bytes, p2) {
        Option::None => {
            return None;
        },
        Option::Some(x) => x,
    };
    Some((SysDCFunction { name: Name { path: nm }, args, annotations: anns }, p3))
}

#[verifier::rlimit(100)]
#[verifier::spinoff_prover]
fn read_data(bytes: &Vec<u8>, pos: usize) -> (r: Option<(SysDCData, usize)>)
    requires
        pos <= bytes@.len(),
    ensures
        match r {
            Option::Some((v, end)) => pos <= end <= bytes@.len() && dec_data(
                bytes@.skip(pos as int),
            ) == Some((v@, end - pos as int)),
            Option::None => dec_data(bytes@.skip(pos as int)) is None,
        },
{
    proof {
        reveal(crate::codec::dec_data);
    }
    let n = match read_hdr(bytes, pos, TAG_ARR) {
        Option::None => {
            return None;
        },
        Option::Some(n) => n,
    };
    if n != 2 {
        return None;
    }
    proof {
        lemma_skip_skip(bytes@, pos as int, 3);
    }
    let (nm, p1) = match read_str(bytes, pos + 3) {
        Option::None => {
            return None;
        },
        Option::Some(x) => x,
    };
    proof {
        lemma_skip_skip(bytes@, pos as int, p1 - pos as int);
    }
    let (ms, p2) = match read_binds(bytes, p1) {
        Option::None => {
            return None;
        },
        Option::Some(x) => x,
    };
    Some((SysDCData { name: Name { path: nm }, members: ms }, p2))
}

#[verifier::rlimit(100)]
#[verifier::spinoff_prover]
fn read_datas_list(bytes: &Vec<u8>, pos: usize, n: usize) -> (r: Option<(Vec<SysDCData>, usize)>)
    requires
        pos <= bytes@.len(),
    ensures
        match r {
            Option::Some((v, end)) => pos <= end <= bytes@.len() && dec_list(
                bytes@.skip(pos as int),
                n as nat,
                |t: Seq<u8>| dec_data(t),
            ) == Some((v@.map_values(|d: SysDCData| d@), end - pos as int)),
            Option::None => dec_list(bytes@.skip(pos as int), n as nat, |t: Seq<u8>| dec_data(t))
                is None,
        },
    decreases n,
{
    if n == 0 {
        let v: Vec<SysDCData> = Vec::new();
        proof {
            assert(v@.map_values(|d: SysDCData| d@) =~= Seq::<
                crate::structure::DataModel,
            >::empty());
        }
        return Some((v, pos));
    }
    let (d, p1) = match read_data(bytes, pos) {
        Option::None => {
            return None;
        },
        Option::Some(x) => x,
    };
    proof {
        lemma_skip_skip(bytes@, pos as int, p1 - pos as int);
    }
    let (mut v, end) = match read_datas_list(bytes, p1, n - 1) {
        Option::None => {
            return None;
        },
        Option::Some(x) => x,
    };
    let ghost tailv = v@;
    v.insert(0, d);
    proof {
        assert(v@.map_values(|d2: SysDCData| d2@) =~= seq![d@] + tailv.map_values(
            |d2: SysDCData| d2@,
        ));
    }
    Some((v, end))
}

#[verifier::rlimit(100)]
#[verifier::spinoff_prover]
fn read_functions_list(bytes: &Vec<u8>, pos: usize, n: usize) -> (r: Option<
    (Vec<SysDCFunction>, usize),
>)
    requires
        pos <= bytes@.len(),
    ensures
        match r {
            Option::Some((v, end)) => pos <= end <= bytes@.len() && dec_list(
                bytes@.skip(pos as int),
                n as nat,
                |t: Seq<u8>| dec_function(t),
            ) == Some((v@.map_values(|f: SysDCFunction| f@), end - pos as int)),
            Option::None => dec_list(
                bytes@.skip(pos as int),
                n as nat,
                |t: Seq<u8>| dec_function(t),
            ) is None,
        },
    decreases n,
{
    if n == 0 {
        let v: Vec<SysDCFunction> = Vec::new();
        proof {
            assert(v@.map_values(|f: SysDCFunction| f@) =~= Seq::<
                crate::structure::FunctionModel,
            >::empty());
        }
        return Some((v, pos));
    }
    let (f, p1) = match read_function(bytes, pos) {
        Option::None => {
            return None;
        },
        Option::Some(x) => x,
    };
    proof {
        lemma_skip_skip(bytes@, pos as int, p1 - pos as int);
    }
    let (mut v, end) = match read_functions_list(bytes, p1, n - 1) {
        Option::None => {
            return None;
        },
        Option::Some(x) => x,
    };
    let ghost tailv = v@;
    v.insert(0, f);
    proof {
        assert(v@.map_values(|f2: SysDCFunction| f2@) =~= seq![f@] + tailv.map_values(
            |f2: SysDCFunction| f2@,
        ));
    }
    Some((v, end))
}

#[verifier::rlimit(100)]
#[verifier::spinoff_prover]
fn read_module(bytes: &Vec<u8>, pos: usize) -> (r: Option<(SysDCModule, usize)>)
    requires
        pos <= bytes@.len(),
    ensures
        match r {
            Option::Some((v, end)) => pos <= end <= bytes@.len() && dec_module(
                bytes@.skip(pos as int),
            ) == Some((v@, end - pos as int)),
            Option::None => dec_module(bytes@.skip(pos as int)) is None,
        },
{
    proof {
        reveal(crate::codec::dec_module);
    }
    let n = match read_hdr(bytes, pos, TAG_ARR) {
        Option::None => {
            return None;
        },
        Option::Some(n) => n,
    };
    if n != 3 {
        return None;
    }
    proof {
        lemma_skip_skip(bytes@, pos as int, 3);
    }
    let (nm, p1) = match read_str(bytes, pos + 3) {
        Option::None => {
            return None;
        },
        Option::Some(x) => x,
    };
    proof {
        lemma_skip_skip(bytes@, pos as int, p1 - pos as int);
    }
    let nd = match read_hdr(bytes, p1, TAG_ARR) {
        Option::None => {
            return None;
        },
        Option::Some(x) => x,
    };
    proof {
        lemma_skip_skip(bytes@, p1 as int, 3);
        lemma_skip_skip(bytes@, pos as int, p1 + 3 - pos as int);
    }
    let (ds, p2) = match read_datas_list(bytes, p1 + 3, nd) {
        Option::None => {
            return None;
        },
        Option::Some(x) => x,
    };
    proof {
        lemma_skip_skip(bytes@, pos as int, p2 - pos as int);
    }
    let nf = match read_hdr(bytes, p2, TAG_ARR) {
        Option::None => {
            return None;
        },
        Option::Some(x) => x,
    };
    proof {
        lemma_skip_skip(bytes@, p2 as int, 3);
        lemma_skip_skip(bytes@, pos as int, p2 + 3 - pos as int);
    }
    let (fs, p3) = match read_functions_list(bytes, p2 + 3, nf) {
        Option::None => {
            return None;
        },
        Option::Some(x) => x,
    };
    Some((SysDCModule { name: Name { path: nm }, datas: ds, functions: fs }, p3))
}

#[verifier::rlimit(100)]
#[verifier::spinoff_prover]
fn read_modules_list(bytes: &Vec<u8>, pos: usize, n: usize) -> (r: Option<
    (Vec<SysDCModule>, usize),
>)
    requires
        pos <= bytes@.len(),
    ensures
        match r {
            Option::Some((v, end)) => pos <= end <= bytes@.len() && dec_list(
                bytes@.skip(pos as int),
                n as nat,
                |t: Seq<u8>| dec_module(t),
            ) == Some((v@.map_values(|m: SysDCModule| m@), end - pos as int)),
            Option::None => dec_list(bytes@.skip(pos as int), n as nat, |t: Seq<u8>| dec_module(t))
                is None,
        },
    decreases n,
{
    if n == 0 {
        let v: Vec<SysDCModule> = Vec::new();
        proof {
            assert(v@.map_values(|m: SysDCModule| m@) =~= Seq::<
                crate::structure::ModuleModel,
            >::empty());
        }
        return Some((v, pos));
    }
    let (m, p1) = match read_module(bytes, pos) {
        Option::None => {
            return None;
        },
        Option::Some(x) => x,
    };
    proof {
        lemma_skip_skip(bytes@, pos as int, p1 - pos as int);
    }
    let (mut v, end) = match read_modules_list(bytes, p1, n - 1) {
        Option::None => {
            return None;
        },
        Option::Some(x) => x,
    };
    let ghost tailv = v@;
    v.insert(0, m);
    proof {
        assert(v@.map_values(|m2: SysDCModule| m2@) =~= seq![m@] + tailv.map_values(
            |m2: SysDCModule| m2@,
        ));
    }
    Some((v, end))
}

#[verifier::rlimit(100)]
#[verifier::spinoff_prover]
fn read_unit(bytes: &Vec<u8>, pos: usize) -> (r: Option<(SysDCUnit, usize)>)
    requires
        pos <= bytes@.len(),
    ensures
        match r {
            Option::Some((v, end)) => pos <= end <= bytes@.len() && dec_unit(
                bytes@.skip(pos as int),
            ) == Some((v@, end - pos as int)),
            Option::None => dec_unit(bytes@.skip(pos as int)) is None,
        },
{
    proof {
        reveal(crate::codec::dec_unit);
    }
    let n = match read_hdr(bytes, pos, TAG_ARR) {
        Option::None => {
            return None;
        },
        Option::Some(n) => n,
    };
    if n != 2 {
        return None;
    }
    proof {
        lemma_skip_skip(bytes@, pos as int, 3);
    }
    let (nm, p1) = match read_str(bytes, pos + 3) {
        Option::None => {
            return None;
        },
        Option::Some(x) => x,
    };
    proof {
        lemma_skip_skip(bytes@, pos as int, p1 - pos as int);
    }
    let nmod = match read_hdr(bytes, p1, TAG_ARR) {
        Option::None => {
            return None;
        },
        Option::Some(x) => x,
    };
    proof {
        lemma_skip_skip(bytes@, p1 as int, 3);
        lemma_skip_skip(bytes@, pos as int, p1 + 3 - pos as int);
    }
    let (ms, p2) = match read_modules_list(bytes, p1 + 3, nmod) {
        Option::None => {
            return None;
        },
        Option::Some(x) => x,
    };
    Some((SysDCUnit { name: Name { path: nm }, modules: ms }, p2))
}

#[verifier::rlimit(100)]
#[verifier::spinoff_prover]
fn read_units_list(bytes: &Vec<u8>, pos: usize, n: usize) -> (r: Option<(Vec<SysDCUnit>, usize)>)
    requires
        pos <= bytes@.len(),
    ensures
        match r {
            Option::Some((v, end)) => pos <= end <= bytes@.len() && dec_list(
                bytes@.skip(pos as int),
                n as nat,
                |t: Seq<u8>| dec_unit(t),
            ) == Some((v@.map_values(|u: SysDCUnit| u@), end - pos as int)),
            Option::None => dec_list(bytes@.skip(pos as int), n as nat, |t: Seq<u8>| dec_unit(t))
                is None,
        },
    decreases n,
{
    if n == 0 {
        let v: Vec<SysDCUnit> = Vec::new();
        proof {
            assert(v@.map_values(|u: SysDCUnit| u@) =~= Seq::<
                crate::structure::UnitModel,
            >::empty());
        }
        return Some((v, pos));
    }
    let (u, p1) = match read_unit(bytes, pos) {
        Option::None => {
            return None;
        },
        Option::Some(x) => x,
    };
    proof {
        lemma_skip_skip(bytes@, pos as int, p1 - pos as int);
    }
    let (mut v, end) = match read_units_list(bytes, p1, n - 1) {
        Option::None => {
            return None;
        },
        Option::Some(x) => x,
    };
    let ghost tailv = v@;
    v.insert(0, u);
    proof {
        assert(v@.map_values(|u2: SysDCUnit| u2@) =~= seq![u@] + tailv.map_values(
            |u2: SysDCUnit| u2@,
        ));
    }
    Some((v, end))
}

/// Imports a model from its binary encoding. Succeeds exactly when the
/// bytes are one complete, well-formed encoding; unknown tags and
/// trailing bytes are rejected.
#[verifier::rlimit(100)]
#[verifier::spinoff_prover]
pub fn decode_system(bytes: &Vec<u8>) -> (r: Option<SysDCSystem>)
    ensures
        match r {
            Option::Some(sys) => dec_system(bytes@) == Some((sys@, bytes@.len() as int)),
            Option::None => !(dec_system(bytes@) matches Some((m, c)) && c == bytes@.len() as int),
        },
{
    proof {
        reveal(crate::codec::dec_system);
    }
    proof {
        assert(bytes@.skip(0) =~= bytes@);
    }
    let n = match read_hdr(bytes, 0, TAG_ARR) {
        Option::None => {
            return None;
        },
        Option::Some(n) => n,
    };
    proof {
        lemma_skip_skip(bytes@, 0, 3);
    }
    let (us, end) = match read_units_list(bytes, 3, n) {
        Option::None => {
            return None;
        },
        Option::Some(x) => x,
    };
    if end != bytes.len() {
        return None;
    }
    let sys = SysDCSystem { units: us };
    proof {
        assert(sys@ =~= crate::structure::SystemModel {
            units: us@.map_values(|u: SysDCUnit| u@),
        });
    }
    Some(sys)
}

/// Imports a single type kind from its fixed string tag. Only the two
/// known tags decode; anything else is rejected.
pub fn decode_type_kind(bytes: &Vec<u8>) -> (r: Option<TypeKind>)
    ensures
        match r {
            Option::Some(k) => dec_kind(bytes@) == Some((k@, bytes@.len() as int)),
            Option::None => !(dec_kind(bytes@) matches Some((km, c)) && c == bytes@.len() as int),
        },
{
    proof {
        reveal(crate::codec::dec_kind);
    }
    proof {
        assert(bytes@.skip(0) =~= bytes@);
    }
    match read_kind(bytes, 0) {
        Option::None => None,
        Option::Some((k, end)) => {
            if end == bytes.len() {
                Some(k)
            } else {
                None
            }
        },
    }
}

} // verus!
