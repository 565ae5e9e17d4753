use vstd::prelude::*;
use vstd::utf8::{
    decode_utf8, encode_utf8, encode_utf8_decode_utf8, encode_utf8_valid_utf8, valid_utf8,
};

use crate::types::{KindModel, solved_kind, TypeModel};
use crate::structure::{
    AnnotationModel, BindModel, DataModel, DetailModel, FunctionModel, ModuleModel, SystemModel,
    UnitModel,
};

verus! {

// ------------------------------------------------------------------
// The wire format. It is a small MessagePack-compatible subset:
//   str16    0xda, hi, lo, <utf-8 bytes>
//   array16  0xdc, hi, lo, <elements>
//   nil      0xc0
//   fixint   one byte 0x00..0x02, used as a variant tag
// Every composite piece of the model is an array16; a type kind is a
// fixed string tag; an absent back-reference is nil.
// ------------------------------------------------------------------

pub const TAG_STR: u8 = 0xda;

pub const TAG_ARR: u8 = 0xdc;

pub const TAG_NIL: u8 = 0xc0;

/// Largest count or byte length a 16-bit header can carry.
pub const LEN_MAX: usize = 65535;

/// A three-byte header: a format tag and a 16-bit big-endian length.
pub open spec fn enc_hdr(tag: u8, n: nat) -> Seq<u8> {
    seq![tag, ((n / 256) as u8), ((n % 256) as u8)]
}

/// Reads a header back: the tag must match and three bytes must be there.
pub open spec fn dec_len(s: Seq<u8>, tag: u8) -> Option<nat> {
    if s.len() >= 3 && s[0] == tag {
        Some((s[1] as nat) * 256 + (s[2] as nat))
    } else {
        None
    }
}

/// Concatenation of the encodings of a sequence of items.
pub open spec fn enc_list<A>(items: Seq<A>, f: spec_fn(A) -> Seq<u8>) -> Seq<u8>
    decreases items.len(),
{
    if items.len() == 0 {
        Seq::empty()
    } else {
        f(items.first()) + enc_list(items.drop_first(), f)
    }
}

/// An array16 holding the items in order.
pub open spec fn enc_arr<A>(items: Seq<A>, f: spec_fn(A) -> Seq<u8>) -> Seq<u8> {
    enc_hdr(TAG_ARR, items.len()) + enc_list(items, f)
}

/// Decodes `n` consecutive items, each by `f`; yields the items and
/// the number of bytes consumed.
pub open spec fn dec_list<A>(s: Seq<u8>, n: nat, f: spec_fn(Seq<u8>) -> Option<(A, int)>) -> Option<
    (Seq<A>, int),
>
    decreases n,
{
    if n == 0 {
        Some((Seq::empty(), 0))
    } else {
        match f(s) {
            Option::None => None,
            Option::Some((x, c)) => match dec_list(s.skip(c), (n - 1) as nat, f) {
                Option::None => None,
                Option::Some((xs, c2)) => Some((seq![x] + xs, c + c2)),
            },
        }
    }
}

/// Decodes an array16 of items.
pub open spec fn dec_arr<A>(s: Seq<u8>, f: spec_fn(Seq<u8>) -> Option<(A, int)>) -> Option<
    (Seq<A>, int),
> {
    match dec_len(s, TAG_ARR) {
        Option::None => None,
        Option::Some(n) => match dec_list(s.skip(3), n, f) {
            Option::None => None,
            Option::Some((xs, c)) => Some((xs, 3 + c)),
        },
    }
}

// ------------------------------------------------------------------
// Per-construct encodings.
// ------------------------------------------------------------------

/// The bytes of the fixed tag naming the primitive 32-bit integer.
pub open spec fn i32_bytes() -> Seq<u8> {
    seq![105u8, 51u8, 50u8]
}

/// The bytes of the fixed tag naming a user-defined structure.
pub open spec fn data_bytes() -> Seq<u8> {
    seq![68u8, 97u8, 116u8, 97u8]
}

/// A string: str16 header plus the UTF-8 bytes.
pub open spec fn enc_str(s: Seq<char>) -> Seq<u8> {
    enc_hdr(TAG_STR, encode_utf8(s).len()) + encode_utf8(s)
}

#[verifier::opaque]
pub open spec fn dec_str(s: Seq<u8>) -> Option<(Seq<char>, int)> {
    match dec_len(s, TAG_STR) {
        Option::None => None,
        Option::Some(n) => if s.len() >= 3 + n {
            let b = s.subrange(3, 3 + n as int);
            if valid_utf8(b) {
                Some((decode_utf8(b), 3 + n as int))
            } else {
                None
            }
        } else {
            None
        },
    }
}

/// A solved type kind: one of the two fixed string tags. Placeholder
/// kinds have no encoding at all.
pub open spec fn enc_kind(k: KindModel) -> Seq<u8> {
    match k {
        KindModel::Int32 => enc_hdr(TAG_STR, 3) + i32_bytes(),
        KindModel::Data => enc_hdr(TAG_STR, 4) + data_bytes(),
        KindModel::Unsolved(_) => Seq::empty(),
        KindModel::UnsolvedNoHint => Seq::empty(),
    }
}

/// Only the two fixed tags decode; any other string is rejected.
#[verifier::opaque]
pub open spec fn dec_kind(s: Seq<u8>) -> Option<(KindModel, int)> {
    match dec_len(s, TAG_STR) {
        Option::None => None,
        Option::Some(n) => if n == 3 && s.len() >= 6 && s.subrange(3, 6) == i32_bytes() {
            Some((KindModel::Int32, 6))
        } else if n == 4 && s.len() >= 7 && s.subrange(3, 7) == data_bytes() {
            Some((KindModel::Data, 7))
        } else {
            None
        },
    }
}

/// An optional back-reference: nil, or the name as a string.
pub open spec fn enc_refs(r: Option<Seq<char>>) -> Seq<u8> {
    match r {
        Option::None => seq![TAG_NIL],
        Option::Some(n) => enc_str(n),
    }
}

#[verifier::opaque]
pub open spec fn dec_refs(s: Seq<u8>) -> Option<(Option<Seq<char>>, int)> {
    if s.len() >= 1 && s[0] == TAG_NIL {
        Some((Option::None, 1))
    } else {
        match dec_str(s) {
            Option::None => None,
            Option::Some((n, c)) => Some((Some(n), c)),
        }
    }
}

pub open spec fn enc_type(t: TypeModel) -> Seq<u8> {
    enc_hdr(TAG_ARR, 2) + enc_kind(t.kind) + enc_refs(t.refs)
}

#[verifier::opaque]
pub open spec fn dec_type(s: Seq<u8>) -> Option<(TypeModel, int)> {
    match dec_len(s, TAG_ARR) {
        Option::None => None,
        Option::Some(n) => if n == 2 {
            match dec_kind(s.skip(3)) {
                Option::None => None,
                Option::Some((k, c1)) => match dec_refs(s.skip(3 + c1)) {
                    Option::None => None,
                    Option::Some((r, c2)) => Some((TypeModel { kind: k, refs: r }, 3 + c1 + c2)),
                },
            }
        } else {
            None
        },
    }
}

pub open spec fn enc_bind(b: BindModel) -> Seq<u8> {
    enc_hdr(TAG_ARR, 2) + enc_str(b.name) + enc_type(b.ty)
}

#[verifier::opaque]
pub open spec fn dec_bind(s: Seq<u8>) -> Option<(BindModel, int)> {
    match dec_len(s, TAG_ARR) {
        Option::None => None,
        Option::Some(n) => if n == 2 {
            match dec_str(s.skip(3)) {
                Option::None => None,
                Option::Some((nm, c1)) => match dec_type(s.skip(3 + c1)) {
                    Option::None => None,
                    Option::Some((t, c2)) => Some((BindModel { name: nm, ty: t }, 3 + c1 + c2)),
                },
            }
        } else {
            None
        },
    }
}

pub open spec fn enc_binds(s: Seq<BindModel>) -> Seq<u8> {
    enc_arr(s, |b: BindModel| enc_bind(b))
}

pub open spec fn dec_binds(s: Seq<u8>) -> Option<(Seq<BindModel>, int)> {
    dec_arr(s, |t: Seq<u8>| dec_bind(t))
}

/// A spawn detail: a one-byte variant tag, then the payload.
pub open spec fn enc_detail(d: DetailModel) -> Seq<u8> {
    match d {
        DetailModel::Use(b) => seq![0u8] + enc_bind(b),
        DetailModel::LetTo { name, func, args } => seq![1u8] + enc_str(name) + enc_bind(func)
            + enc_binds(args),
        DetailModel::Other(b) => seq![2u8] + enc_bind(b),
    }
}

#[verifier::opaque]
pub open spec fn dec_detail(s: Seq<u8>) -> Option<(DetailModel, int)> {
    if s.len() < 1 {
        None
    } else if s[0] == 0u8 {
        match dec_bind(s.skip(1)) {
            Option::None => None,
            Option::Some((b, c)) => Some((DetailModel::Use(b), 1 + c)),
        }
    } else if s[0] == 1u8 {
        match dec_str(s.skip(1)) {
            Option::None => None,
            Option::Some((nm, c1)) => match dec_bind(s.skip(1 + c1)) {
                Option::None => None,
                Option::Some((f, c2)) => match dec_binds(s.skip(1 + c1 + c2)) {
                    Option::None => None,
                    Option::Some((args, c3)) => Some(
                        (DetailModel::LetTo { name: nm, func: f, args }, 1 + c1 + c2 + c3),
                    ),
                },
            },
        }
    } else if s[0] == 2u8 {
        match dec_bind(s.skip(1)) {
            Option::None => None,
            Option::Some((b, c)) => Some((DetailModel::Other(b), 1 + c)),
        }
    } else {
        None
    }
}

pub open spec fn enc_details(s: Seq<DetailModel>) -> Seq<u8> {
    enc_arr(s, |d: DetailModel| enc_detail(d))
}

pub open spec fn dec_details(s: Seq<u8>) -> Option<(Seq<DetailModel>, int)> {
    dec_arr(s, |t: Seq<u8>| dec_detail(t))
}

/// An annotation: a one-byte variant tag, then the payload.
pub open spec fn enc_annotation(a: AnnotationModel) -> Seq<u8> {
    match a {
        AnnotationModel::Modify { target, uses } => seq![0u8] + enc_bind(target) + enc_binds(uses),
        AnnotationModel::Spawn { result, details } => seq![1u8] + enc_bind(result) + enc_details(
            details,
        ),
    }
}

#[verifier::opaque]
pub open spec fn dec_annotation(s: Seq<u8>) -> Option<(AnnotationModel, int)> {
    if s.len() < 1 {
        None
    } else if s[0] == 0u8 {
        match dec_bind(s.skip(1)) {
            Option::None => None,
            Option::Some((t, c1)) => match dec_binds(s.skip(1 + c1)) {
                Option::None => None,
                Option::Some((us, c2)) => Some(
                    (AnnotationModel::Modify { target: t, uses: us }, 1 + c1 + c2),
                ),
            },
        }
    } else if s[0] == 1u8 {
        match dec_bind(s.skip(1)) {
            Option::None => None,
            Option::Some((r, c1)) => match dec_details(s.skip(1 + c1)) {
                Option::None => None,
                Option::Some((ds, c2)) => Some(
                    (AnnotationModel::Spawn { result: r, details: ds }, 1 + c1 + c2),
                ),
            },
        }
    } else {
        None
    }
}

pub open spec fn enc_annotations(s: Seq<AnnotationModel>) -> Seq<u8> {
    enc_arr(s, |a: AnnotationModel| enc_annotation(a))
}

pub open spec fn dec_annotations(s: Seq<u8>) -> Option<(Seq<AnnotationModel>, int)> {
    dec_arr(s, |t: Seq<u8>| dec_annotation(t))
}

pub open spec fn enc_function(f: FunctionModel) -> Seq<u8> {
    enc_hdr(TAG_ARR, 3) + enc_str(f.name) + enc_binds(f.args) + enc_annotations(f.annotations)
}

#[verifier::opaque]
pub open spec fn dec_function(s: Seq<u8>) -> Option<(FunctionModel, int)> {
    match dec_len(s, TAG_ARR) {
        Option::None => None,
        Option::Some(n) => if n == 3 {
            match dec_str(s.skip(3)) {
                Option::None => None,
                Option::Some((nm, c1)) => match dec_binds(s.skip(3 + c1)) {
                    Option::None => None,
                    Option::Some((args, c2)) => match dec_annotations(s.skip(3 + c1 + c2)) {
                        Option::None => None,
                        Option::Some((anns, c3)) => Some(
                            (
                                FunctionModel { name: nm, args, annotations: anns },
                                3 + c1 + c2 + c3,
                            ),
                        ),
                    },
                },
            }
        } else {
            None
        },
    }
}

pub open spec fn enc_data(d: DataModel) -> Seq<u8> {
    enc_hdr(TAG_ARR, 2) + enc_str(d.name) + enc_binds(d.members)
}

#[verifier::opaque]
pub open spec fn dec_data(s: Seq<u8>) -> Option<(DataModel, int)> {
    match dec_len(s, TAG_ARR) {
        Option::None => None,
        Option::Some(n) => if n == 2 {
            match dec_str(s.skip(3)) {
                Option::None => None,
                Option::Some((nm, c1)) => match dec_binds(s.skip(3 + c1)) {
                    Option::None => None,
                    Option::Some((ms, c2)) => Some(
                        (DataModel { name: nm, members: ms }, 3 + c1 + c2),
                    ),
                },
            }
        } else {
            None
        },
    }
}

pub open spec fn enc_module(m: ModuleModel) -> Seq<u8> {
    enc_hdr(TAG_ARR, 3) + enc_str(m.name) + enc_arr(m.datas, |d: DataModel| enc_data(d)) + enc_arr(
        m.functions,
        |f: FunctionModel| enc_function(f),
    )
}

#[verifier::opaque]
pub open spec fn dec_module(s: Seq<u8>) -> Option<(ModuleModel, int)> {
    match dec_len(s, TAG_ARR) {
        Option::None => None,
        Option::Some(n) => if n == 3 {
            match dec_str(s.skip(3)) {
                Option::None => None,
                Option::Some((nm, c1)) => match dec_arr(
                    s.skip(3 + c1),
                    |t: Seq<u8>| dec_data(t),
                ) {
                    Option::None => None,
                    Option::Some((ds, c2)) => match dec_arr(
                        s.skip(3 + c1 + c2),
                        |t: Seq<u8>| dec_function(t),
                    ) {
                        Option::None => None,
                        Option::Some((fs, c3)) => Some(
                            (
                                ModuleModel { name: nm, datas: ds, functions: fs },
                                3 + c1 + c2 + c3,
                            ),
                        ),
                    },
                },
            }
        } else {
            None
        },
    }
}

pub open spec fn enc_unit(u: UnitModel) -> Seq<u8> {
    enc_hdr(TAG_ARR, 2) + enc_str(u.name) + enc_arr(u.modules, |m: ModuleModel| enc_module(m))
}

#[verifier::opaque]
pub open spec fn dec_unit(s: Seq<u8>) -> Option<(UnitModel, int)> {
    match dec_len(s, TAG_ARR) {
        Option::None => None,
        Option::Some(n) => if n == 2 {
            match dec_str(s.skip(3)) {
                Option::None => None,
                Option::Some((nm, c1)) => match dec_arr(
                    s.skip(3 + c1),
                    |t: Seq<u8>| dec_module(t),
                ) {
                    Option::None => None,
                    Option::Some((ms, c2)) => Some(
                        (UnitModel { name: nm, modules: ms }, 3 + c1 + c2),
                    ),
                },
            }
        } else {
            None
        },
    }
}

/// The whole model: an array16 of units.
pub open spec fn enc_system(m: SystemModel) -> Seq<u8> {
    enc_arr(m.units, |u: UnitModel| enc_unit(u))
}

#[verifier::opaque]
pub open spec fn dec_system(s: Seq<u8>) -> Option<(SystemModel, int)> {
    match dec_arr(s, |t: Seq<u8>| dec_unit(t)) {
        Option::None => None,
        Option::Some((us, c)) => Some((SystemModel { units: us }, c)),
    }
}

// ------------------------------------------------------------------
// Serializability: every type solved, every length within a 16-bit
// header. Exactly these models encode.
// ------------------------------------------------------------------

pub open spec fn ok_str(s: Seq<char>) -> bool {
    encode_utf8(s).len() <= LEN_MAX
}

pub open spec fn ok_type(t: TypeModel) -> bool {
    &&& solved_kind(t.kind)
    &&& match t.refs {
        Option::None => true,
        Option::Some(n) => ok_str(n),
    }
}

pub open spec fn ok_bind(b: BindModel) -> bool {
    ok_str(b.name) && ok_type(b.ty)
}

pub open spec fn ok_binds(s: Seq<BindModel>) -> bool {
    s.len() <= LEN_MAX && forall|i: int| 0 <= i < s.len() ==> ok_bind(#[trigger] s[i])
}

pub open spec fn ok_details(s: Seq<DetailModel>) -> bool {
    s.len() <= LEN_MAX && forall|i: int| 0 <= i < s.len() ==> ok_detail(#[trigger] s[i])
}

pub open spec fn ok_detail(d: DetailModel) -> bool {
    match d {
        DetailModel::Use(b) => ok_bind(b),
        DetailModel::LetTo { name, func, args } => ok_str(name) && ok_bind(func) && ok_binds(args),
        DetailModel::Other(b) => ok_bind(b),
    }
}

pub open spec fn ok_annotation(a: AnnotationModel) -> bool {
    match a {
        AnnotationModel::Modify { target, uses } => ok_bind(target) && ok_binds(uses),
        AnnotationModel::Spawn { result, details } => ok_bind(result) && ok_details(details),
    }
}

pub open spec fn ok_annotations(s: Seq<AnnotationModel>) -> bool {
    s.len() <= LEN_MAX && forall|i: int| 0 <= i < s.len() ==> ok_annotation(#[trigger] s[i])
}

pub open spec fn ok_function(f: FunctionModel) -> bool {
    &&& ok_str(f.name)
    &&& ok_binds(f.args)
    &&& ok_annotations(f.annotations)
}

pub open spec fn ok_data(d: DataModel) -> bool {
    ok_str(d.name) && ok_binds(d.members)
}

pub open spec fn ok_datas(s: Seq<DataModel>) -> bool {
    s.len() <= LEN_MAX && forall|i: int| 0 <= i < s.len() ==> ok_data(#[trigger] s[i])
}

pub open spec fn ok_functions(s: Seq<FunctionModel>) -> bool {
    s.len() <= LEN_MAX && forall|i: int| 0 <= i < s.len() ==> ok_function(#[trigger] s[i])
}

pub open spec fn ok_module(m: ModuleModel) -> bool {
    &&& ok_str(m.name)
    &&& ok_datas(m.datas)
    &&& ok_functions(m.functions)
}

pub open spec fn ok_modules(s: Seq<ModuleModel>) -> bool {
    s.len() <= LEN_MAX && forall|i: int| 0 <= i < s.len() ==> ok_module(#[trigger] s[i])
}

pub open spec fn ok_unit(u: UnitModel) -> bool {
    &&& ok_str(u.name)
    &&& ok_modules(u.modules)
}

pub open spec fn ok_units(s: Seq<UnitModel>) -> bool {
    s.len() <= LEN_MAX && forall|i: int| 0 <= i < s.len() ==> ok_unit(#[trigger] s[i])
}

/// A model may cross the export boundary exactly when it is solved
/// everywhere and every string and collection fits a 16-bit header.
pub open spec fn serializable(m: SystemModel) -> bool {
    ok_units(m.units)
}

} // verus!
