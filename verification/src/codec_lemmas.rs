use vstd::prelude::*;
use vstd::arithmetic::div_mod::lemma_fundamental_div_mod;
use vstd::utf8::{encode_utf8, encode_utf8_decode_utf8, encode_utf8_valid_utf8};

use crate::codec::{
    dec_annotation, dec_annotations, dec_arr, dec_bind, dec_binds, dec_data, dec_detail,
    dec_details, dec_function, dec_kind, dec_len, dec_list, dec_module, dec_refs, dec_str,
    dec_system, dec_type, dec_unit, enc_annotation, enc_annotations, enc_arr, enc_bind, enc_binds,
    enc_data, enc_detail, enc_details, enc_function, enc_hdr, enc_kind, enc_list, enc_module,
    enc_refs, enc_str, enc_system, enc_type, enc_unit, data_bytes, i32_bytes, ok_annotation,
    ok_annotations, ok_bind, ok_binds, ok_data, ok_datas, ok_detail, ok_details, ok_function,
    ok_functions, ok_module, ok_modules, ok_str, ok_type, ok_unit, ok_units,
    serializable, LEN_MAX, TAG_ARR, TAG_NIL, TAG_STR,
};
use crate::structure::{
    solved_annotation, solved_data, solved_detail, solved_function, solved_module, solved_system,
    solved_unit, AnnotationModel, BindModel, DataModel, DetailModel, FunctionModel, ModuleModel,
    SystemModel, UnitModel,
};
use crate::types::{KindModel, solved_kind, TypeModel};

verus! {

// ------------------------------------------------------------------
// Decoding inverts encoding. Each lemma says: after the encoding of a
// well-formed piece, whatever bytes follow, the decoder returns that
// very piece and consumes exactly its encoding.
// ------------------------------------------------------------------

pub proof fn lemma_hdr(tag: u8, n: nat, rest: Seq<u8>)
    requires
        n <= LEN_MAX,
    ensures
        dec_len(enc_hdr(tag, n) + rest, tag) == Some(n),
        (enc_hdr(tag, n) + rest).skip(3) =~= rest,
{
    let s = enc_hdr(tag, n) + rest;
    assert(s[0] == tag);
    assert(s[1] == (n / 256) as u8);
    assert(s[2] == (n % 256) as u8);
    assert(n / 256 <= 255);
    lemma_fundamental_div_mod(n as int, 256);
    assert((s[1] as nat) * 256 + (s[2] as nat) == n);
}

pub proof fn lemma_dec_enc_str(t: Seq<char>, rest: Seq<u8>)
    requires
        ok_str(t),
    ensures
        dec_str(enc_str(t) + rest) == Some((t, enc_str(t).len() as int)),
{
    reveal(crate::codec::dec_str);
    broadcast use encode_utf8_valid_utf8, encode_utf8_decode_utf8;

    let b = encode_utf8(t);
    let s = enc_str(t) + rest;
    assert(s =~= enc_hdr(TAG_STR, b.len()) + (b + rest));
    lemma_hdr(TAG_STR, b.len(), b + rest);
    assert(s.len() >= 3 + b.len());
    assert(s.subrange(3, 3 + b.len() as int) =~= b);
}

pub proof fn lemma_dec_enc_kind(k: KindModel, rest: Seq<u8>)
    requires
        solved_kind(k),
    ensures
        dec_kind(enc_kind(k) + rest) == Some((k, enc_kind(k).len() as int)),
{
    reveal(crate::codec::dec_kind);
    let s = enc_kind(k) + rest;
    match k {
        KindModel::Int32 => {
            assert(s =~= enc_hdr(TAG_STR, 3) + (i32_bytes() + rest));
            lemma_hdr(TAG_STR, 3, i32_bytes() + rest);
            assert(s.subrange(3, 6) =~= i32_bytes());
        },
        KindModel::Data => {
            assert(s =~= enc_hdr(TAG_STR, 4) + (data_bytes() + rest));
            lemma_hdr(TAG_STR, 4, data_bytes() + rest);
            assert(s.subrange(3, 7) =~= data_bytes());
        },
        _ => {},
    }
}

pub proof fn lemma_dec_enc_refs(r: Option<Seq<char>>, rest: Seq<u8>)
    requires
        match r {
            Option::None => true,
            Option::Some(n) => ok_str(n),
        },
    ensures
        dec_refs(enc_refs(r) + rest) == Some((r, enc_refs(r).len() as int)),
{
    reveal(crate::codec::dec_refs);
    let s = enc_refs(r) + rest;
    match r {
        Option::None => {
            assert(s[0] == TAG_NIL);
        },
        Option::Some(n) => {
            assert(s[0] == TAG_STR);
            assert(s =~= enc_str(n) + rest);
            lemma_dec_enc_str(n, rest);
        },
    }
}

pub proof fn lemma_dec_enc_type(t: TypeModel, rest: Seq<u8>)
    requires
        ok_type(t),
    ensures
        dec_type(enc_type(t) + rest) == Some((t, enc_type(t).len() as int)),
{
    reveal(crate::codec::dec_type);
    let e1 = enc_kind(t.kind);
    let e2 = enc_refs(t.refs);
    let s = enc_type(t) + rest;
    assert(s =~= enc_hdr(TAG_ARR, 2) + (e1 + (e2 + rest)));
    lemma_hdr(TAG_ARR, 2, e1 + (e2 + rest));
    assert(s.skip(3) =~= e1 + (e2 + rest));
    lemma_dec_enc_kind(t.kind, e2 + rest);
    assert(s.skip(3 + e1.len() as int) =~= e2 + rest);
    lemma_dec_enc_refs(t.refs, rest);
    assert((TypeModel { kind: t.kind, refs: t.refs }) =~= t);
}

pub proof fn lemma_dec_enc_bind(b: BindModel, rest: Seq<u8>)
    requires
        ok_bind(b),
    ensures
        dec_bind(enc_bind(b) + rest) == Some((b, enc_bind(b).len() as int)),
{
    reveal(crate::codec::dec_bind);
    let e1 = enc_str(b.name);
    let e2 = enc_type(b.ty);
    let s = enc_bind(b) + rest;
    assert(s =~= enc_hdr(TAG_ARR, 2) + (e1 + (e2 + rest)));
    lemma_hdr(TAG_ARR, 2, e1 + (e2 + rest));
    assert(s.skip(3) =~= e1 + (e2 + rest));
    lemma_dec_enc_str(b.name, e2 + rest);
    assert(s.skip(3 + e1.len() as int) =~= e2 + rest);
    lemma_dec_enc_type(b.ty, rest);
    assert((BindModel { name: b.name, ty: b.ty }) =~= b);
}

/// The generic list step: if each item decodes back after its own
/// encoding, so does the whole concatenation.
pub proof fn lemma_dec_enc_list<A>(
    items: Seq<A>,
    rest: Seq<u8>,
    encf: spec_fn(A) -> Seq<u8>,
    decf: spec_fn(Seq<u8>) -> Option<(A, int)>,
)
    requires
        forall|i: int, r: Seq<u8>|
            0 <= i < items.len() ==> #[trigger] decf(encf(items[i]) + r) == Some(
                (items[i], encf(items[i]).len() as int),
            ),
    ensures
        dec_list(enc_list(items, encf) + rest, items.len(), decf) == Some(
            (items, enc_list(items, encf).len() as int),
        ),
    decreases items.len(),
{
    let e = enc_list(items, encf);
    let s = e + rest;
    if items.len() == 0 {
        assert(items =~= Seq::<A>::empty());
    } else {
        let x = items.first();
        let e0 = encf(x);
        let tail = items.drop_first();
        let et = enc_list(tail, encf);
        assert(e == e0 + et);
        assert(s =~= e0 + (et + rest));
        assert(items[0] == x);
        assert(decf(e0 + (et + rest)) == Some((x, e0.len() as int)));
        assert(s.skip(e0.len() as int) =~= et + rest);
        assert forall|i: int, r: Seq<u8>|
            0 <= i < tail.len() implies #[trigger] decf(encf(tail[i]) + r) == Some(
            (tail[i], encf(tail[i]).len() as int),
        ) by {
            assert(tail[i] == items[i + 1]);
        }
        lemma_dec_enc_list(tail, rest, encf, decf);
        assert(seq![x] + tail =~= items);
    }
}

/// The generic array16 step.
pub proof fn lemma_dec_enc_arr<A>(
    items: Seq<A>,
    rest: Seq<u8>,
    encf: spec_fn(A) -> Seq<u8>,
    decf: spec_fn(Seq<u8>) -> Option<(A, int)>,
)
    requires
        items.len() <= LEN_MAX,
        forall|i: int, r: Seq<u8>|
            0 <= i < items.len() ==> #[trigger] decf(encf(items[i]) + r) == Some(
                (items[i], encf(items[i]).len() as int),
            ),
    ensures
        dec_arr(enc_arr(items, encf) + rest, decf) == Some(
            (items, enc_arr(items, encf).len() as int),
        ),
{
    let el = enc_list(items, encf);
    let s = enc_arr(items, encf) + rest;
    assert(s =~= enc_hdr(TAG_ARR, items.len()) + (el + rest));
    lemma_hdr(TAG_ARR, items.len(), el + rest);
    assert(s.skip(3) =~= el + rest);
    lemma_dec_enc_list(items, rest, encf, decf);
}

pub proof fn lemma_dec_enc_binds(items: Seq<BindModel>, rest: Seq<u8>)
    requires
        ok_binds(items),
    ensures
        dec_binds(enc_binds(items) + rest) == Some((items, enc_binds(items).len() as int)),
{
    let encf = |b: BindModel| enc_bind(b);
    let decf = |t: Seq<u8>| dec_bind(t);
    assert forall|i: int, r: Seq<u8>|
        0 <= i < items.len() implies #[trigger] decf(encf(items[i]) + r) == Some(
        (items[i], encf(items[i]).len() as int),
    ) by {
        lemma_dec_enc_bind(items[i], r);
    }
    lemma_dec_enc_arr(items, rest, encf, decf);
}

#[verifier::rlimit(100)]
pub proof fn lemma_dec_enc_detail(d: DetailModel, rest: Seq<u8>)
    requires
        ok_detail(d),
    ensures
        dec_detail(enc_detail(d) + rest) == Some((d, enc_detail(d).len() as int)),
{
    reveal(crate::codec::dec_detail);
    let s = enc_detail(d) + rest;
    match d {
        DetailModel::Use(b) => {
            assert(s[0] == 0u8);
            assert(s.skip(1) =~= enc_bind(b) + rest);
            lemma_dec_enc_bind(b, rest);
        },
        DetailModel::LetTo { name, func, args } => {
            let t1 = seq![1u8];
            let e1 = enc_str(name);
            let e2 = enc_bind(func);
            let e3 = enc_binds(args);
            lemma_assoc5(t1, e1, e2, e3, rest);
            assert(s == t1 + (e1 + (e2 + (e3 + rest))));
            assert(s[0] == 1u8);
            lemma_skip_concat(t1, e1 + (e2 + (e3 + rest)));
            assert(s.skip(1) == e1 + (e2 + (e3 + rest)));
            lemma_dec_enc_str(name, e2 + (e3 + rest));
            lemma_skip_concat(e1, e2 + (e3 + rest));
            lemma_skip_skip(s, 1, e1.len() as int);
            assert(s.skip(1 + e1.len() as int) == e2 + (e3 + rest));
            lemma_dec_enc_bind(func, e3 + rest);
            lemma_skip_concat(e2, e3 + rest);
            lemma_skip_skip(s, 1 + e1.len() as int, e2.len() as int);
            assert(s.skip((1 + e1.len() + e2.len()) as int) == e3 + rest);
            lemma_dec_enc_binds(args, rest);
            assert((DetailModel::LetTo { name, func, args }) =~= d);
        },
        DetailModel::Other(b) => {
            assert(s[0] == 2u8);
            assert(s.skip(1) =~= enc_bind(b) + rest);
            lemma_dec_enc_bind(b, rest);
        },
    }
}

pub proof fn lemma_dec_enc_details(items: Seq<DetailModel>, rest: Seq<u8>)
    requires
        ok_details(items),
    ensures
        dec_details(enc_details(items) + rest) == Some((items, enc_details(items).len() as int)),
{
    let encf = |d: DetailModel| enc_detail(d);
    let decf = |t: Seq<u8>| dec_detail(t);
    assert forall|i: int, r: Seq<u8>|
        0 <= i < items.len() implies #[trigger] decf(encf(items[i]) + r) == Some(
        (items[i], encf(items[i]).len() as int),
    ) by {
        lemma_dec_enc_detail(items[i], r);
    }
    lemma_dec_enc_arr(items, rest, encf, decf);
}

#[verifier::rlimit(100)]
pub proof fn lemma_dec_enc_annotation(a: AnnotationModel, rest: Seq<u8>)
    requires
        ok_annotation(a),
    ensures
        dec_annotation(enc_annotation(a) + rest) == Some((a, enc_annotation(a).len() as int)),
{
    reveal(crate::codec::dec_annotation);
    let s = enc_annotation(a) + rest;
    match a {
        AnnotationModel::Modify { target, uses } => {
            let t1 = seq![0u8];
            let e1 = enc_bind(target);
            let e2 = enc_binds(uses);
            lemma_assoc4(t1, e1, e2, rest);
            assert(s == t1 + (e1 + (e2 + rest)));
            assert(s[0] == 0u8);
            lemma_skip_concat(t1, e1 + (e2 + rest));
            assert(s.skip(1) == e1 + (e2 + rest));
            lemma_dec_enc_bind(target, e2 + rest);
            lemma_skip_concat(e1, e2 + rest);
            lemma_skip_skip(s, 1, e1.len() as int);
            assert(s.skip(1 + e1.len() as int) == e2 + rest);
            lemma_dec_enc_binds(uses, rest);
            assert((AnnotationModel::Modify { target, uses }) =~= a);
        },
        AnnotationModel::Spawn { result, details } => {
            let t1 = seq![1u8];
            let e1 = enc_bind(result);
            let e2 = enc_details(details);
            lemma_assoc4(t1, e1, e2, rest);
            assert(s == t1 + (e1 + (e2 + rest)));
            assert(s[0] == 1u8);
            lemma_skip_concat(t1, e1 + (e2 + rest));
            assert(s.skip(1) == e1 + (e2 + rest));
            lemma_dec_enc_bind(result, e2 + rest);
            lemma_skip_concat(e1, e2 + rest);
            lemma_skip_skip(s, 1, e1.len() as int);
            assert(s.skip(1 + e1.len() as int) == e2 + rest);
            lemma_dec_enc_details(details, rest);
            assert((AnnotationModel::Spawn { result, details }) =~= a);
        },
    }
}

pub proof fn lemma_dec_enc_annotations(items: Seq<AnnotationModel>, rest: Seq<u8>)
    requires
        ok_annotations(items),
    ensures
        dec_annotations(enc_annotations(items) + rest) == Some(
            (items, enc_annotations(items).len() as int),
        ),
{
    let encf = |a: AnnotationModel| enc_annotation(a);
    let decf = |t: Seq<u8>| dec_annotation(t);
    assert forall|i: int, r: Seq<u8>|
        0 <= i < items.len() implies #[trigger] decf(encf(items[i]) + r) == Some(
        (items[i], encf(items[i]).len() as int),
    ) by {
        lemma_dec_enc_annotation(items[i], r);
    }
    lemma_dec_enc_arr(items, rest, encf, decf);
}

pub proof fn lemma_dec_enc_function(f: FunctionModel, rest: Seq<u8>)
    requires
        ok_function(f),
    ensures
        dec_function(enc_function(f) + rest) == Some((f, enc_function(f).len() as int)),
{
    reveal(crate::codec::dec_function);
    let e1 = enc_str(f.name);
    let e2 = enc_binds(f.args);
    let e3 = enc_annotations(f.annotations);
    let s = enc_function(f) + rest;
    assert(s =~= enc_hdr(TAG_ARR, 3) + (e1 + (e2 + (e3 + rest))));
    lemma_hdr(TAG_ARR, 3, e1 + (e2 + (e3 + rest)));
    assert(s.skip(3) =~= e1 + (e2 + (e3 + rest)));
    lemma_dec_enc_str(f.name, e2 + (e3 + rest));
    assert(s.skip(3 + e1.len() as int) =~= e2 + (e3 + rest));
    lemma_dec_enc_binds(f.args, e3 + rest);
    assert(s.skip((3 + e1.len() + e2.len()) as int) =~= e3 + rest);
    lemma_dec_enc_annotations(f.annotations, rest);
    assert((FunctionModel { name: f.name, args: f.args, annotations: f.annotations }) =~= f);
}

pub proof fn lemma_dec_enc_data(d: DataModel, rest: Seq<u8>)
    requires
        ok_data(d),
    ensures
        dec_data(enc_data(d) + rest) == Some((d, enc_data(d).len() as int)),
{
    reveal(crate::codec::dec_data);
    let e1 = enc_str(d.name);
    let e2 = enc_binds(d.members);
    let s = enc_data(d) + rest;
    assert(s =~= enc_hdr(TAG_ARR, 2) + (e1 + (e2 + rest)));
    lemma_hdr(TAG_ARR, 2, e1 + (e2 + rest));
    assert(s.skip(3) =~= e1 + (e2 + rest));
    lemma_dec_enc_str(d.name, e2 + rest);
    assert(s.skip(3 + e1.len() as int) =~= e2 + rest);
    lemma_dec_enc_binds(d.members, rest);
    assert((DataModel { name: d.name, members: d.members }) =~= d);
}

pub proof fn lemma_dec_enc_datas(items: Seq<DataModel>, rest: Seq<u8>)
    requires
        ok_datas(items),
    ensures
        dec_arr(enc_arr(items, |d: DataModel| enc_data(d)) + rest, |t: Seq<u8>| dec_data(t))
            == Some((items, enc_arr(items, |d: DataModel| enc_data(d)).len() as int)),
{
    let encd = |d: DataModel| enc_data(d);
    let decd = |t: Seq<u8>| dec_data(t);
    assert forall|i: int, r: Seq<u8>|
        0 <= i < items.len() implies #[trigger] decd(encd(items[i]) + r) == Some(
        (items[i], encd(items[i]).len() as int),
    ) by {
        lemma_dec_enc_data(items[i], r);
    }
    lemma_dec_enc_arr(items, rest, encd, decd);
}

pub proof fn lemma_dec_enc_functions(items: Seq<FunctionModel>, rest: Seq<u8>)
    requires
        ok_functions(items),
    ensures
        dec_arr(
            enc_arr(items, |f: FunctionModel| enc_function(f)) + rest,
            |t: Seq<u8>| dec_function(t),
        ) == Some((items, enc_arr(items, |f: FunctionModel| enc_function(f)).len() as int)),
{
    let encf = |f: FunctionModel| enc_function(f);
    let decf = |t: Seq<u8>| dec_function(t);
    assert forall|i: int, r: Seq<u8>|
        0 <= i < items.len() implies #[trigger] decf(encf(items[i]) + r) == Some(
        (items[i], encf(items[i]).len() as int),
    ) by {
        lemma_dec_enc_function(items[i], r);
    }
    lemma_dec_enc_arr(items, rest, encf, decf);
}

/// Reassociation of a four-way concatenation.
pub proof fn lemma_assoc4<A>(a: Seq<A>, b: Seq<A>, c: Seq<A>, d: Seq<A>)
    ensures
        ((a + b) + c) + d == a + (b + (c + d)),
{
    assert(((a + b) + c) + d =~= a + (b + (c + d)));
}

/// Reassociation of a five-way concatenation.
pub proof fn lemma_assoc5<A>(a: Seq<A>, b: Seq<A>, c: Seq<A>, d: Seq<A>, e: Seq<A>)
    ensures
        (((a + b) + c) + d) + e == a + (b + (c + (d + e))),
{
    assert((((a + b) + c) + d) + e =~= a + (b + (c + (d + e))));
}

/// Skipping past the first part of a concatenation.
pub proof fn lemma_skip_concat<A>(x: Seq<A>, y: Seq<A>)
    ensures
        (x + y).skip(x.len() as int) == y,
{
    assert((x + y).skip(x.len() as int) =~= y);
}

/// Two skips compose.
pub proof fn lemma_skip_skip<A>(s: Seq<A>, a: int, b: int)
    requires
        0 <= a,
        0 <= b,
        a + b <= s.len(),
    ensures
        s.skip(a).skip(b) == s.skip(a + b),
{
    assert(s.skip(a).skip(b) =~= s.skip(a + b));
}

#[verifier::rlimit(100)]
pub proof fn lemma_dec_enc_module(m: ModuleModel, rest: Seq<u8>)
    requires
        ok_module(m),
    ensures
        dec_module(enc_module(m) + rest) == Some((m, enc_module(m).len() as int)),
{
    reveal(crate::codec::dec_module);
    let e1 = enc_str(m.name);
    let e2 = enc_arr(m.datas, |d: DataModel| enc_data(d));
    let e3 = enc_arr(m.functions, |f: FunctionModel| enc_function(f));
    let h = enc_hdr(TAG_ARR, 3);
    let tail = e1 + (e2 + (e3 + rest));
    let s = enc_module(m) + rest;
    lemma_assoc5(h, e1, e2, e3, rest);
    assert(s == h + tail);
    lemma_hdr(TAG_ARR, 3, tail);
    lemma_skip_concat(h, tail);
    assert(s.skip(3) == tail);
    lemma_dec_enc_str(m.name, e2 + (e3 + rest));
    lemma_skip_concat(e1, e2 + (e3 + rest));
    lemma_skip_skip(s, 3, e1.len() as int);
    assert(s.skip(3 + e1.len() as int) == e2 + (e3 + rest));
    lemma_dec_enc_datas(m.datas, e3 + rest);
    lemma_skip_concat(e2, e3 + rest);
    lemma_skip_skip(s, 3 + e1.len() as int, e2.len() as int);
    assert(s.skip((3 + e1.len() + e2.len()) as int) == e3 + rest);
    lemma_dec_enc_functions(m.functions, rest);
    assert((ModuleModel { name: m.name, datas: m.datas, functions: m.functions }) =~= m);
}

pub proof fn lemma_dec_enc_unit(u: UnitModel, rest: Seq<u8>)
    requires
        ok_unit(u),
    ensures
        dec_unit(enc_unit(u) + rest) == Some((u, enc_unit(u).len() as int)),
{
    reveal(crate::codec::dec_unit);
    let encm = |m: ModuleModel| enc_module(m);
    let decm = |t: Seq<u8>| dec_module(t);
    let e1 = enc_str(u.name);
    let e2 = enc_arr(u.modules, encm);
    let s = enc_unit(u) + rest;
    assert(s =~= enc_hdr(TAG_ARR, 2) + (e1 + (e2 + rest)));
    lemma_hdr(TAG_ARR, 2, e1 + (e2 + rest));
    assert(s.skip(3) =~= e1 + (e2 + rest));
    lemma_dec_enc_str(u.name, e2 + rest);
    assert(s.skip(3 + e1.len() as int) =~= e2 + rest);
    assert forall|i: int, r: Seq<u8>|
        0 <= i < u.modules.len() implies #[trigger] decm(encm(u.modules[i]) + r) == Some(
        (u.modules[i], encm(u.modules[i]).len() as int),
    ) by {
        lemma_dec_enc_module(u.modules[i], r);
    }
    lemma_dec_enc_arr(u.modules, rest, encm, decm);
    assert((UnitModel { name: u.name, modules: u.modules }) =~= u);
}

pub proof fn lemma_dec_enc_system(m: SystemModel, rest: Seq<u8>)
    requires
        serializable(m),
    ensures
        dec_system(enc_system(m) + rest) == Some((m, enc_system(m).len() as int)),
{
    reveal(crate::codec::dec_system);
    let encu = |u: UnitModel| enc_unit(u);
    let decu = |t: Seq<u8>| dec_unit(t);
    assert forall|i: int, r: Seq<u8>|
        0 <= i < m.units.len() implies #[trigger] decu(encu(m.units[i]) + r) == Some(
        (m.units[i], encu(m.units[i]).len() as int),
    ) by {
        lemma_dec_enc_unit(m.units[i], r);
    }
    lemma_dec_enc_arr(m.units, rest, encu, decu);
    assert((SystemModel { units: m.units }) =~= m);
}

/// The round-trip law: on a serializable model, decoding the encoding
/// yields the identical model and consumes every byte.
pub proof fn lemma_codec_round_trip(m: SystemModel)
    requires
        serializable(m),
    ensures
        dec_system(enc_system(m)) == Some((m, enc_system(m).len() as int)),
{
    lemma_dec_enc_system(m, Seq::empty());
    assert(enc_system(m) + Seq::<u8>::empty() =~= enc_system(m));
}

/// A serializable model is solved everywhere: a model still holding a
/// placeholder type can never cross the export boundary.
pub proof fn lemma_serializable_solved(m: SystemModel)
    requires
        serializable(m),
    ensures
        solved_system(m),
{
    assert forall|i: int| 0 <= i < m.units.len() implies solved_unit(#[trigger] m.units[i]) by {
        let u = m.units[i];
        assert(ok_unit(u));
        assert forall|j: int| 0 <= j < u.modules.len() implies solved_module(
            #[trigger] u.modules[j],
        ) by {
            let md = u.modules[j];
            assert(ok_module(md));
            assert forall|k: int| 0 <= k < md.datas.len() implies solved_data(
                #[trigger] md.datas[k],
            ) by {
                assert(ok_data(md.datas[k]));
            }
            assert forall|k: int| 0 <= k < md.functions.len() implies solved_function(
                #[trigger] md.functions[k],
            ) by {
                let f = md.functions[k];
                assert(ok_function(f));
                assert forall|l: int| 0 <= l < f.annotations.len() implies solved_annotation(
                    #[trigger] f.annotations[l],
                ) by {
                    let a = f.annotations[l];
                    assert(ok_annotation(a));
                    match a {
                        AnnotationModel::Modify { target, uses } => {},
                        AnnotationModel::Spawn { result, details } => {
                            assert forall|p: int| 0 <= p < details.len() implies solved_detail(
                                #[trigger] details[p],
                            ) by {
                                assert(ok_detail(details[p]));
                            }
                        },
                    }
                }
            }
        }
    }
}

} // verus!
