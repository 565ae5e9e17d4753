use sysdc_core::decode::{decode_system, decode_type_kind};
use sysdc_core::error::CompileError;
use sysdc_core::gate::{encode_system, encode_type_kind};
use sysdc_core::name::Name;
use sysdc_core::structure::{
    Bind, SysDCAnnotation, SysDCData, SysDCFunction, SysDCModule, SysDCSystem, SysDCUnit,
};
use sysdc_core::types::{Type, TypeKind};

fn check_serialize(obj: TypeKind) {
    let serialized = match encode_type_kind(&obj) {
        Ok(b) => b,
        Err(_) => panic!("a solved kind must encode"),
    };
    let deserialized = match decode_type_kind(&serialized) {
        Some(k) => k,
        None => panic!("an encoded kind must decode"),
    };
    assert_eq!(deserialized, obj);
}

#[test]
fn primitive() {
    check_serialize(TypeKind::Int32);
    check_serialize(TypeKind::Data);
}

#[test]
fn primitive_unsolved_1() {
    let r = encode_type_kind(&TypeKind::Unsolved("aaa".to_string()));
    assert!(r == Err(CompileError::SerializationInvariantError));
}

#[test]
fn primitive_unsolved_2() {
    let r = encode_type_kind(&TypeKind::UnsolvedNoHint);
    assert!(r == Err(CompileError::SerializationInvariantError));
}

#[test]
fn kind_tags_are_messagepack_strings() {
    let b = encode_type_kind(&TypeKind::Int32).unwrap_or_else(|_| panic!("must encode"));
    let s: String = rmp_serde::from_slice(&b).expect("a kind tag is a MessagePack string");
    assert_eq!(s, "i32");
    let b = encode_type_kind(&TypeKind::Data).unwrap_or_else(|_| panic!("must encode"));
    let s: String = rmp_serde::from_slice(&b).expect("a kind tag is a MessagePack string");
    assert_eq!(s, "Data");
}

#[test]
fn unknown_tag_is_rejected() {
    // A well-formed MessagePack string that is not one of the fixed tags.
    let bytes = vec![0xda, 0x00, 0x04, b'B', b'o', b'o', b'l'];
    assert!(decode_type_kind(&bytes).is_none());
}

#[test]
fn trailing_bytes_are_rejected() {
    let mut b = encode_type_kind(&TypeKind::Int32).unwrap_or_else(|_| panic!("must encode"));
    b.push(0);
    assert!(decode_type_kind(&b).is_none());
}

fn point_module() -> SysDCModule {
    let unit_name = Name::child(&Name::root(), "unitA");
    let module_name = Name::child(&unit_name, "m");
    let data_name = Name::child(&module_name, "Point");
    let point = SysDCData {
        name: data_name.clone(),
        members: vec![
            Bind::new(Name::from_str("x"), Type::new(TypeKind::Int32, None)),
            Bind::new(Name::from_str("y"), Type::new(TypeKind::Int32, None)),
        ],
    };
    let point_ty = Type::new(TypeKind::Data, Some(data_name));
    let f = SysDCFunction {
        name: Name::child(&module_name, "f"),
        args: vec![Bind::new(Name::from_str("p"), point_ty.clone())],
        annotations: vec![SysDCAnnotation::Modify {
            target: Bind::new(Name::from_str("p"), point_ty.clone()),
            uses: vec![Bind::new(Name::from_str("p"), point_ty)],
        }],
    };
    SysDCModule {
        name: module_name,
        datas: vec![point],
        functions: vec![f],
    }
}

fn point_system() -> SysDCSystem {
    let unit_name = Name::child(&Name::root(), "unitA");
    SysDCSystem {
        units: vec![SysDCUnit {
            name: unit_name,
            modules: vec![point_module()],
        }],
    }
}

#[test]
fn resolved_model_round_trips() {
    let sys = point_system();
    let bytes = match encode_system(&sys) {
        Ok(b) => b,
        Err(_) => panic!("a resolved model must encode"),
    };
    let back = match decode_system(&bytes) {
        Some(s) => s,
        None => panic!("an encoded model must decode"),
    };
    assert!(back == sys);
}

#[test]
fn unsolved_model_is_refused_whole() {
    let mut sys = point_system();
    sys.units[0].modules[0].functions[0].args[0].ty = Type::new_unsovled_nohint();
    let r = encode_system(&sys);
    assert!(r == Err(CompileError::SerializationInvariantError));
}

#[test]
fn unsolved_hinted_model_is_refused_whole() {
    let mut sys = point_system();
    sys.units[0].modules[0].datas[0].members[0].ty =
        Type::new(TypeKind::Unsolved("Unknown".to_string()), None);
    let r = encode_system(&sys);
    assert!(r == Err(CompileError::SerializationInvariantError));
}
