use sysdc_core::error::CompileError;
use sysdc_core::name::Name;
use sysdc_core::pipeline::{resolve_system, solved_check_system};
use sysdc_core::structure::{
    Bind, SysDCAnnotation, SysDCData, SysDCFunction, SysDCModule, SysDCSystem, SysDCUnit,
};
use sysdc_core::types::{Type, TypeKind};

/// A raw declaration tree as the front end hands it over: bare names,
/// every type still a hint.
fn raw_point_system(hint: &str) -> SysDCSystem {
    let point = SysDCData {
        name: Name::from_str("Point"),
        members: vec![
            Bind::new(Name::from_str("x"), Type::from("i32".to_string())),
            Bind::new(Name::from_str("y"), Type::from("i32".to_string())),
        ],
    };
    let f = SysDCFunction {
        name: Name::from_str("f"),
        args: vec![Bind::new(Name::from_str("p"), Type::from(hint.to_string()))],
        annotations: vec![SysDCAnnotation::Modify {
            target: Bind::new(Name::from_str("p"), Type::from(hint.to_string())),
            uses: vec![Bind::new(Name::from_str("p"), Type::from(hint.to_string()))],
        }],
    };
    SysDCSystem {
        units: vec![SysDCUnit {
            name: Name::from_str("unitA"),
            modules: vec![SysDCModule {
                name: Name::from_str("m"),
                datas: vec![point],
                functions: vec![f],
            }],
        }],
    }
}

#[test]
fn resolution_produces_a_solved_qualified_model() {
    let out = match resolve_system(&raw_point_system("Point")) {
        Ok(out) => out,
        Err(_) => panic!("a well-formed tree must resolve"),
    };
    assert!(solved_check_system(&out));
    let module = &out.units[0].modules[0];
    assert!(module.name == Name::from_str("unitA.m"));
    assert!(module.datas[0].name == Name::from_str("unitA.m.Point"));
    assert!(module.functions[0].name == Name::from_str("unitA.m.f"));
    // The hinted parameter became a user-defined type carrying the
    // canonical name of the declaration.
    let arg = &module.functions[0].args[0];
    assert_eq!(arg.ty.kind, TypeKind::Data);
    assert!(arg.ty.refs == Some(Name::from_str("unitA.m.Point")));
}

#[test]
fn unknown_hint_aborts_resolution() {
    let r = resolve_system(&raw_point_system("Unknown"));
    assert!(r == Err(CompileError::UnresolvedTypeError(Some("Unknown".to_string()))));
}

#[test]
fn duplicate_data_in_one_module_aborts_resolution() {
    let mut raw = raw_point_system("Point");
    let copy = raw.units[0].modules[0].datas[0].clone();
    raw.units[0].modules[0].datas.push(copy);
    let r = resolve_system(&raw);
    assert!(r == Err(CompileError::DuplicateDeclarationError(Name::from_str("unitA.m.Point"))));
}

#[test]
fn nohint_without_binding_site_aborts_resolution() {
    let mut raw = raw_point_system("Point");
    raw.units[0].modules[0].functions[0].args[0].ty = Type::new_unsovled_nohint();
    raw.units[0].modules[0].functions[0].annotations = vec![];
    let r = resolve_system(&raw);
    assert!(r == Err(CompileError::UnresolvedTypeError(None)));
}
