use sysdc_core::error::CompileError;
use sysdc_core::name::Name;
use sysdc_core::structure::{Bind, SysDCAnnotation, SysDCFunction, SysDCSpawnDetail};
use sysdc_core::types::{Type, TypeKind};
use sysdc_core::validator::validate_function;

fn i32_ty() -> Type {
    Type::new(TypeKind::Int32, None)
}

#[test]
fn spawn_using_an_undeclared_variable_fails() {
    let g = SysDCFunction {
        name: Name::from_str("g"),
        args: vec![],
        annotations: vec![SysDCAnnotation::Spawn {
            result: Bind::new(Name::from_str("r"), i32_ty()),
            details: vec![SysDCSpawnDetail::Use(Name::from_str("q"), i32_ty())],
        }],
    };
    let r = validate_function(&g);
    assert!(r == Err(CompileError::UndeclaredVariableError(Name::from_str("q"))));
}

#[test]
fn references_see_only_earlier_bindings() {
    // The modify references `r` before the spawn that introduces it.
    let f = SysDCFunction {
        name: Name::from_str("f"),
        args: vec![Bind::new(Name::from_str("a"), i32_ty())],
        annotations: vec![
            SysDCAnnotation::Modify {
                target: Bind::new(Name::from_str("r"), i32_ty()),
                uses: vec![],
            },
            SysDCAnnotation::Spawn {
                result: Bind::new(Name::from_str("r"), i32_ty()),
                details: vec![SysDCSpawnDetail::Use(Name::from_str("a"), i32_ty())],
            },
        ],
    };
    let r = validate_function(&f);
    assert!(r == Err(CompileError::UndeclaredVariableError(Name::from_str("r"))));

    // The same two annotations in the natural order pass.
    let g = SysDCFunction {
        name: Name::from_str("f"),
        args: vec![Bind::new(Name::from_str("a"), i32_ty())],
        annotations: vec![
            SysDCAnnotation::Spawn {
                result: Bind::new(Name::from_str("r"), i32_ty()),
                details: vec![SysDCSpawnDetail::Use(Name::from_str("a"), i32_ty())],
            },
            SysDCAnnotation::Modify {
                target: Bind::new(Name::from_str("r"), i32_ty()),
                uses: vec![],
            },
        ],
    };
    assert!(validate_function(&g).is_ok());
}

#[test]
fn spawn_result_must_be_fresh() {
    let f = SysDCFunction {
        name: Name::from_str("f"),
        args: vec![Bind::new(Name::from_str("a"), i32_ty())],
        annotations: vec![SysDCAnnotation::Spawn {
            result: Bind::new(Name::from_str("a"), i32_ty()),
            details: vec![],
        }],
    };
    let r = validate_function(&f);
    assert!(r == Err(CompileError::DuplicateDeclarationError(Name::from_str("a"))));
}

#[test]
fn reference_types_must_match_the_binding_site() {
    let f = SysDCFunction {
        name: Name::from_str("f"),
        args: vec![Bind::new(Name::from_str("a"), i32_ty())],
        annotations: vec![SysDCAnnotation::Modify {
            target: Bind::new(
                Name::from_str("a"),
                Type::new(TypeKind::Data, Some(Name::from_str("m.Point"))),
            ),
            uses: vec![],
        }],
    };
    let r = validate_function(&f);
    assert!(matches!(r, Err(CompileError::TypeMismatchError(_, _))));
}

#[test]
fn nohint_result_takes_the_first_binding_site_type() {
    let f = SysDCFunction {
        name: Name::from_str("f"),
        args: vec![Bind::new(Name::from_str("a"), i32_ty())],
        annotations: vec![SysDCAnnotation::Spawn {
            result: Bind::new(Name::from_str("r"), Type::new_unsovled_nohint()),
            details: vec![SysDCSpawnDetail::Use(Name::from_str("a"), i32_ty())],
        }],
    };
    let g = match validate_function(&f) {
        Ok(g) => g,
        Err(_) => panic!("inference must succeed"),
    };
    match &g.annotations[0] {
        SysDCAnnotation::Spawn { result, .. } => {
            assert_eq!(result.ty.kind, TypeKind::Int32);
        }
        _ => panic!("the spawn must survive validation"),
    }
}

#[test]
fn nohint_result_without_a_binding_site_fails() {
    let f = SysDCFunction {
        name: Name::from_str("f"),
        args: vec![],
        annotations: vec![SysDCAnnotation::Spawn {
            result: Bind::new(Name::from_str("r"), Type::new_unsovled_nohint()),
            details: vec![],
        }],
    };
    let r = validate_function(&f);
    assert!(r == Err(CompileError::UnresolvedTypeError(None)));
}
