use sysdc_core::error::CompileError;
use sysdc_core::name::Name;
use sysdc_core::resolver::{find_duplicate, resolve_hint, ScopeFrame};
use sysdc_core::types::{Type, TypeKind};

#[test]
fn hint_i32_resolves_to_the_primitive() {
    let t = Type::from("i32".to_string());
    assert_eq!(t.kind, TypeKind::Int32);
    assert!(t.refs.is_none());

    let frames: Vec<ScopeFrame> = vec![ScopeFrame::new()];
    let r = resolve_hint(&frames, &"i32".to_string());
    assert!(r == Ok(Type::new(TypeKind::Int32, None)));
}

#[test]
fn other_hints_stay_unsolved_before_lookup() {
    let t = Type::from("Point".to_string());
    assert_eq!(t.kind, TypeKind::Unsolved("Point".to_string()));
    assert!(t.refs.is_none());
}

#[test]
fn declared_data_resolves_with_canonical_reference() {
    let module_name = Name::child(&Name::child(&Name::root(), "unitA"), "m");
    let canonical = Name::child(&module_name, "Point");
    let mut frame = ScopeFrame::new();
    frame.push_data("Point".to_string(), canonical.clone());
    let frames = vec![frame];

    let r = resolve_hint(&frames, &"Point".to_string());
    assert!(r == Ok(Type::new(TypeKind::Data, Some(canonical))));
}

#[test]
fn nearest_enclosing_scope_wins() {
    let outer_canonical = Name::from_str("outer.Point");
    let inner_canonical = Name::from_str("outer.inner.Point");
    let mut outer = ScopeFrame::new();
    outer.push_data("Point".to_string(), outer_canonical);
    let mut inner = ScopeFrame::new();
    inner.push_data("Point".to_string(), inner_canonical.clone());
    let frames = vec![outer, inner];

    let r = resolve_hint(&frames, &"Point".to_string());
    assert!(r == Ok(Type::new(TypeKind::Data, Some(inner_canonical))));
}

#[test]
fn unknown_hint_fails_with_unresolved_type_error() {
    let frames: Vec<ScopeFrame> = vec![ScopeFrame::new()];
    let r = resolve_hint(&frames, &"Unknown".to_string());
    assert!(r == Err(CompileError::UnresolvedTypeError(Some("Unknown".to_string()))));
}

#[test]
fn duplicate_data_names_are_reported() {
    let m = Name::child(&Name::root(), "m");
    let names = vec![
        Name::child(&m, "Point"),
        Name::child(&m, "Size"),
        Name::child(&m, "Point"),
    ];
    let d = find_duplicate(&names);
    assert!(d == Some(Name::child(&m, "Point")));
}

#[test]
fn distinct_names_pass_duplicate_detection() {
    let m = Name::child(&Name::root(), "m");
    let names = vec![Name::child(&m, "Point"), Name::child(&m, "Size")];
    assert!(find_duplicate(&names).is_none());
}

#[test]
fn names_compare_by_full_path() {
    let a = Name::child(&Name::child(&Name::root(), "u"), "m");
    let b = Name::from_str("u.m");
    assert!(a.same(&b));
    assert!(a == b);
    let c = Name::from_str("u.n");
    assert!(!a.same(&c));
}
