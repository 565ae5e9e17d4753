use sysdc_core::flow::{gen_func_flow, get_flow, FlowEdge};
use sysdc_core::name::Name;
use sysdc_core::structure::{
    Bind, SysDCAnnotation, SysDCData, SysDCFunction, SysDCModule, SysDCSpawnDetail, SysDCSystem,
    SysDCUnit,
};
use sysdc_core::types::{Type, TypeKind};

fn point_ty(module_name: &Name) -> Type {
    Type::new(TypeKind::Data, Some(Name::child(module_name, "Point")))
}

fn modify_self_module() -> SysDCModule {
    let module_name = Name::child(&Name::child(&Name::root(), "unitA"), "m");
    let point = SysDCData {
        name: Name::child(&module_name, "Point"),
        members: vec![
            Bind::new(Name::from_str("x"), Type::new(TypeKind::Int32, None)),
            Bind::new(Name::from_str("y"), Type::new(TypeKind::Int32, None)),
        ],
    };
    let f = SysDCFunction {
        name: Name::child(&module_name, "f"),
        args: vec![Bind::new(Name::from_str("p"), point_ty(&module_name))],
        annotations: vec![SysDCAnnotation::Modify {
            target: Bind::new(Name::from_str("p"), point_ty(&module_name)),
            uses: vec![Bind::new(Name::from_str("p"), point_ty(&module_name))],
        }],
    };
    SysDCModule {
        name: module_name,
        datas: vec![point],
        functions: vec![f],
    }
}

#[test]
fn modify_gives_one_node_with_a_self_loop() {
    let module = modify_self_module();
    let mut nodes: Vec<Name> = vec![];
    let mut edges: Vec<FlowEdge> = vec![];
    gen_func_flow(&module.functions[0], &mut nodes, &mut edges);
    assert!(nodes == vec![Name::from_str("p")]);
    assert!(
        edges
            == vec![FlowEdge {
                from: Name::from_str("p"),
                to: Name::from_str("p"),
            }]
    );
}

#[test]
fn system_flow_walks_every_function() {
    let sys = SysDCSystem {
        units: vec![SysDCUnit {
            name: Name::child(&Name::root(), "unitA"),
            modules: vec![modify_self_module()],
        }],
    };
    let (nodes, edges) = get_flow(&sys);
    assert!(nodes == vec![Name::from_str("p")]);
    assert_eq!(edges.len(), 1);
}

#[test]
fn spawn_contributes_result_use_and_binding_nodes() {
    let f = SysDCFunction {
        name: Name::from_str("g"),
        args: vec![Bind::new(Name::from_str("a"), Type::new(TypeKind::Int32, None))],
        annotations: vec![SysDCAnnotation::Spawn {
            result: Bind::new(Name::from_str("r"), Type::new(TypeKind::Int32, None)),
            details: vec![
                SysDCSpawnDetail::Use(Name::from_str("a"), Type::new(TypeKind::Int32, None)),
                SysDCSpawnDetail::LetTo {
                    name: Name::from_str("tmp"),
                    func: Bind::new(Name::from_str("h"), Type::new(TypeKind::Int32, None)),
                    args: vec![Bind::new(Name::from_str("a"), Type::new(TypeKind::Int32, None))],
                },
            ],
        }],
    };
    let mut nodes: Vec<Name> = vec![];
    let mut edges: Vec<FlowEdge> = vec![];
    gen_func_flow(&f, &mut nodes, &mut edges);
    let names: Vec<String> = nodes.into_iter().map(|n| n.path).collect();
    assert_eq!(names, vec!["a", "r", "a", "tmp"]);
    // a -> r (the use feeds the result), a -> tmp (the argument feeds
    // the introduced binding).
    assert_eq!(edges.len(), 2);
    assert!(edges[0].from == Name::from_str("a") && edges[0].to == Name::from_str("r"));
    assert!(edges[1].from == Name::from_str("a") && edges[1].to == Name::from_str("tmp"));
}
