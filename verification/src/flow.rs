use vstd::prelude::*;
use vstd::string::*;

use crate::name::Name;
use crate::structure::{
    AnnotationModel, BindModel, DetailModel, FunctionModel, SysDCAnnotation, SysDCFunction,
    SysDCSpawnDetail, SysDCSystem,
};

verus! {

// ------------------------------------------------------------------
// The read-only flow-graph view of a resolved model: parameters and
// spawn results are nodes; an edge runs from each used variable to the
// target, result or binding that consumes it.
// ------------------------------------------------------------------

/// One directed edge of a function's data-flow graph.
#[derive(Clone, PartialEq)]
pub struct FlowEdge {
    pub from: Name,
    pub to: Name,
}

impl View for FlowEdge {
    type V = (Seq<char>, Seq<char>);

    open spec fn view(&self) -> (Seq<char>, Seq<char>) {
        (self.from@, self.to@)
    }
}

/// Concatenation of the pieces contributed by each item of a list.
pub open spec fn cat<A, B>(items: Seq<A>, f: spec_fn(A) -> Seq<B>) -> Seq<B>
    decreases items.len(),
{
    if items.len() == 0 {
        Seq::empty()
    } else {
        f(items.first()) + cat(items.drop_first(), f)
    }
}

pub proof fn lemma_cat_concat<A, B>(s1: Seq<A>, s2: Seq<A>, f: spec_fn(A) -> Seq<B>)
    ensures
        cat(s1 + s2, f) == cat(s1, f) + cat(s2, f),
    decreases s1.len(),
{
    if s1.len() == 0 {
        assert(s1 + s2 =~= s2);
        assert(cat(s1, f) + cat(s2, f) =~= cat(s2, f));
    } else {
        assert((s1 + s2).first() == s1.first());
        assert((s1 + s2).drop_first() =~= s1.drop_first() + s2);
        lemma_cat_concat(s1.drop_first(), s2, f);
        assert(cat(s1 + s2, f) =~= cat(s1, f) + cat(s2, f));
    }
}

/// One more item extends the concatenation by that item's piece.
pub proof fn lemma_cat_snoc<A, B>(s: Seq<A>, i: int, f: spec_fn(A) -> Seq<B>)
    requires
        0 <= i < s.len(),
    ensures
        cat(s.take(i + 1), f) == cat(s.take(i), f) + f(s[i]),
{
    let single = seq![s[i]];
    assert(s.take(i + 1) =~= s.take(i) + single);
    lemma_cat_concat(s.take(i), single, f);
    assert(single.first() == s[i]);
    assert(single.drop_first() =~= Seq::<A>::empty());
    assert(cat(single, f) == f(s[i]) + cat(Seq::<A>::empty(), f));
    assert(f(s[i]) + Seq::<B>::empty() =~= f(s[i]));
}

/// The nodes one spawn detail contributes: the used variable or the
/// introduced binding.
pub open spec fn nodes_of_detail(d: DetailModel) -> Seq<Seq<char>> {
    match d {
        DetailModel::Use(b) => seq![b.name],
        DetailModel::LetTo { name, func, args } => seq![name],
        DetailModel::Other(b) => Seq::empty(),
    }
}

/// The nodes one annotation contributes: a spawn's result and its
/// details; a modify writes an existing node and adds none.
pub open spec fn nodes_of_annotation(a: AnnotationModel) -> Seq<Seq<char>> {
    match a {
        AnnotationModel::Modify { target, uses } => Seq::empty(),
        AnnotationModel::Spawn { result, details } => seq![result.name] + cat(
            details,
            |d: DetailModel| nodes_of_detail(d),
        ),
    }
}

/// A function's nodes: its parameters, then its annotations' nodes.
pub open spec fn nodes_of_function(f: FunctionModel) -> Seq<Seq<char>> {
    f.args.map_values(|b: BindModel| b.name) + cat(
        f.annotations,
        |a: AnnotationModel| nodes_of_annotation(a),
    )
}

/// The edges one spawn detail contributes: a `Use` feeds the result;
/// each `LetTo` argument feeds the introduced binding.
pub open spec fn edges_of_detail(d: DetailModel, result: Seq<char>) -> Seq<(Seq<char>, Seq<char>)> {
    match d {
        DetailModel::Use(b) => seq![(b.name, result)],
        DetailModel::LetTo { name, func, args } => args.map_values(
            |a: BindModel| (a.name, name),
        ),
        DetailModel::Other(b) => Seq::empty(),
    }
}

/// The edges one annotation contributes: each `uses` entry feeds the
/// modify target; each detail feeds the spawn's result or binding.
pub open spec fn edges_of_annotation(a: AnnotationModel) -> Seq<(Seq<char>, Seq<char>)> {
    match a {
        AnnotationModel::Modify { target, uses } => uses.map_values(
            |u: BindModel| (u.name, target.name),
        ),
        AnnotationModel::Spawn { result, details } => cat(
            details,
            |d: DetailModel| edges_of_detail(d, result.name),
        ),
    }
}

/// A function's edges, in annotation order.
pub open spec fn edges_of_function(f: FunctionModel) -> Seq<(Seq<char>, Seq<char>)> {
    cat(f.annotations, |a: AnnotationModel| edges_of_annotation(a))
}

fn copy_name(n: &Name) -> (r: Name)
    ensures
        r@ == n@,
{
    Name { path: String::from_str(n.path.as_str()) }
}

/// Collects one function's flow graph: nodes for its parameters, spawn
/// results, used variables and introduced bindings, and an edge from
/// each source variable to what consumes it.
#[verifier::rlimit(100)]
#[verifier::spinoff_prover]
pub fn gen_func_flow(func: &SysDCFunction, nodes: &mut Vec<Name>, edges: &mut Vec<FlowEdge>)
    ensures
        final(nodes)@.map_values(|n: Name| n@) == old(nodes)@.map_values(|n: Name| n@)
            + nodes_of_function(func@),
        final(edges)@.map_values(|e: FlowEdge| e@) == old(edges)@.map_values(|e: FlowEdge| e@)
            + edges_of_function(func@),
{
    let ghost n0 = old(nodes)@.map_values(|n: Name| n@);
    let ghost e0 = old(edges)@.map_values(|e: FlowEdge| e@);
    let ghost fargs = func@.args;
    let ghost fanns = func@.annotations;

    let mut i: usize = 0;
    while i < func.args.len()
        invariant
            i <= func.args.len(),
            fargs == func@.args,
            fargs.len() == func.args@.len(),
            n0 == old(nodes)@.map_values(|n: Name| n@),
            nodes@.map_values(|n: Name| n@) == n0 + fargs.take(i as int).map_values(
                |b: BindModel| b.name,
            ),
        decreases func.args.len() - i,
    {
        proof {
            assert(fargs[i as int] == func.args@[i as int]@);
        }
        let ghost prev = nodes@.map_values(|n: Name| n@);
        nodes.push(copy_name(&func.args[i].name));
        proof {
            assert(nodes@.map_values(|n: Name| n@) =~= prev.push(fargs[i as int].name));
            assert(fargs.take(i as int + 1).map_values(|b: BindModel| b.name) =~= fargs.take(
                i as int,
            ).map_values(|b: BindModel| b.name).push(fargs[i as int].name));
            assert(n0 + fargs.take(i as int).map_values(|b: BindModel| b.name).push(
                fargs[i as int].name,
            ) =~= prev.push(fargs[i as int].name));
        }
        i = i + 1;
    }
    proof {
        assert(fargs.take(fargs.len() as int) =~= fargs);
    }

    let ghost nodecat = |a: AnnotationModel| nodes_of_annotation(a);
    let ghost n1 = n0 + fargs.map_values(|b: BindModel| b.name);
    let mut i: usize = 0;
    while i < func.annotations.len()
        invariant
            i <= func.annotations.len(),
            fanns == func@.annotations,
            fanns.len() == func.annotations@.len(),
            n1 == old(nodes)@.map_values(|n: Name| n@) + func@.args.map_values(
                |b: BindModel| b.name,
            ),
            nodes@.map_values(|n: Name| n@) == n1 + cat(
                fanns.take(i as int),
                |a: AnnotationModel| nodes_of_annotation(a),
            ),
        decreases func.annotations.len() - i,
    {
        proof {
            assert(fanns[i as int] == func.annotations@[i as int]@);
        }
        let ghost nstart = nodes@.map_values(|n: Name| n@);
        match &func.annotations[i] {
            SysDCAnnotation::Modify { target, uses } => {
                proof {
                    assert(nodes_of_annotation(fanns[i as int]) =~= Seq::<Seq<char>>::empty());
                    assert(nstart + Seq::<Seq<char>>::empty() =~= nstart);
                }
            },
            SysDCAnnotation::Spawn { result, details } => {
                nodes.push(copy_name(&result.name));
                let ghost dv = details@.map_values(|d: SysDCSpawnDetail| d@);
                proof {
                    assert(nodes@.map_values(|n: Name| n@) =~= nstart + seq![result.name@]);
                }
                let ghost n2 = nodes@.map_values(|n: Name| n@);
                let mut j: usize = 0;
                while j < details.len()
                    invariant
                        j <= details.len(),
                        dv == details@.map_values(|d: SysDCSpawnDetail| d@),
                        dv.len() == details@.len(),
                        nodes@.map_values(|n: Name| n@) == n2 + cat(
                            dv.take(j as int),
                            |d: DetailModel| nodes_of_detail(d),
                        ),
                    decreases details.len() - j,
                {
                    proof {
                        assert(dv[j as int] == details@[j as int]@);
                    }
                    let ghost before = nodes@.map_values(|n: Name| n@);
                    match &details[j] {
                        SysDCSpawnDetail::Use(nm, t) => {
                            nodes.push(copy_name(nm));
                            proof {
                                assert(nodes@.map_values(|n: Name| n@) =~= before + seq![nm@]);
                            }
                        },
                        SysDCSpawnDetail::LetTo { name, func: lf, args } => {
                            nodes.push(copy_name(name));
                            proof {
                                assert(nodes@.map_values(|n: Name| n@) =~= before + seq![name@]);
                            }
                        },
                        SysDCSpawnDetail::Other(nm, t) => {
                            proof {
                                assert(before + Seq::<Seq<char>>::empty() =~= before);
                            }
                        },
                    }
                    proof {
                        lemma_cat_snoc(dv, j as int, |d: DetailModel| nodes_of_detail(d));
                        assert(nodes@.map_values(|n: Name| n@) =~= n2 + cat(
                            dv.take(j as int + 1),
                            |d: DetailModel| nodes_of_detail(d),
                        ));
                    }
                    j = j + 1;
                }
                proof {
                    assert(dv.take(dv.len() as int) =~= dv);
                    assert(nodes_of_annotation(fanns[i as int]) =~= seq![result.name@] + cat(
                        dv,
                        |d: DetailModel| nodes_of_detail(d),
                    ));
                    assert(nodes@.map_values(|n: Name| n@) =~= nstart + nodes_of_annotation(
                        fanns[i as int],
                    ));
                }
            },
        }
        proof {
            lemma_cat_snoc(fanns, i as int, |a: AnnotationModel| nodes_of_annotation(a));
            assert(nodes@.map_values(|n: Name| n@) =~= n1 + cat(
                fanns.take(i as int + 1),
                |a: AnnotationModel| nodes_of_annotation(a),
            ));
        }
        i = i + 1;
    }
    proof {
        assert(fanns.take(fanns.len() as int) =~= fanns);
        assert(nodes@.map_values(|n: Name| n@) =~= n0 + nodes_of_function(func@));
    }

    let mut i: usize = 0;
    while i < func.annotations.len()
        invariant
            i <= func.annotations.len(),
            fanns == func@.annotations,
            fanns.len() == func.annotations@.len(),
            e0 == old(edges)@.map_values(|e: FlowEdge| e@),
            edges@.map_values(|e: FlowEdge| e@) == e0 + cat(
                fanns.take(i as int),
                |a: AnnotationModel| edges_of_annotation(a),
            ),
        decreases func.annotations.len() - i,
    {
        proof {
            assert(fanns[i as int] == func.annotations@[i as int]@);
        }
        let ghost estart = edges@.map_values(|e: FlowEdge| e@);
        match &func.annotations[i] {
            SysDCAnnotation::Modify { target, uses } => {
                let ghost uv = uses@.map_values(|b: crate::structure::Bind| b@);
                let mut j: usize = 0;
                while j < uses.len()
                    invariant
                        j <= uses.len(),
                        uv == uses@.map_values(|b: crate::structure::Bind| b@),
                        uv.len() == uses@.len(),
                        edges@.map_values(|e: FlowEdge| e@) == estart + uv.take(
                            j as int,
                        ).map_values(|u: BindModel| (u.name, target@.name)),
                    decreases uses.len() - j,
                {
                    proof {
                        assert(uv[j as int] == uses@[j as int]@);
                    }
                    let ghost before = edges@.map_values(|e: FlowEdge| e@);
                    edges.push(FlowEdge {
                        from: copy_name(&uses[j].name),
                        to: copy_name(&target.name),
                    });
                    proof {
                        assert(edges@.map_values(|e: FlowEdge| e@) =~= before + seq![
                            (uv[j as int].name, target@.name),
                        ]);
                        assert(uv.take(j as int + 1).map_values(
                            |u: BindModel| (u.name, target@.name),
                        ) =~= uv.take(j as int).map_values(|u: BindModel| (u.name, target@.name))
                            + seq![(uv[j as int].name, target@.name)]);
                    }
                    j = j + 1;
                }
                proof {
                    assert(uv.take(uv.len() as int) =~= uv);
                    assert(edges_of_annotation(fanns[i as int]) =~= uv.map_values(
                        |u: BindModel| (u.name, target@.name),
                    ));
                }
            },
            SysDCAnnotation::Spawn { result, details } => {
                let ghost dv = details@.map_values(|d: SysDCSpawnDetail| d@);
                let ghost rname = result@.name;
                let mut j: usize = 0;
                while j < details.len()
                    invariant
                        j <= details.len(),
                        dv == details@.map_values(|d: SysDCSpawnDetail| d@),
                        dv.len() == details@.len(),
                        rname == result@.name,
                        edges@.map_values(|e: FlowEdge| e@) == estart + cat(
                            dv.take(j as int),
                            |d: DetailModel| edges_of_detail(d, rname),
                        ),
                    decreases details.len() - j,
                {
                    proof {
                        assert(dv[j as int] == details@[j as int]@);
                    }
                    let ghost before = edges@.map_values(|e: FlowEdge| e@);
                    match &details[j] {
                        SysDCSpawnDetail::Use(nm, t) => {
                            edges.push(FlowEdge {
                                from: copy_name(nm),
                                to: copy_name(&result.name),
                            });
                            proof {
                                assert(edges@.map_values(|e: FlowEdge| e@) =~= before + seq![
                                    (nm@, rname),
                                ]);
                            }
                        },
                        SysDCSpawnDetail::LetTo { name, func: lf, args } => {
                            let ghost av = args@.map_values(|b: crate::structure::Bind| b@);
                            let mut k: usize = 0;
                            while k < args.len()
                                invariant
                                    k <= args.len(),
                                    av == args@.map_values(|b: crate::structure::Bind| b@),
                                    av.len() == args@.len(),
                                    edges@.map_values(|e: FlowEdge| e@) == before + av.take(
                                        k as int,
                                    ).map_values(|a: BindModel| (a.name, name@)),
                                decreases args.len() - k,
                            {
                                proof {
                                    assert(av[k as int] == args@[k as int]@);
                                }
                                let ghost b2 = edges@.map_values(|e: FlowEdge| e@);
                                edges.push(FlowEdge {
                                    from: copy_name(&args[k].name),
                                    to: copy_name(name),
                                });
                                proof {
                                    assert(edges@.map_values(|e: FlowEdge| e@) =~= b2 + seq![
                                        (av[k as int].name, name@),
                                    ]);
                                    assert(av.take(k as int + 1).map_values(
                                        |a: BindModel| (a.name, name@),
                                    ) =~= av.take(k as int).map_values(
                                        |a: BindModel| (a.name, name@),
                                    ) + seq![(av[k as int].name, name@)]);
                                }
                                k = k + 1;
                            }
                            proof {
                                assert(av.take(av.len() as int) =~= av);
                                assert(edges_of_detail(dv[j as int], rname) =~= av.map_values(
                                    |a: BindModel| (a.name, name@),
                                ));
                            }
                        },
                        SysDCSpawnDetail::Other(nm, t) => {
                            proof {
                                assert(before + Seq::<(Seq<char>, Seq<char>)>::empty() =~= before);
                            }
                        },
                    }
                    proof {
                        lemma_cat_snoc(dv, j as int, |d: DetailModel| edges_of_detail(d, rname));
                        assert(edges@.map_values(|e: FlowEdge| e@) =~= estart + cat(
                            dv.take(j as int + 1),
                            |d: DetailModel| edges_of_detail(d, rname),
                        ));
                    }
                    j = j + 1;
                }
                proof {
                    assert(dv.take(dv.len() as int) =~= dv);
                    assert(edges_of_annotation(fanns[i as int]) =~= cat(
                        dv,
                        |d: DetailModel| edges_of_detail(d, rname),
                    ));
                }
            },
        }
        proof {
            lemma_cat_snoc(fanns, i as int, |a: AnnotationModel| edges_of_annotation(a));
            assert(edges@.map_values(|e: FlowEdge| e@) =~= e0 + cat(
                fanns.take(i as int + 1),
                |a: AnnotationModel| edges_of_annotation(a),
            ));
        }
        i = i + 1;
    }
    proof {
        assert(fanns.take(fanns.len() as int) =~= fanns);
        assert(edges@.map_values(|e: FlowEdge| e@) =~= e0 + edges_of_function(func@));
    }
}


/// The nodes of every function of the model, in traversal order:
/// units, then modules, then functions.
pub open spec fn nodes_of_system(m: crate::structure::SystemModel) -> Seq<Seq<char>> {
    cat(
        m.units,
        |u: crate::structure::UnitModel|
            cat(
                u.modules,
                |md: crate::structure::ModuleModel|
                    cat(md.functions, |f: FunctionModel| nodes_of_function(f)),
            ),
    )
}

/// The edges of every function of the model, in the same order.
pub open spec fn edges_of_system(m: crate::structure::SystemModel) -> Seq<(Seq<char>, Seq<char>)> {
    cat(
        m.units,
        |u: crate::structure::UnitModel|
            cat(
                u.modules,
                |md: crate::structure::ModuleModel|
                    cat(md.functions, |f: FunctionModel| edges_of_function(f)),
            ),
    )
}

/// Derives the whole model's flow graph, function by function, without
/// touching the model itself.
#[verifier::rlimit(100)]
#[verifier::spinoff_prover]
pub fn get_flow(system: &SysDCSystem) -> (r: (Vec<Name>, Vec<FlowEdge>))
    ensures
        r.0@.map_values(|n: Name| n@) == nodes_of_system(system@),
        r.1@.map_values(|e: FlowEdge| e@) == edges_of_system(system@),
{
    let ghost uv = system@.units;
    let ghost nodef = |u: crate::structure::UnitModel|
        cat(
            u.modules,
            |md: crate::structure::ModuleModel|
                cat(md.functions, |f: FunctionModel| nodes_of_function(f)),
        );
    let ghost edgef = |u: crate::structure::UnitModel|
        cat(
            u.modules,
            |md: crate::structure::ModuleModel|
                cat(md.functions, |f: FunctionModel| edges_of_function(f)),
        );
    let mut nodes: Vec<Name> = Vec::new();
    let mut edges: Vec<FlowEdge> = Vec::new();
    proof {
        assert(nodes@.map_values(|n: Name| n@) =~= cat(uv.take(0), nodef));
        assert(edges@.map_values(|e: FlowEdge| e@) =~= cat(uv.take(0), edgef));
    }
    let mut i: usize = 0;
    while i < system.units.len()
        invariant
            i <= system.units.len(),
            uv == system@.units,
            uv.len() == system.units@.len(),
            nodes@.map_values(|n: Name| n@) == cat(
                uv.take(i as int),
                |u: crate::structure::UnitModel|
                    cat(
                        u.modules,
                        |md: crate::structure::ModuleModel|
                            cat(md.functions, |f: FunctionModel| nodes_of_function(f)),
                    ),
            ),
            edges@.map_values(|e: FlowEdge| e@) == cat(
                uv.take(i as int),
                |u: crate::structure::UnitModel|
                    cat(
                        u.modules,
                        |md: crate::structure::ModuleModel|
                            cat(md.functions, |f: FunctionModel| edges_of_function(f)),
                    ),
            ),
        decreases system.units.len() - i,
    {
        proof {
            assert(uv[i as int] == system.units@[i as int]@);
        }
        let unit = &system.units[i];
        let ghost mv = unit@.modules;
        let ghost nstart = nodes@.map_values(|n: Name| n@);
        let ghost estart = edges@.map_values(|e: FlowEdge| e@);
        let mut j: usize = 0;
        while j < unit.modules.len()
            invariant
                j <= unit.modules.len(),
                mv == unit@.modules,
                mv.len() == unit.modules@.len(),
                nodes@.map_values(|n: Name| n@) == nstart + cat(
                    mv.take(j as int),
                    |md: crate::structure::ModuleModel|
                        cat(md.functions, |f: FunctionModel| nodes_of_function(f)),
                ),
                edges@.map_values(|e: FlowEdge| e@) == estart + cat(
                    mv.take(j as int),
                    |md: crate::structure::ModuleModel|
                        cat(md.functions, |f: FunctionModel| edges_of_function(f)),
                ),
            decreases unit.modules.len() - j,
        {
            proof {
                assert(mv[j as int] == unit.modules@[j as int]@);
            }
            let module = &unit.modules[j];
            let ghost fv = module@.functions;
            let ghost nstart2 = nodes@.map_values(|n: Name| n@);
            let ghost estart2 = edges@.map_values(|e: FlowEdge| e@);
            let mut k: usize = 0;
            while k < module.functions.len()
                invariant
                    k <= module.functions.len(),
                    fv == module@.functions,
                    fv.len() == module.functions@.len(),
                    nodes@.map_values(|n: Name| n@) == nstart2 + cat(
                        fv.take(k as int),
                        |f: FunctionModel| nodes_of_function(f),
                    ),
                    edges@.map_values(|e: FlowEdge| e@) == estart2 + cat(
                        fv.take(k as int),
                        |f: FunctionModel| edges_of_function(f),
                    ),
                decreases module.functions.len() - k,
            {
                proof {
                    assert(fv[k as int] == module.functions@[k as int]@);
                }
                gen_func_flow(&module.functions[k], &mut nodes, &mut edges);
                proof {
                    lemma_cat_snoc(fv, k as int, |f: FunctionModel| nodes_of_function(f));
                    lemma_cat_snoc(fv, k as int, |f: FunctionModel| edges_of_function(f));
                    assert(nodes@.map_values(|n: Name| n@) =~= nstart2 + cat(
                        fv.take(k as int + 1),
                        |f: FunctionModel| nodes_of_function(f),
                    ));
                    assert(edges@.map_values(|e: FlowEdge| e@) =~= estart2 + cat(
                        fv.take(k as int + 1),
                        |f: FunctionModel| edges_of_function(f),
                    ));
                }
                k = k + 1;
            }
            proof {
                assert(fv.take(fv.len() as int) =~= fv);
                lemma_cat_snoc(
                    mv,
                    j as int,
                    |md: crate::structure::ModuleModel|
                        cat(md.functions, |f: FunctionModel| nodes_of_function(f)),
                );
                lemma_cat_snoc(
                    mv,
                    j as int,
                    |md: crate::structure::ModuleModel|
                        cat(md.functions, |f: FunctionModel| edges_of_function(f)),
                );
                assert(nodes@.map_values(|n: Name| n@) =~= nstart + cat(
                    mv.take(j as int + 1),
                    |md: crate::structure::ModuleModel|
                        cat(md.functions, |f: FunctionModel| nodes_of_function(f)),
                ));
                assert(edges@.map_values(|e: FlowEdge| e@) =~= estart + cat(
                    mv.take(j as int + 1),
                    |md: crate::structure::ModuleModel|
                        cat(md.functions, |f: FunctionModel| edges_of_function(f)),
                ));
            }
            j = j + 1;
        }
        proof {
            assert(mv.take(mv.len() as int) =~= mv);
            lemma_cat_snoc(
                uv,
                i as int,
                |u: crate::structure::UnitModel|
                    cat(
                        u.modules,
                        |md: crate::structure::ModuleModel|
                            cat(md.functions, |f: FunctionModel| nodes_of_function(f)),
                    ),
            );
            lemma_cat_snoc(
                uv,
                i as int,
                |u: crate::structure::UnitModel|
                    cat(
                        u.modules,
                        |md: crate::structure::ModuleModel|
                            cat(md.functions, |f: FunctionModel| edges_of_function(f)),
                    ),
            );
            assert(nodes@.map_values(|n: Name| n@) =~= cat(
                uv.take(i as int + 1),
                |u: crate::structure::UnitModel|
                    cat(
                        u.modules,
                        |md: crate::structure::ModuleModel|
                            cat(md.functions, |f: FunctionModel| nodes_of_function(f)),
                    ),
            ));
            assert(edges@.map_values(|e: FlowEdge| e@) =~= cat(
                uv.take(i as int + 1),
                |u: crate::structure::UnitModel|
                    cat(
                        u.modules,
                        |md: crate::structure::ModuleModel|
                            cat(md.functions, |f: FunctionModel| edges_of_function(f)),
                    ),
            ));
        }
        i = i + 1;
    }
    proof {
        assert(uv.take(uv.len() as int) =~= uv);
    }
    (nodes, edges)
}

} // verus!
