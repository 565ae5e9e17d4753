use vstd::prelude::*;

use crate::flow::{
    cat, edges_of_annotation, edges_of_detail, edges_of_function, nodes_of_annotation,
    nodes_of_detail, nodes_of_function,
};
use crate::structure::{AnnotationModel, BindModel, DetailModel, FunctionModel};
use crate::validator::{
    bound_in, check_annotation_step, check_annotations, check_detail_step, check_details,
    check_function, check_ref, check_refs, infer_result, lemma_bound_iff,
};

verus! {

// ------------------------------------------------------------------
// The flow graph of a validated function is closed: every edge
// endpoint is one of its nodes. References pass validation only when
// they are bound by a parameter or an earlier result or binding, and
// parameters, results, used variables and bindings are all nodes.
// ------------------------------------------------------------------

/// The names bound in a local scope.
pub open spec fn names_of(s: Seq<BindModel>) -> Seq<Seq<char>> {
    s.map_values(|b: BindModel| b.name)
}

/// The nodes a detail list contributes.
pub open spec fn detail_nodes(details: Seq<DetailModel>) -> Seq<Seq<char>> {
    cat(details, |d: DetailModel| nodes_of_detail(d))
}

/// The edges a detail list contributes toward a spawn result.
pub open spec fn detail_edges(details: Seq<DetailModel>, res: Seq<char>) -> Seq<
    (Seq<char>, Seq<char>),
> {
    cat(details, |d: DetailModel| edges_of_detail(d, res))
}

/// The nodes an annotation list contributes.
pub open spec fn ann_nodes(anns: Seq<AnnotationModel>) -> Seq<Seq<char>> {
    cat(anns, |a: AnnotationModel| nodes_of_annotation(a))
}

/// The edges an annotation list contributes.
pub open spec fn ann_edges(anns: Seq<AnnotationModel>) -> Seq<(Seq<char>, Seq<char>)> {
    cat(anns, |a: AnnotationModel| edges_of_annotation(a))
}

pub proof fn lemma_contains_concat<A>(s1: Seq<A>, s2: Seq<A>)
    ensures
        forall|x: A| #[trigger] (s1 + s2).contains(x) <==> s1.contains(x) || s2.contains(x),
{
    assert forall|x: A| #[trigger] (s1 + s2).contains(x) <==> s1.contains(x) || s2.contains(x) by {
        if (s1 + s2).contains(x) {
            let i = choose|i: int| 0 <= i < (s1 + s2).len() && (s1 + s2)[i] == x;
            if i < s1.len() {
                assert(s1[i] == x);
            } else {
                assert(s2[i - s1.len()] == x);
            }
        }
        if s1.contains(x) {
            let i = choose|i: int| 0 <= i < s1.len() && s1[i] == x;
            assert((s1 + s2)[i] == x);
        }
        if s2.contains(x) {
            let i = choose|i: int| 0 <= i < s2.len() && s2[i] == x;
            assert((s1 + s2)[s1.len() + i] == x);
        }
    }
}

/// A reference list that passes checking references only bound names.
pub proof fn lemma_refs_bound(scope: Seq<BindModel>, uses: Seq<BindModel>)
    requires
        check_refs(scope, uses) is Ok,
    ensures
        forall|i: int| 0 <= i < uses.len() ==> names_of(scope).contains(#[trigger] uses[i].name),
    decreases uses.len(),
{
    if uses.len() == 0 {
    } else {
        lemma_bound_iff(scope, uses.first().name);
        let idx = choose|idx: int| 0 <= idx < scope.len() && scope[idx].name == uses.first().name;
        assert(names_of(scope)[idx] == uses.first().name);
        assert(names_of(scope).contains(uses.first().name));
        lemma_refs_bound(scope, uses.drop_first());
        assert forall|i: int|
            0 <= i < uses.len() implies names_of(scope).contains(#[trigger] uses[i].name) by {
            if i > 0 {
                assert(uses.drop_first()[i - 1] == uses[i]);
            }
        }
    }
}

/// One checked reference is a bound name.
pub proof fn lemma_ref_bound(scope: Seq<BindModel>, b: BindModel)
    requires
        check_ref(scope, b) is Ok,
    ensures
        names_of(scope).contains(b.name),
{
    lemma_bound_iff(scope, b.name);
    let idx = choose|idx: int| 0 <= idx < scope.len() && scope[idx].name == b.name;
    assert(names_of(scope)[idx] == b.name);
}

/// Checked spawn details: the scope grows only by names that are nodes
/// of the details, and every edge they contribute runs from a name
/// bound on entry or a detail node to a detail node or the result.
pub proof fn lemma_details_closed(scope: Seq<BindModel>, details: Seq<DetailModel>, res: Seq<char>)
    requires
        check_details(scope, details) is Ok,
    ensures
        forall|x: Seq<char>|
            #[trigger] names_of(check_details(scope, details)->Ok_0).contains(x) ==> names_of(
                scope,
            ).contains(x) || detail_nodes(details).contains(x),
        forall|e: (Seq<char>, Seq<char>)|
            #[trigger] detail_edges(details, res).contains(e) ==> (names_of(scope).contains(e.0)
                || detail_nodes(details).contains(e.0)) && (e.1 == res || detail_nodes(
                details,
            ).contains(e.1)),
    decreases details.len(),
{
    if details.len() == 0 {
        assert(detail_edges(details, res) =~= Seq::<(Seq<char>, Seq<char>)>::empty());
    } else {
        let d0 = details.first();
        let rest = details.drop_first();
        let sc1 = check_detail_step(scope, d0)->Ok_0;
        lemma_details_closed(sc1, rest, res);
        lemma_contains_concat(nodes_of_detail(d0), detail_nodes(rest));
        lemma_contains_concat(edges_of_detail(d0, res), detail_edges(rest, res));
        assert(detail_nodes(details) == nodes_of_detail(d0) + detail_nodes(rest));
        assert(detail_edges(details, res) == edges_of_detail(d0, res) + detail_edges(rest, res));
        match d0 {
            DetailModel::Use(b) => {
                assert(sc1 == scope);
                lemma_ref_bound(scope, b);
                assert(nodes_of_detail(d0)[0] == b.name);
                assert(nodes_of_detail(d0).contains(b.name));
                assert forall|e: (Seq<char>, Seq<char>)|
                    #[trigger] edges_of_detail(d0, res).contains(e) implies e == (b.name, res) by {
                    let i = choose|i: int|
                        0 <= i < edges_of_detail(d0, res).len() && edges_of_detail(d0, res)[i]
                            == e;
                }
            },
            DetailModel::LetTo { name, func, args } => {
                assert(sc1 == scope.push(BindModel { name, ty: func.ty }));
                lemma_refs_bound(scope, args);
                assert(nodes_of_detail(d0)[0] == name);
                assert(nodes_of_detail(d0).contains(name));
                assert forall|x: Seq<char>|
                    #[trigger] names_of(sc1).contains(x) implies names_of(scope).contains(x) || x
                    == name by {
                    let i = choose|i: int| 0 <= i < names_of(sc1).len() && names_of(sc1)[i] == x;
                    if i < scope.len() {
                        assert(names_of(scope)[i] == x);
                    } else {
                        assert(sc1[i].name == name);
                    }
                }
                assert forall|e: (Seq<char>, Seq<char>)|
                    #[trigger] edges_of_detail(d0, res).contains(e) implies names_of(
                    scope,
                ).contains(e.0) && e.1 == name by {
                    let i = choose|i: int|
                        0 <= i < edges_of_detail(d0, res).len() && edges_of_detail(d0, res)[i]
                            == e;
                    assert(e == (args[i].name, name));
                    assert(names_of(scope).contains(args[i].name));
                }
            },
            DetailModel::Other(b) => {
                assert(sc1 == scope);
                assert(edges_of_detail(d0, res) =~= Seq::<(Seq<char>, Seq<char>)>::empty());
            },
        }
    }
}

/// A checked annotation sequence: every edge of the output runs between
/// names bound on entry or nodes of the output, and the final scope
/// holds only such names.
pub proof fn lemma_annotations_closed(scope: Seq<BindModel>, anns: Seq<AnnotationModel>)
    requires
        check_annotations(scope, anns) is Ok,
    ensures
        forall|e: (Seq<char>, Seq<char>)|
            #[trigger] ann_edges(check_annotations(scope, anns)->Ok_0.1).contains(e) ==> (names_of(
                scope,
            ) + ann_nodes(check_annotations(scope, anns)->Ok_0.1)).contains(e.0) && (names_of(
                scope,
            ) + ann_nodes(check_annotations(scope, anns)->Ok_0.1)).contains(e.1),
        forall|x: Seq<char>|
            #[trigger] names_of(check_annotations(scope, anns)->Ok_0.0).contains(x) ==> (names_of(
                scope,
            ) + ann_nodes(check_annotations(scope, anns)->Ok_0.1)).contains(x),
    decreases anns.len(),
{
    if anns.len() == 0 {
        let anns2 = check_annotations(scope, anns)->Ok_0.1;
        assert(anns2 =~= Seq::<AnnotationModel>::empty());
        assert(ann_edges(anns2) =~= Seq::<(Seq<char>, Seq<char>)>::empty());
        lemma_contains_concat(names_of(scope), ann_nodes(anns2));
    } else {
        let a0 = anns.first();
        let rest = anns.drop_first();
        let (sc1, a2) = check_annotation_step(scope, a0)->Ok_0;
        let (sc2, rest2) = check_annotations(sc1, rest)->Ok_0;
        let anns2 = check_annotations(scope, anns)->Ok_0.1;
        assert(anns2 == seq![a2] + rest2);
        assert(anns2.first() == a2);
        assert(anns2.drop_first() =~= rest2);
        assert(ann_nodes(anns2) == nodes_of_annotation(a2) + ann_nodes(rest2));
        assert(ann_edges(anns2) == edges_of_annotation(a2) + ann_edges(rest2));
        let nodes = names_of(scope) + ann_nodes(anns2);
        lemma_contains_concat(names_of(scope), ann_nodes(anns2));
        lemma_contains_concat(nodes_of_annotation(a2), ann_nodes(rest2));
        lemma_contains_concat(edges_of_annotation(a2), ann_edges(rest2));
        lemma_annotations_closed(sc1, rest);
        lemma_contains_concat(names_of(sc1), ann_nodes(rest2));
        match a0 {
            AnnotationModel::Modify { target, uses } => {
                assert(sc1 == scope);
                assert(a2 == a0);
                lemma_ref_bound(scope, target);
                lemma_refs_bound(scope, uses);
                assert forall|e: (Seq<char>, Seq<char>)|
                    #[trigger] edges_of_annotation(a2).contains(e) implies names_of(
                    scope,
                ).contains(e.0) && names_of(scope).contains(e.1) by {
                    let i = choose|i: int|
                        0 <= i < edges_of_annotation(a2).len() && edges_of_annotation(a2)[i] == e;
                    assert(e == (uses[i].name, target.name));
                    assert(names_of(scope).contains(uses[i].name));
                }
            },
            AnnotationModel::Spawn { result, details } => {
                let scd = check_details(scope, details)->Ok_0;
                let r2 = infer_result(result, details)->Ok_0;
                assert(r2.name == result.name);
                assert(sc1 == scd.push(r2));
                assert(a2 == (AnnotationModel::Spawn { result: r2, details }));
                lemma_details_closed(scope, details, result.name);
                assert(nodes_of_annotation(a2) == seq![result.name] + detail_nodes(details));
                lemma_contains_concat(seq![result.name], detail_nodes(details));
                assert(seq![result.name][0] == result.name);
                assert(seq![result.name].contains(result.name));
                assert(edges_of_annotation(a2) == detail_edges(details, result.name));
                assert forall|x: Seq<char>|
                    #[trigger] names_of(sc1).contains(x) implies names_of(scope).contains(x)
                    || nodes_of_annotation(a2).contains(x) by {
                    let i = choose|i: int| 0 <= i < names_of(sc1).len() && names_of(sc1)[i] == x;
                    if i < scd.len() {
                        assert(names_of(scd)[i] == x);
                        assert(names_of(scd).contains(x));
                    } else {
                        assert(sc1[i].name == result.name);
                    }
                }
            },
        }
        assert forall|e: (Seq<char>, Seq<char>)|
            #[trigger] ann_edges(anns2).contains(e) implies nodes.contains(e.0) && nodes.contains(
            e.1,
        ) by {
            if edges_of_annotation(a2).contains(e) {
            } else {
                assert(ann_edges(rest2).contains(e));
                let inner = names_of(sc1) + ann_nodes(rest2);
                assert(inner.contains(e.0) && inner.contains(e.1));
                assert forall|x: Seq<char>| #[trigger] inner.contains(x) implies nodes.contains(
                    x,
                ) by {
                    if names_of(sc1).contains(x) {
                    } else {
                        assert(ann_nodes(rest2).contains(x));
                    }
                }
            }
        }
        assert forall|x: Seq<char>| #[trigger] names_of(sc2).contains(x) implies nodes.contains(
            x,
        ) by {
            let inner = names_of(sc1) + ann_nodes(rest2);
            assert(inner.contains(x));
            if names_of(sc1).contains(x) {
            } else {
                assert(ann_nodes(rest2).contains(x));
            }
        }
    }
}

/// A validated function's flow graph is closed: every edge endpoint
/// appears among the nodes.
pub proof fn lemma_flow_graph_closed(f: FunctionModel)
    requires
        check_function(f) is Ok,
    ensures
        forall|e: (Seq<char>, Seq<char>)|
            #[trigger] edges_of_function(check_function(f)->Ok_0).contains(e)
                ==> nodes_of_function(check_function(f)->Ok_0).contains(e.0) && nodes_of_function(
                check_function(f)->Ok_0,
            ).contains(e.1),
{
    let g = check_function(f)->Ok_0;
    lemma_annotations_closed(f.args, f.annotations);
    assert(g.annotations == check_annotations(f.args, f.annotations)->Ok_0.1);
    assert(g.args == f.args);
    assert(edges_of_function(g) == ann_edges(g.annotations));
    assert(nodes_of_function(g) == names_of(f.args) + ann_nodes(g.annotations));
}

} // verus!
