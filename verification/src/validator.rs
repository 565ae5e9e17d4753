use vstd::prelude::*;

use vstd::string::*;

use crate::error::{CompileError, ErrorModel};
use crate::name::Name;
use crate::structure::{
    binds_view, AnnotationModel, Bind, BindModel, DetailModel, FunctionModel, SysDCAnnotation,
    SysDCFunction, SysDCSpawnDetail,
};
use crate::types::{KindModel, Type, TypeKind, TypeModel};

verus! {

// ------------------------------------------------------------------
// The flow validator: each function's annotation sequence is walked in
// declaration order against a local scope that starts as the parameter
// list and grows as `Spawn` results and `LetTo` bindings appear.
// ------------------------------------------------------------------

/// The type recorded for a name in the local scope: the earliest
/// binding of that name, if any.
pub open spec fn bound_in(scope: Seq<BindModel>, name: Seq<char>) -> Option<TypeModel>
    decreases scope.len(),
{
    if scope.len() == 0 {
        None
    } else if scope.first().name == name {
        Some(scope.first().ty)
    } else {
        bound_in(scope.drop_first(), name)
    }
}

/// A name is bound exactly when some scope entry carries it.
pub proof fn lemma_bound_iff(scope: Seq<BindModel>, name: Seq<char>)
    ensures
        (bound_in(scope, name) is Some) <==> exists|i: int|
            0 <= i < scope.len() && scope[i].name == name,
    decreases scope.len(),
{
    if scope.len() == 0 {
    } else if scope.first().name == name {
        assert(scope[0].name == name);
    } else {
        lemma_bound_iff(scope.drop_first(), name);
        if bound_in(scope, name) is Some {
            let i = choose|i: int|
                0 <= i < scope.drop_first().len() && scope.drop_first()[i].name == name;
            assert(scope[i + 1].name == name);
        } else {
            if exists|i: int| 0 <= i < scope.len() && scope[i].name == name {
                let i = choose|i: int| 0 <= i < scope.len() && scope[i].name == name;
                assert(i != 0);
                assert(scope.drop_first()[i - 1].name == name);
            }
        }
    }
}

/// One variable reference: the name must be bound, and its declared
/// type must structurally equal the type at the binding site.
pub open spec fn check_ref(scope: Seq<BindModel>, b: BindModel) -> Result<(), ErrorModel> {
    match bound_in(scope, b.name) {
        Option::None => Err(ErrorModel::UndeclaredVariable(b.name)),
        Option::Some(t) => if t == b.ty {
            Ok(())
        } else {
            Err(ErrorModel::TypeMismatch(t, b.ty))
        },
    }
}

/// Every reference in the list, in order; the first failure wins.
pub open spec fn check_refs(scope: Seq<BindModel>, uses: Seq<BindModel>) -> Result<(), ErrorModel>
    decreases uses.len(),
{
    if uses.len() == 0 {
        Ok(())
    } else {
        match check_ref(scope, uses.first()) {
            Result::Err(e) => Err(e),
            Result::Ok(u) => check_refs(scope, uses.drop_first()),
        }
    }
}

/// One spawn detail: `Use` references an existing binding; `LetTo`
/// checks its arguments and then introduces its binding, visible to
/// the later details and annotations; other detail kinds are carried
/// through without flow meaning.
pub open spec fn check_detail_step(scope: Seq<BindModel>, d: DetailModel) -> Result<
    Seq<BindModel>,
    ErrorModel,
> {
    match d {
        DetailModel::Use(b) => match check_ref(scope, b) {
            Result::Err(e) => Err(e),
            Result::Ok(u) => Ok(scope),
        },
        DetailModel::LetTo { name, func, args } => match check_refs(scope, args) {
            Result::Err(e) => Err(e),
            Result::Ok(u) => Ok(scope.push(BindModel { name, ty: func.ty })),
        },
        DetailModel::Other(b) => Ok(scope),
    }
}

/// All details of one spawn, in order, growing the scope.
pub open spec fn check_details(scope: Seq<BindModel>, details: Seq<DetailModel>) -> Result<
    Seq<BindModel>,
    ErrorModel,
>
    decreases details.len(),
{
    if details.len() == 0 {
        Ok(scope)
    } else {
        match check_detail_step(scope, details.first()) {
            Result::Err(e) => Err(e),
            Result::Ok(sc) => check_details(sc, details.drop_first()),
        }
    }
}

/// The type of the first binding site among the details: the first
/// `Use`'s type or the first `LetTo`'s recorded result type.
pub open spec fn first_detail_type(details: Seq<DetailModel>) -> Option<TypeModel>
    decreases details.len(),
{
    if details.len() == 0 {
        None
    } else {
        match details.first() {
            DetailModel::Use(b) => Some(b.ty),
            DetailModel::LetTo { name, func, args } => Some(func.ty),
            DetailModel::Other(b) => first_detail_type(details.drop_first()),
        }
    }
}

/// A spawn result with no lexical hint takes the type of its first
/// binding site; with no such site its resolution fails.
pub open spec fn infer_result(result: BindModel, details: Seq<DetailModel>) -> Result<
    BindModel,
    ErrorModel,
> {
    if result.ty.kind is UnsolvedNoHint {
        match first_detail_type(details) {
            Option::Some(t) => Ok(BindModel { name: result.name, ty: t }),
            Option::None => Err(ErrorModel::UnresolvedType(None)),
        }
    } else {
        Ok(result)
    }
}

/// One annotation step: `Modify` only reads the scope; `Spawn` must
/// introduce a fresh name and makes it visible to later annotations.
pub open spec fn check_annotation_step(scope: Seq<BindModel>, a: AnnotationModel) -> Result<
    (Seq<BindModel>, AnnotationModel),
    ErrorModel,
> {
    match a {
        AnnotationModel::Modify { target, uses } => match check_ref(scope, target) {
            Result::Err(e) => Err(e),
            Result::Ok(u) => match check_refs(scope, uses) {
                Result::Err(e) => Err(e),
                Result::Ok(u2) => Ok((scope, a)),
            },
        },
        AnnotationModel::Spawn { result, details } => if bound_in(scope, result.name) is Some {
            Err(ErrorModel::DuplicateDeclaration(result.name))
        } else {
            match check_details(scope, details) {
                Result::Err(e) => Err(e),
                Result::Ok(sc2) => match infer_result(result, details) {
                    Result::Err(e) => Err(e),
                    Result::Ok(r2) => Ok(
                        (sc2.push(r2), AnnotationModel::Spawn { result: r2, details }),
                    ),
                },
            }
        },
    }
}

/// The whole annotation sequence, in declaration order; yields the
/// final scope and the annotations with inferred result types filled.
pub open spec fn check_annotations(scope: Seq<BindModel>, anns: Seq<AnnotationModel>) -> Result<
    (Seq<BindModel>, Seq<AnnotationModel>),
    ErrorModel,
>
    decreases anns.len(),
{
    if anns.len() == 0 {
        Ok((scope, Seq::empty()))
    } else {
        match check_annotation_step(scope, anns.first()) {
            Result::Err(e) => Err(e),
            Result::Ok((sc, a2)) => match check_annotations(sc, anns.drop_first()) {
                Result::Err(e) => Err(e),
                Result::Ok((sc2, rest)) => Ok((sc2, seq![a2] + rest)),
            },
        }
    }
}

/// A whole function body: the local scope starts as the parameters.
pub open spec fn check_function(f: FunctionModel) -> Result<FunctionModel, ErrorModel> {
    match check_annotations(f.args, f.annotations) {
        Result::Err(e) => Err(e),
        Result::Ok((sc, anns)) => Ok(
            FunctionModel { name: f.name, args: f.args, annotations: anns },
        ),
    }
}

// ------------------------------------------------------------------
// The executable walker: it computes exactly what the specification
// fold above describes.
// ------------------------------------------------------------------

fn copy_name(n: &Name) -> (r: Name)
    ensures
        r@ == n@,
{
    Name { path: String::from_str(n.path.as_str()) }
}

fn copy_type(t: &Type) -> (r: Type)
    ensures
        r@ == t@,
{
    let kind = match &t.kind {
        TypeKind::Int32 => TypeKind::Int32,
        TypeKind::Data => TypeKind::Data,
        TypeKind::Unsolved(h) => TypeKind::Unsolved(String::from_str(h.as_str())),
        TypeKind::UnsolvedNoHint => TypeKind::UnsolvedNoHint,
    };
    let refs = match &t.refs {
        Option::Some(n) => Some(copy_name(n)),
        Option::None => None,
    };
    let r = Type { kind, refs };
    proof {
        assert(r@ =~= t@);
    }
    r
}

fn copy_bind(b: &Bind) -> (r: Bind)
    ensures
        r@ == b@,
{
    let r = Bind { name: copy_name(&b.name), ty: copy_type(&b.ty) };
    proof {
        assert(r@ =~= b@);
    }
    r
}

fn copy_binds(v: &Vec<Bind>) -> (r: Vec<Bind>)
    ensures
        binds_view(r@) == binds_view(v@),
{
    let mut out: Vec<Bind> = Vec::new();
    proof {
        assert(binds_view(out@) =~= binds_view(v@).take(0));
    }
    let mut i: usize = 0;
    while i < v.len()
        invariant
            i <= v.len(),
            v@.len() == binds_view(v@).len(),
            binds_view(out@) == binds_view(v@).take(i as int),
        decreases v.len() - i,
    {
        proof {
            assert(binds_view(v@)[i as int] == v@[i as int]@);
        }
        let ghost prev = binds_view(out@);
        out.push(copy_bind(&v[i]));
        proof {
            assert(binds_view(out@) =~= prev.push(binds_view(v@)[i as int]));
            assert(binds_view(v@).take(i as int + 1) =~= binds_view(v@).take(i as int).push(
                binds_view(v@)[i as int],
            ));
        }
        i = i + 1;
    }
    proof {
        assert(binds_view(v@).take(binds_view(v@).len() as int) =~= binds_view(v@));
    }
    out
}

fn lookup_bind(scope: &Vec<Bind>, n: &Name) -> (r: Option<Type>)
    ensures
        match r {
            Option::Some(t) => bound_in(binds_view(scope@), n@) == Some(t@),
            Option::None => bound_in(binds_view(scope@), n@) is None,
        },
{
    let ghost sv = binds_view(scope@);
    proof {
        assert(sv.skip(0) =~= sv);
    }
    let mut i: usize = 0;
    while i < scope.len()
        invariant
            i <= scope.len(),
            sv == binds_view(scope@),
            sv.len() == scope@.len(),
            bound_in(sv, n@) == bound_in(sv.skip(i as int), n@),
        decreases scope.len() - i,
    {
        proof {
            assert(sv[i as int] == scope@[i as int]@);
            assert(sv.skip(i as int).first() == sv[i as int]);
        }
        if scope[i].name.same(n) {
            return Some(copy_type(&scope[i].ty));
        }
        proof {
            assert(sv.skip(i as int).drop_first() =~= sv.skip(i as int + 1));
        }
        i = i + 1;
    }
    proof {
        assert(sv.skip(sv.len() as int) =~= Seq::<BindModel>::empty());
    }
    None
}

/// One variable reference against the local scope, as `check_ref`
/// describes it.
pub fn check_ref_at(scope: &Vec<Bind>, b: &Bind) -> (r: Result<(), CompileError>)
    ensures
        match r {
            Result::Ok(u) => check_ref(binds_view(scope@), b@) == Ok::<(), ErrorModel>(()),
            Result::Err(e) => check_ref(binds_view(scope@), b@) == Err::<(), ErrorModel>(e@),
        },
{
    match lookup_bind(scope, &b.name) {
        Option::None => Err(CompileError::UndeclaredVariableError(copy_name(&b.name))),
        Option::Some(t) => {
            if t.same(&b.ty) {
                Ok(())
            } else {
                Err(CompileError::TypeMismatchError(t, copy_type(&b.ty)))
            }
        },
    }
}

fn walk_refs(scope: &Vec<Bind>, uses: &Vec<Bind>, i: usize) -> (r: Result<(), CompileError>)
    requires
        i <= uses@.len(),
    ensures
        match r {
            Result::Ok(u) => check_refs(binds_view(scope@), binds_view(uses@).skip(i as int))
                == Ok::<(), ErrorModel>(()),
            Result::Err(e) => check_refs(binds_view(scope@), binds_view(uses@).skip(i as int))
                == Err::<(), ErrorModel>(e@),
        },
    decreases uses@.len() - i,
{
    let ghost uv = binds_view(uses@);
    if i == uses.len() {
        proof {
            assert(uv.skip(i as int) =~= Seq::<BindModel>::empty());
        }
        return Ok(());
    }
    proof {
        assert(uv[i as int] == uses@[i as int]@);
        assert(uv.skip(i as int).first() == uv[i as int]);
        assert(uv.skip(i as int).drop_first() =~= uv.skip(i as int + 1));
    }
    match check_ref_at(scope, &uses[i]) {
        Result::Err(e) => Err(e),
        Result::Ok(u) => walk_refs(scope, uses, i + 1),
    }
}

fn first_detail_at(details: &Vec<SysDCSpawnDetail>, i: usize) -> (r: Option<Type>)
    requires
        i <= details@.len(),
    ensures
        match r {
            Option::Some(t) => first_detail_type(
                details@.map_values(|d: SysDCSpawnDetail| d@).skip(i as int),
            ) == Some(t@),
            Option::None => first_detail_type(
                details@.map_values(|d: SysDCSpawnDetail| d@).skip(i as int),
            ) is None,
        },
    decreases details@.len() - i,
{
    let ghost dv = details@.map_values(|d: SysDCSpawnDetail| d@);
    if i == details.len() {
        proof {
            assert(dv.skip(i as int) =~= Seq::<DetailModel>::empty());
        }
        return None;
    }
    proof {
        assert(dv[i as int] == details@[i as int]@);
        assert(dv.skip(i as int).first() == dv[i as int]);
        assert(dv.skip(i as int).drop_first() =~= dv.skip(i as int + 1));
    }
    match &details[i] {
        SysDCSpawnDetail::Use(nm, t) => Some(copy_type(t)),
        SysDCSpawnDetail::LetTo { name, func, args } => Some(copy_type(&func.ty)),
        SysDCSpawnDetail::Other(nm, t) => first_detail_at(details, i + 1),
    }
}

fn walk_details(scope: Vec<Bind>, details: &Vec<SysDCSpawnDetail>, i: usize) -> (r: Result<
    Vec<Bind>,
    CompileError,
>)
    requires
        i <= details@.len(),
    ensures
        match r {
            Result::Ok(sc) => check_details(
                binds_view(scope@),
                details@.map_values(|d: SysDCSpawnDetail| d@).skip(i as int),
            ) == Ok::<Seq<BindModel>, ErrorModel>(binds_view(sc@)),
            Result::Err(e) => check_details(
                binds_view(scope@),
                details@.map_values(|d: SysDCSpawnDetail| d@).skip(i as int),
            ) == Err::<Seq<BindModel>, ErrorModel>(e@),
        },
    decreases details@.len() - i,
{
    let ghost dv = details@.map_values(|d: SysDCSpawnDetail| d@);
    let ghost sv = binds_view(scope@);
    if i == details.len() {
        proof {
            assert(dv.skip(i as int) =~= Seq::<DetailModel>::empty());
        }
        return Ok(scope);
    }
    proof {
        assert(dv[i as int] == details@[i as int]@);
        assert(dv.skip(i as int).first() == dv[i as int]);
        assert(dv.skip(i as int).drop_first() =~= dv.skip(i as int + 1));
    }
    match &details[i] {
        SysDCSpawnDetail::Use(nm, t) => {
            let b = Bind { name: copy_name(nm), ty: copy_type(t) };
            proof {
                assert(b@ =~= (BindModel { name: nm@, ty: t@ }));
            }
            match check_ref_at(&scope, &b) {
                Result::Err(e) => Err(e),
                Result::Ok(u) => walk_details(scope, details, i + 1),
            }
        },
        SysDCSpawnDetail::LetTo { name, func, args } => {
            proof {
                assert(binds_view(args@).skip(0) =~= binds_view(args@));
            }
            match walk_refs(&scope, args, 0) {
                Result::Err(e) => Err(e),
                Result::Ok(u) => {
                    let mut sc = scope;
                    sc.push(Bind { name: copy_name(name), ty: copy_type(&func.ty) });
                    proof {
                        assert(binds_view(sc@) =~= sv.push(
                            BindModel { name: name@, ty: func@.ty },
                        ));
                    }
                    walk_details(sc, details, i + 1)
                },
            }
        },
        SysDCSpawnDetail::Other(nm, t) => walk_details(scope, details, i + 1),
    }
}

fn copy_detail(d: &SysDCSpawnDetail) -> (r: SysDCSpawnDetail)
    ensures
        r@ == d@,
{
    match d {
        SysDCSpawnDetail::Use(nm, t) => SysDCSpawnDetail::Use(copy_name(nm), copy_type(t)),
        SysDCSpawnDetail::LetTo { name, func, args } => SysDCSpawnDetail::LetTo {
            name: copy_name(name),
            func: copy_bind(func),
            args: copy_binds(args),
        },
        SysDCSpawnDetail::Other(nm, t) => SysDCSpawnDetail::Other(copy_name(nm), copy_type(t)),
    }
}

fn copy_details(v: &Vec<SysDCSpawnDetail>) -> (r: Vec<SysDCSpawnDetail>)
    ensures
        r@.map_values(|d: SysDCSpawnDetail| d@) == v@.map_values(|d: SysDCSpawnDetail| d@),
{
    let ghost dv = v@.map_values(|d: SysDCSpawnDetail| d@);
    let mut out: Vec<SysDCSpawnDetail> = Vec::new();
    proof {
        assert(out@.map_values(|d: SysDCSpawnDetail| d@) =~= dv.take(0));
    }
    let mut i: usize = 0;
    while i < v.len()
        invariant
            i <= v.len(),
            dv == v@.map_values(|d: SysDCSpawnDetail| d@),
            dv.len() == v@.len(),
            out@.map_values(|d: SysDCSpawnDetail| d@) == dv.take(i as int),
        decreases v.len() - i,
    {
        proof {
            assert(dv[i as int] == v@[i as int]@);
        }
        let ghost prev = out@.map_values(|d: SysDCSpawnDetail| d@);
        out.push(copy_detail(&v[i]));
        proof {
            assert(out@.map_values(|d: SysDCSpawnDetail| d@) =~= prev.push(dv[i as int]));
            assert(dv.take(i as int + 1) =~= dv.take(i as int).push(dv[i as int]));
        }
        i = i + 1;
    }
    proof {
        assert(dv.take(dv.len() as int) =~= dv);
    }
    out
}

fn walk_annotations(scope: Vec<Bind>, anns: &Vec<SysDCAnnotation>, i: usize) -> (r: Result<
    Vec<SysDCAnnotation>,
    CompileError,
>)
    requires
        i <= anns@.len(),
    ensures
        match r {
            Result::Ok(out) => check_annotations(
                binds_view(scope@),
                anns@.map_values(|a: SysDCAnnotation| a@).skip(i as int),
            ) matches Ok((sc2, ys)) && ys == out@.map_values(|a: SysDCAnnotation| a@),
            Result::Err(e) => check_annotations(
                binds_view(scope@),
                anns@.map_values(|a: SysDCAnnotation| a@).skip(i as int),
            ) == Err::<(Seq<BindModel>, Seq<AnnotationModel>), ErrorModel>(e@),
        },
    decreases anns@.len() - i,
{
    let ghost av = anns@.map_values(|a: SysDCAnnotation| a@);
    let ghost sv = binds_view(scope@);
    if i == anns.len() {
        proof {
            assert(av.skip(i as int) =~= Seq::<AnnotationModel>::empty());
        }
        let out: Vec<SysDCAnnotation> = Vec::new();
        proof {
            assert(out@.map_values(|a: SysDCAnnotation| a@) =~= Seq::<AnnotationModel>::empty());
        }
        return Ok(out);
    }
    proof {
        assert(av[i as int] == anns@[i as int]@);
        assert(av.skip(i as int).first() == av[i as int]);
        assert(av.skip(i as int).drop_first() =~= av.skip(i as int + 1));
    }
    match &anns[i] {
        SysDCAnnotation::Modify { target, uses } => {
            match check_ref_at(&scope, target) {
                Result::Err(e) => {
                    return Err(e);
                },
                Result::Ok(u) => {},
            }
            proof {
                assert(binds_view(uses@).skip(0) =~= binds_view(uses@));
            }
            match walk_refs(&scope, uses, 0) {
                Result::Err(e) => {
                    return Err(e);
                },
                Result::Ok(u) => {},
            }
            let a2 = SysDCAnnotation::Modify {
                target: copy_bind(target),
                uses: copy_binds(uses),
            };
            proof {
                assert(a2@ == av[i as int]);
                assert(check_annotation_step(sv, av[i as int]) == Ok::<
                    (Seq<BindModel>, AnnotationModel),
                    ErrorModel,
                >((sv, av[i as int])));
            }
            match walk_annotations(scope, anns, i + 1) {
                Result::Err(e) => Err(e),
                Result::Ok(mut rest) => {
                    let ghost restv = rest@.map_values(|a: SysDCAnnotation| a@);
                    rest.insert(0, a2);
                    proof {
                        assert(rest@.map_values(|a: SysDCAnnotation| a@) =~= seq![av[i as int]]
                            + restv);
                    }
                    Ok(rest)
                },
            }
        },
        SysDCAnnotation::Spawn { result, details } => {
            match lookup_bind(&scope, &result.name) {
                Option::Some(t) => {
                    return Err(
                        CompileError::DuplicateDeclarationError(copy_name(&result.name)),
                    );
                },
                Option::None => {},
            }
            proof {
                assert(details@.map_values(|d: SysDCSpawnDetail| d@).skip(0) =~= details@
                    .map_values(|d: SysDCSpawnDetail| d@));
            }
            let is_nohint = match &result.ty.kind {
                TypeKind::UnsolvedNoHint => true,
                _ => false,
            };
            let r2 = if is_nohint {
                match first_detail_at(details, 0) {
                    Option::Some(t) => Bind { name: copy_name(&result.name), ty: t },
                    Option::None => {
                        match walk_details(copy_binds(&scope), details, 0) {
                            Result::Err(e) => {
                                return Err(e);
                            },
                            Result::Ok(u) => {
                                return Err(CompileError::UnresolvedTypeError(None));
                            },
                        }
                    },
                }
            } else {
                copy_bind(result)
            };
            proof {
                assert(infer_result(result@, details@.map_values(|d: SysDCSpawnDetail| d@))
                    == Ok::<BindModel, ErrorModel>(r2@));
            }
            match walk_details(copy_binds(&scope), details, 0) {
                Result::Err(e) => Err(e),
                Result::Ok(mut sc2) => {
                    let r2b = copy_bind(&r2);
                    let ghost sc2v = binds_view(sc2@);
                    sc2.push(r2b);
                    proof {
                        assert(binds_view(sc2@) =~= sc2v.push(r2@));
                    }
                    let a2 = SysDCAnnotation::Spawn {
                        result: r2,
                        details: copy_details(details),
                    };
                    proof {
                        assert(a2@ == (AnnotationModel::Spawn {
                            result: a2@->Spawn_result,
                            details: details@.map_values(|d: SysDCSpawnDetail| d@),
                        }));
                    }
                    match walk_annotations(sc2, anns, i + 1) {
                        Result::Err(e) => Err(e),
                        Result::Ok(mut rest) => {
                            let ghost restv = rest@.map_values(|a: SysDCAnnotation| a@);
                            rest.insert(0, a2);
                            proof {
                                assert(rest@.map_values(|a: SysDCAnnotation| a@) =~= seq![a2@]
                                    + restv);
                            }
                            Ok(rest)
                        },
                    }
                },
            }
        },
    }
}

/// Validates one function's annotation sequence in declaration order,
/// as `check_function` describes: every reference must be bound by a
/// parameter or an earlier annotation or detail, types must agree with
/// their binding sites, a spawn result must be fresh, and a result
/// with no hint takes the type of its first binding site. On success
/// the returned function carries the inferred result types.
pub fn validate_function(f: &SysDCFunction) -> (r: Result<SysDCFunction, CompileError>)
    ensures
        match r {
            Result::Ok(g) => check_function(f@) == Ok::<FunctionModel, ErrorModel>(g@),
            Result::Err(e) => check_function(f@) == Err::<FunctionModel, ErrorModel>(e@),
        },
{
    let scope = copy_binds(&f.args);
    proof {
        assert(f@.annotations.skip(0) =~= f@.annotations);
    }
    match walk_annotations(scope, &f.annotations, 0) {
        Result::Err(e) => Err(e),
        Result::Ok(anns) => {
            let g = SysDCFunction {
                name: copy_name(&f.name),
                args: copy_binds(&f.args),
                annotations: anns,
            };
            proof {
                assert(g@ =~= (FunctionModel {
                    name: f@.name,
                    args: f@.args,
                    annotations: g@.annotations,
                }));
            }
            Ok(g)
        },
    }
}


// ------------------------------------------------------------------
// The validator's failures are always resolution-class errors, never
// the export boundary's own.
// ------------------------------------------------------------------

pub proof fn lemma_check_refs_error(scope: Seq<BindModel>, uses: Seq<BindModel>)
    ensures
        check_refs(scope, uses) matches Err(e) ==> !(e is SerializationInvariant),
    decreases uses.len(),
{
    if uses.len() == 0 {
    } else {
        lemma_check_refs_error(scope, uses.drop_first());
    }
}

pub proof fn lemma_check_details_error(scope: Seq<BindModel>, details: Seq<DetailModel>)
    ensures
        check_details(scope, details) matches Err(e) ==> !(e is SerializationInvariant),
    decreases details.len(),
{
    if details.len() == 0 {
    } else {
        match details.first() {
            DetailModel::Use(b) => {},
            DetailModel::LetTo { name, func, args } => {
                lemma_check_refs_error(scope, args);
            },
            DetailModel::Other(b) => {},
        }
        match check_detail_step(scope, details.first()) {
            Result::Err(e) => {},
            Result::Ok(sc) => {
                lemma_check_details_error(sc, details.drop_first());
            },
        }
    }
}

pub proof fn lemma_check_annotations_error(scope: Seq<BindModel>, anns: Seq<AnnotationModel>)
    ensures
        check_annotations(scope, anns) matches Err(e) ==> !(e is SerializationInvariant),
    decreases anns.len(),
{
    if anns.len() == 0 {
    } else {
        match anns.first() {
            AnnotationModel::Modify { target, uses } => {
                lemma_check_refs_error(scope, uses);
            },
            AnnotationModel::Spawn { result, details } => {
                lemma_check_details_error(scope, details);
            },
        }
        match check_annotation_step(scope, anns.first()) {
            Result::Err(e) => {},
            Result::Ok((sc, a2)) => {
                lemma_check_annotations_error(sc, anns.drop_first());
            },
        }
    }
}

/// A function that fails validation fails with a resolution error.
pub proof fn lemma_check_function_error_kind(f: FunctionModel)
    ensures
        check_function(f) matches Err(e) ==> !(e is SerializationInvariant),
{
    lemma_check_annotations_error(f.args, f.annotations);
}

} // verus!
