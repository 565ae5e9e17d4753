use vstd::prelude::*;
use vstd::string::*;

use crate::error::{CompileError, ErrorModel};
use crate::name::{child_path, Name};
use crate::resolver::{
    dup_in, find_duplicate, frames_view, lemma_dup_iff, resolve_hint, resolve_hint_spec,
    ScopeFrame,
};
use crate::structure::{
    binds_view, solved_annotation, solved_bind, solved_binds, solved_data, solved_detail,
    solved_function, solved_module, solved_system, solved_unit, AnnotationModel, Bind, BindModel,
    DataModel, DetailModel, FunctionModel, ModuleModel, SysDCAnnotation, SysDCData, SysDCFunction,
    SysDCModule, SysDCSpawnDetail, SysDCSystem, SysDCUnit, SystemModel, UnitModel,
};
use crate::types::{KindModel, solved_kind, Type, TypeKind, TypeModel};
use crate::validator::{check_function, validate_function};

verus! {

// ------------------------------------------------------------------
// The resolution pipeline: raw declaration tree in, fully resolved and
// validated model out. Names are qualified top-down, every hinted type
// is looked up in the scope frames, every function body is validated,
// and a final scan enforces the central invariant: no placeholder type
// survives a successful run.
// ------------------------------------------------------------------

fn solved_check_binds(v: &Vec<Bind>) -> (r: bool)
    ensures
        r == solved_binds(binds_view(v@)),
{
    let ghost s = binds_view(v@);
    let mut i: usize = 0;
    while i < v.len()
        invariant
            i <= v.len(),
            s == binds_view(v@),
            s.len() == v@.len(),
            forall|j: int| 0 <= j < i ==> solved_bind(#[trigger] s[j]),
        decreases v.len() - i,
    {
        proof {
            assert(s[i as int] == v@[i as int]@);
        }
        if v[i].ty.is_unsolved() {
            proof {
                assert(!solved_bind(s[i as int]));
            }
            return false;
        }
        i = i + 1;
    }
    true
}

/// A spawn with an unsolved detail is itself unsolved.
proof fn lemma_spawn_not_solved(r0: BindModel, d0: Seq<DetailModel>, k: int)
    requires
        0 <= k < d0.len(),
        !solved_detail(d0[k]),
    ensures
        !solved_annotation(AnnotationModel::Spawn { result: r0, details: d0 }),
{
    let a0 = AnnotationModel::Spawn { result: r0, details: d0 };
    match a0 {
        AnnotationModel::Spawn { result: rr, details: dd } => {
            if solved_annotation(a0) {
                assert(solved_detail(dd[k]));
                assert(false);
            }
        },
        AnnotationModel::Modify { target, uses } => {},
    }
}

fn solved_check_function(f: &SysDCFunction) -> (r: bool)
    ensures
        r == solved_function(f@),
{
    if !solved_check_binds(&f.args) {
        return false;
    }
    let ghost av = f@.annotations;
    let mut i: usize = 0;
    while i < f.annotations.len()
        invariant
            av == f@.annotations,
            av.len() == f.annotations@.len(),
            i <= f.annotations.len(),
            solved_binds(f@.args),
            forall|j: int| 0 <= j < i ==> solved_annotation(#[trigger] av[j]),
        decreases f.annotations.len() - i,
    {
        proof {
            assert(av[i as int] == f.annotations@[i as int]@);
        }
        match &f.annotations[i] {
            SysDCAnnotation::Modify { target, uses } => {
                if target.ty.is_unsolved() {
                    proof {
                        assert(!solved_annotation(av[i as int]));
                        assert(!solved_function(f@));
                    }
                    return false;
                }
                if !solved_check_binds(uses) {
                    proof {
                        assert(!solved_annotation(av[i as int]));
                        assert(!solved_function(f@));
                    }
                    return false;
                }
            },
            SysDCAnnotation::Spawn { result, details } => {
                if result.ty.is_unsolved() {
                    proof {
                        assert(!solved_annotation(av[i as int]));
                        assert(!solved_function(f@));
                    }
                    return false;
                }
                let ghost dv = details@.map_values(|d: SysDCSpawnDetail| d@);
                let mut k: usize = 0;
                while k < details.len()
                    invariant
                        av == f@.annotations,
                        av.len() == f.annotations@.len(),
                        (i as int) < av.len(),
                        av[i as int] == (AnnotationModel::Spawn { result: result@, details: dv }),
                        solved_bind(result@),
                        dv == details@.map_values(|d: SysDCSpawnDetail| d@),
                        dv.len() == details@.len(),
                        k <= details.len(),
                        forall|j: int| 0 <= j < k ==> solved_detail(#[trigger] dv[j]),
                    decreases details.len() - k,
                {
                    proof {
                        assert(dv[k as int] == details@[k as int]@);
                    }
                    match &details[k] {
                        SysDCSpawnDetail::Use(nm, t) => {
                            if t.is_unsolved() {
                                proof {
                                    assert(!solved_detail(dv[k as int]));
                                    lemma_spawn_not_solved(result@, dv, k as int);
                                    assert(!solved_function(f@));
                                }
                                return false;
                            }
                        },
                        SysDCSpawnDetail::LetTo { name, func, args } => {
                            if func.ty.is_unsolved() {
                                proof {
                                    assert(!solved_detail(dv[k as int]));
                                    lemma_spawn_not_solved(result@, dv, k as int);
                                    assert(!solved_function(f@));
                                }
                                return false;
                            }
                            if !solved_check_binds(args) {
                                proof {
                                    assert(!solved_detail(dv[k as int]));
                                    lemma_spawn_not_solved(result@, dv, k as int);
                                    assert(!solved_function(f@));
                                }
                                return false;
                            }
                        },
                        SysDCSpawnDetail::Other(nm, t) => {
                            if t.is_unsolved() {
                                proof {
                                    assert(!solved_detail(dv[k as int]));
                                    lemma_spawn_not_solved(result@, dv, k as int);
                                    assert(!solved_function(f@));
                                }
                                return false;
                            }
                        },
                    }
                    k = k + 1;
                }
            },
        }
        i = i + 1;
    }
    true
}

/// Whether the whole model satisfies the resolved-model invariant: no
/// `Unsolved` or `UnsolvedNoHint` kind anywhere in it.
pub fn solved_check_system(m: &SysDCSystem) -> (r: bool)
    ensures
        r == solved_system(m@),
{
    let ghost uv = m@.units;
    let mut i: usize = 0;
    while i < m.units.len()
        invariant
            uv == m@.units,
            uv.len() == m.units@.len(),
            i <= m.units.len(),
            forall|j: int| 0 <= j < i ==> solved_unit(#[trigger] uv[j]),
        decreases m.units.len() - i,
    {
        proof {
            assert(uv[i as int] == m.units@[i as int]@);
        }
        let unit = &m.units[i];
        let ghost mv = unit@.modules;
        let mut j: usize = 0;
        while j < unit.modules.len()
            invariant
                uv == m@.units,
                uv.len() == m.units@.len(),
                (i as int) < uv.len(),
                uv[i as int] == unit@,
                mv == unit@.modules,
                mv.len() == unit.modules@.len(),
                j <= unit.modules.len(),
                forall|k: int| 0 <= k < j ==> solved_module(#[trigger] mv[k]),
            decreases unit.modules.len() - j,
        {
            proof {
                assert(mv[j as int] == unit.modules@[j as int]@);
            }
            let module = &unit.modules[j];
            let ghost dv = module@.datas;
            let mut k: usize = 0;
            while k < module.datas.len()
                invariant
                    uv == m@.units,
                    uv.len() == m.units@.len(),
                    (i as int) < uv.len(),
                    uv[i as int] == unit@,
                    mv == unit@.modules,
                    (j as int) < mv.len(),
                    mv[j as int] == module@,
                    dv == module@.datas,
                    dv.len() == module.datas@.len(),
                    k <= module.datas.len(),
                    forall|l: int| 0 <= l < k ==> solved_data(#[trigger] dv[l]),
                decreases module.datas.len() - k,
            {
                proof {
                    assert(dv[k as int] == module.datas@[k as int]@);
                }
                if !solved_check_binds(&module.datas[k].members) {
                    proof {
                        assert(!solved_data(dv[k as int]));
                        assert(!solved_module(mv[j as int]));
                        assert(!solved_unit(uv[i as int]));
                        assert(!solved_system(m@));
                    }
                    return false;
                }
                k = k + 1;
            }
            let ghost fv = module@.functions;
            let mut k: usize = 0;
            while k < module.functions.len()
                invariant
                    uv == m@.units,
                    uv.len() == m.units@.len(),
                    (i as int) < uv.len(),
                    uv[i as int] == unit@,
                    mv == unit@.modules,
                    (j as int) < mv.len(),
                    mv[j as int] == module@,
                    fv == module@.functions,
                    fv.len() == module.functions@.len(),
                    k <= module.functions.len(),
                    forall|l: int| 0 <= l < module@.datas.len() ==> solved_data(
                        #[trigger] module@.datas[l],
                    ),
                    forall|l: int| 0 <= l < k ==> solved_function(#[trigger] fv[l]),
                decreases module.functions.len() - k,
            {
                proof {
                    assert(fv[k as int] == module.functions@[k as int]@);
                }
                if !solved_check_function(&module.functions[k]) {
                    proof {
                        assert(!solved_function(fv[k as int]));
                        assert(!solved_module(mv[j as int]));
                        assert(!solved_unit(uv[i as int]));
                        assert(!solved_system(m@));
                    }
                    return false;
                }
                k = k + 1;
            }
            j = j + 1;
        }
        i = i + 1;
    }
    true
}

// ------------------------------------------------------------------
// What resolution computes, stated as a fold over the raw tree. The
// executable pipeline below returns exactly this.
// ------------------------------------------------------------------

/// One type: a hint is looked up; anything else passes unchanged.
pub open spec fn resolve_type_spec(
    frames: Seq<Seq<(Seq<char>, Seq<char>)>>,
    t: TypeModel,
) -> Result<TypeModel, ErrorModel> {
    match t.kind {
        KindModel::Unsolved(h) => resolve_hint_spec(frames, h),
        _ => Ok(t),
    }
}

/// A binding list, each type resolved in order; the first error wins.
pub open spec fn resolve_binds_spec(
    frames: Seq<Seq<(Seq<char>, Seq<char>)>>,
    s: Seq<BindModel>,
) -> Result<Seq<BindModel>, ErrorModel>
    decreases s.len(),
{
    if s.len() == 0 {
        Ok(Seq::empty())
    } else {
        match resolve_type_spec(frames, s.first().ty) {
            Result::Err(e) => Err(e),
            Result::Ok(t) => match resolve_binds_spec(frames, s.drop_first()) {
                Result::Err(e) => Err(e),
                Result::Ok(rest) => Ok(seq![BindModel { name: s.first().name, ty: t }] + rest),
            },
        }
    }
}

pub open spec fn resolve_detail_spec(
    frames: Seq<Seq<(Seq<char>, Seq<char>)>>,
    d: DetailModel,
) -> Result<DetailModel, ErrorModel> {
    match d {
        DetailModel::Use(b) => match resolve_type_spec(frames, b.ty) {
            Result::Err(e) => Err(e),
            Result::Ok(t) => Ok(DetailModel::Use(BindModel { name: b.name, ty: t })),
        },
        DetailModel::LetTo { name, func, args } => match resolve_type_spec(frames, func.ty) {
            Result::Err(e) => Err(e),
            Result::Ok(tf) => match resolve_binds_spec(frames, args) {
                Result::Err(e) => Err(e),
                Result::Ok(args2) => Ok(
                    DetailModel::LetTo {
                        name,
                        func: BindModel { name: func.name, ty: tf },
                        args: args2,
                    },
                ),
            },
        },
        DetailModel::Other(b) => match resolve_type_spec(frames, b.ty) {
            Result::Err(e) => Err(e),
            Result::Ok(t) => Ok(DetailModel::Other(BindModel { name: b.name, ty: t })),
        },
    }
}

pub open spec fn resolve_details_spec(
    frames: Seq<Seq<(Seq<char>, Seq<char>)>>,
    s: Seq<DetailModel>,
) -> Result<Seq<DetailModel>, ErrorModel>
    decreases s.len(),
{
    if s.len() == 0 {
        Ok(Seq::empty())
    } else {
        match resolve_detail_spec(frames, s.first()) {
            Result::Err(e) => Err(e),
            Result::Ok(d) => match resolve_details_spec(frames, s.drop_first()) {
                Result::Err(e) => Err(e),
                Result::Ok(rest) => Ok(seq![d] + rest),
            },
        }
    }
}

pub open spec fn resolve_annotation_spec(
    frames: Seq<Seq<(Seq<char>, Seq<char>)>>,
    a: AnnotationModel,
) -> Result<AnnotationModel, ErrorModel> {
    match a {
        AnnotationModel::Modify { target, uses } => match resolve_type_spec(frames, target.ty) {
            Result::Err(e) => Err(e),
            Result::Ok(t) => match resolve_binds_spec(frames, uses) {
                Result::Err(e) => Err(e),
                Result::Ok(uses2) => Ok(
                    AnnotationModel::Modify {
                        target: BindModel { name: target.name, ty: t },
                        uses: uses2,
                    },
                ),
            },
        },
        AnnotationModel::Spawn { result, details } => match resolve_type_spec(frames, result.ty) {
            Result::Err(e) => Err(e),
            Result::Ok(t) => match resolve_details_spec(frames, details) {
                Result::Err(e) => Err(e),
                Result::Ok(ds) => Ok(
                    AnnotationModel::Spawn {
                        result: BindModel { name: result.name, ty: t },
                        details: ds,
                    },
                ),
            },
        },
    }
}

pub open spec fn resolve_annotations_spec(
    frames: Seq<Seq<(Seq<char>, Seq<char>)>>,
    s: Seq<AnnotationModel>,
) -> Result<Seq<AnnotationModel>, ErrorModel>
    decreases s.len(),
{
    if s.len() == 0 {
        Ok(Seq::empty())
    } else {
        match resolve_annotation_spec(frames, s.first()) {
            Result::Err(e) => Err(e),
            Result::Ok(a) => match resolve_annotations_spec(frames, s.drop_first()) {
                Result::Err(e) => Err(e),
                Result::Ok(rest) => Ok(seq![a] + rest),
            },
        }
    }
}

/// One data declaration: its name qualified, its member types resolved.
pub open spec fn resolve_data_spec(
    frames: Seq<Seq<(Seq<char>, Seq<char>)>>,
    module_name: Seq<char>,
    d: DataModel,
) -> Result<DataModel, ErrorModel> {
    match resolve_binds_spec(frames, d.members) {
        Result::Err(e) => Err(e),
        Result::Ok(ms) => Ok(DataModel { name: child_path(module_name, d.name), members: ms }),
    }
}

pub open spec fn resolve_datas_spec(
    frames: Seq<Seq<(Seq<char>, Seq<char>)>>,
    module_name: Seq<char>,
    s: Seq<DataModel>,
) -> Result<Seq<DataModel>, ErrorModel>
    decreases s.len(),
{
    if s.len() == 0 {
        Ok(Seq::empty())
    } else {
        match resolve_data_spec(frames, module_name, s.first()) {
            Result::Err(e) => Err(e),
            Result::Ok(d) => match resolve_datas_spec(frames, module_name, s.drop_first()) {
                Result::Err(e) => Err(e),
                Result::Ok(rest) => Ok(seq![d] + rest),
            },
        }
    }
}

/// One function: name qualified, parameter and annotation types
/// resolved, then the body validated in annotation order.
pub open spec fn resolve_function_spec(
    frames: Seq<Seq<(Seq<char>, Seq<char>)>>,
    module_name: Seq<char>,
    f: FunctionModel,
) -> Result<FunctionModel, ErrorModel> {
    match resolve_binds_spec(frames, f.args) {
        Result::Err(e) => Err(e),
        Result::Ok(args) => match resolve_annotations_spec(frames, f.annotations) {
            Result::Err(e) => Err(e),
            Result::Ok(anns) => check_function(
                FunctionModel { name: child_path(module_name, f.name), args, annotations: anns },
            ),
        },
    }
}

pub open spec fn resolve_functions_spec(
    frames: Seq<Seq<(Seq<char>, Seq<char>)>>,
    module_name: Seq<char>,
    s: Seq<FunctionModel>,
) -> Result<Seq<FunctionModel>, ErrorModel>
    decreases s.len(),
{
    if s.len() == 0 {
        Ok(Seq::empty())
    } else {
        match resolve_function_spec(frames, module_name, s.first()) {
            Result::Err(e) => Err(e),
            Result::Ok(f) => match resolve_functions_spec(frames, module_name, s.drop_first()) {
                Result::Err(e) => Err(e),
                Result::Ok(rest) => Ok(seq![f] + rest),
            },
        }
    }
}

/// The module's data namespace: each declaration's bare name, mapped to
/// its canonical (qualified) name.
pub open spec fn module_frame(module_name: Seq<char>, datas: Seq<DataModel>) -> Seq<
    (Seq<char>, Seq<char>),
> {
    datas.map_values(|d: DataModel| (d.name, child_path(module_name, d.name)))
}

/// One module: duplicate data or function names in this scope are
/// refused; member, parameter and annotation types are resolved against
/// the module's frame; every body is validated; and no placeholder may
/// survive (a no-hint type with no binding site would otherwise slip
/// through).
pub open spec fn resolve_module_spec(unit_name: Seq<char>, md: ModuleModel) -> Result<
    ModuleModel,
    ErrorModel,
> {
    let module_name = child_path(unit_name, md.name);
    match dup_in(md.datas.map_values(|d: DataModel| child_path(module_name, d.name))) {
        Option::Some(d) => Err(ErrorModel::DuplicateDeclaration(d)),
        Option::None => match dup_in(
            md.functions.map_values(|f: FunctionModel| child_path(module_name, f.name)),
        ) {
            Option::Some(d) => Err(ErrorModel::DuplicateDeclaration(d)),
            Option::None => {
                let frames = seq![module_frame(module_name, md.datas)];
                match resolve_datas_spec(frames, module_name, md.datas) {
                    Result::Err(e) => Err(e),
                    Result::Ok(ds) => match resolve_functions_spec(
                        frames,
                        module_name,
                        md.functions,
                    ) {
                        Result::Err(e) => Err(e),
                        Result::Ok(fs) => {
                            let m2 = ModuleModel { name: module_name, datas: ds, functions: fs };
                            if solved_module(m2) {
                                Ok(m2)
                            } else {
                                Err(ErrorModel::UnresolvedType(None))
                            }
                        },
                    },
                }
            },
        },
    }
}

pub open spec fn resolve_modules_spec(unit_name: Seq<char>, s: Seq<ModuleModel>) -> Result<
    Seq<ModuleModel>,
    ErrorModel,
>
    decreases s.len(),
{
    if s.len() == 0 {
        Ok(Seq::empty())
    } else {
        match resolve_module_spec(unit_name, s.first()) {
            Result::Err(e) => Err(e),
            Result::Ok(m) => match resolve_modules_spec(unit_name, s.drop_first()) {
                Result::Err(e) => Err(e),
                Result::Ok(rest) => Ok(seq![m] + rest),
            },
        }
    }
}

/// One unit: duplicate module names in it are refused, then each module
/// is resolved.
pub open spec fn resolve_unit_spec(u: UnitModel) -> Result<UnitModel, ErrorModel> {
    match dup_in(u.modules.map_values(|md: ModuleModel| child_path(u.name, md.name))) {
        Option::Some(d) => Err(ErrorModel::DuplicateDeclaration(d)),
        Option::None => match resolve_modules_spec(u.name, u.modules) {
            Result::Err(e) => Err(e),
            Result::Ok(ms) => Ok(UnitModel { name: u.name, modules: ms }),
        },
    }
}

pub open spec fn resolve_units_spec(s: Seq<UnitModel>) -> Result<Seq<UnitModel>, ErrorModel>
    decreases s.len(),
{
    if s.len() == 0 {
        Ok(Seq::empty())
    } else {
        match resolve_unit_spec(s.first()) {
            Result::Err(e) => Err(e),
            Result::Ok(u) => match resolve_units_spec(s.drop_first()) {
                Result::Err(e) => Err(e),
                Result::Ok(rest) => Ok(seq![u] + rest),
            },
        }
    }
}

/// The whole run: duplicate unit names are refused, then each unit is
/// resolved in order; the first failure anywhere aborts the run.
pub open spec fn resolve_system_spec(m: SystemModel) -> Result<SystemModel, ErrorModel> {
    match dup_in(m.units.map_values(|u: UnitModel| u.name)) {
        Option::Some(d) => Err(ErrorModel::DuplicateDeclaration(d)),
        Option::None => match resolve_units_spec(m.units) {
            Result::Err(e) => Err(e),
            Result::Ok(us) => Ok(SystemModel { units: us }),
        },
    }
}

// ------------------------------------------------------------------
// A successful run satisfies the resolved-model invariant.
// ------------------------------------------------------------------

pub proof fn lemma_resolve_modules_solved(unit_name: Seq<char>, s: Seq<ModuleModel>)
    ensures
        resolve_modules_spec(unit_name, s) matches Ok(ms) ==> forall|i: int|
            0 <= i < ms.len() ==> solved_module(#[trigger] ms[i]),
    decreases s.len(),
{
    if s.len() == 0 {
    } else {
        lemma_resolve_modules_solved(unit_name, s.drop_first());
        match resolve_module_spec(unit_name, s.first()) {
            Result::Err(e) => {},
            Result::Ok(m) => {
                match resolve_modules_spec(unit_name, s.drop_first()) {
                    Result::Err(e) => {},
                    Result::Ok(rest) => {
                        assert forall|i: int| 0 <= i < (seq![m] + rest).len() implies solved_module(
                            #[trigger] (seq![m] + rest)[i],
                        ) by {
                            if i > 0 {
                                assert((seq![m] + rest)[i] == rest[i - 1]);
                            }
                        }
                    },
                }
            },
        }
    }
}

pub proof fn lemma_resolve_units_solved(s: Seq<UnitModel>)
    ensures
        resolve_units_spec(s) matches Ok(us) ==> forall|i: int|
            0 <= i < us.len() ==> solved_unit(#[trigger] us[i]),
    decreases s.len(),
{
    if s.len() == 0 {
    } else {
        lemma_resolve_units_solved(s.drop_first());
        match resolve_unit_spec(s.first()) {
            Result::Err(e) => {},
            Result::Ok(u) => {
                lemma_resolve_modules_solved(s.first().name, s.first().modules);
                match resolve_units_spec(s.drop_first()) {
                    Result::Err(e) => {},
                    Result::Ok(rest) => {
                        assert forall|i: int| 0 <= i < (seq![u] + rest).len() implies solved_unit(
                            #[trigger] (seq![u] + rest)[i],
                        ) by {
                            if i > 0 {
                                assert((seq![u] + rest)[i] == rest[i - 1]);
                            }
                        }
                    },
                }
            },
        }
    }
}

/// The central invariant, as a law of the resolution fold: whatever a
/// successful run returns is solved everywhere.
pub proof fn lemma_resolve_system_solved(m: SystemModel)
    ensures
        resolve_system_spec(m) matches Ok(out) ==> solved_system(out),
{
    lemma_resolve_units_solved(m.units);
}

/// Two data declarations with the same qualified name in one module
/// make that module's resolution fail with a duplicate-declaration
/// error; the same fold refuses duplicate units, modules and functions.
pub proof fn lemma_duplicate_data_rejected(unit_name: Seq<char>, md: ModuleModel)
    requires
        exists|i: int, j: int|
            0 <= i < j < md.datas.len() && md.datas[i].name == md.datas[j].name,
    ensures
        resolve_module_spec(unit_name, md) matches Err(e) && e is DuplicateDeclaration,
{
    let module_name = child_path(unit_name, md.name);
    let names = md.datas.map_values(|d: DataModel| child_path(module_name, d.name));
    let (i, j) = choose|i: int, j: int|
        0 <= i < j < md.datas.len() && md.datas[i].name == md.datas[j].name;
    assert(names[i] == names[j]);
    lemma_dup_iff(names);
}

// ------------------------------------------------------------------
// In a successful run every qualified name denotes exactly one
// declaration: the folds qualify names by tree position and refuse the
// run whenever two declarations in one parent scope would share one.
// ------------------------------------------------------------------

pub proof fn lemma_resolve_datas_names(
    frames: Seq<Seq<(Seq<char>, Seq<char>)>>,
    mn: Seq<char>,
    s: Seq<DataModel>,
)
    ensures
        resolve_datas_spec(frames, mn, s) matches Ok(ds) ==> ds.len() == s.len() && forall|i: int|
            0 <= i < s.len() ==> (#[trigger] ds[i]).name == child_path(mn, s[i].name),
    decreases s.len(),
{
    if s.len() == 0 {
    } else {
        lemma_resolve_datas_names(frames, mn, s.drop_first());
        match resolve_data_spec(frames, mn, s.first()) {
            Result::Err(e) => {},
            Result::Ok(d) => {
                match resolve_datas_spec(frames, mn, s.drop_first()) {
                    Result::Err(e) => {},
                    Result::Ok(rest) => {
                        assert forall|i: int|
                            0 <= i < s.len() implies (#[trigger] (seq![d] + rest)[i]).name
                            == child_path(mn, s[i].name) by {
                            if i > 0 {
                                assert((seq![d] + rest)[i] == rest[i - 1]);
                                assert(s.drop_first()[i - 1] == s[i]);
                            }
                        }
                    },
                }
            },
        }
    }
}

pub proof fn lemma_resolve_functions_names(
    frames: Seq<Seq<(Seq<char>, Seq<char>)>>,
    mn: Seq<char>,
    s: Seq<FunctionModel>,
)
    ensures
        resolve_functions_spec(frames, mn, s) matches Ok(fs) ==> fs.len() == s.len() && forall|
            i: int,
        |
            0 <= i < s.len() ==> (#[trigger] fs[i]).name == child_path(mn, s[i].name),
    decreases s.len(),
{
    if s.len() == 0 {
    } else {
        lemma_resolve_functions_names(frames, mn, s.drop_first());
        match resolve_function_spec(frames, mn, s.first()) {
            Result::Err(e) => {},
            Result::Ok(f) => {
                assert(f.name == child_path(mn, s.first().name));
                match resolve_functions_spec(frames, mn, s.drop_first()) {
                    Result::Err(e) => {},
                    Result::Ok(rest) => {
                        assert forall|i: int|
                            0 <= i < s.len() implies (#[trigger] (seq![f] + rest)[i]).name
                            == child_path(mn, s[i].name) by {
                            if i > 0 {
                                assert((seq![f] + rest)[i] == rest[i - 1]);
                                assert(s.drop_first()[i - 1] == s[i]);
                            }
                        }
                    },
                }
            },
        }
    }
}

/// In a resolved module, data names are pairwise distinct and so are
/// function names.
pub proof fn lemma_resolved_module_unique(unit_name: Seq<char>, md: ModuleModel)
    ensures
        resolve_module_spec(unit_name, md) matches Ok(m2) ==> (forall|i: int, j: int|
            0 <= i < j < m2.datas.len() ==> (#[trigger] m2.datas[i]).name != (
            #[trigger] m2.datas[j]).name) && (forall|i: int, j: int|
            0 <= i < j < m2.functions.len() ==> (#[trigger] m2.functions[i]).name != (
            #[trigger] m2.functions[j]).name),
{
    let mn = child_path(unit_name, md.name);
    let frames = seq![module_frame(mn, md.datas)];
    let dnames = md.datas.map_values(|d: DataModel| child_path(mn, d.name));
    let fnames = md.functions.map_values(|f: FunctionModel| child_path(mn, f.name));
    match resolve_module_spec(unit_name, md) {
        Result::Err(e) => {},
        Result::Ok(m2) => {
            lemma_dup_iff(dnames);
            lemma_dup_iff(fnames);
            lemma_resolve_datas_names(frames, mn, md.datas);
            lemma_resolve_functions_names(frames, mn, md.functions);
            assert forall|i: int, j: int|
                0 <= i < j < m2.datas.len() implies (#[trigger] m2.datas[i]).name != (
                #[trigger] m2.datas[j]).name by {
                assert(m2.datas[i].name == dnames[i]);
                assert(m2.datas[j].name == dnames[j]);
            }
            assert forall|i: int, j: int|
                0 <= i < j < m2.functions.len() implies (#[trigger] m2.functions[i]).name != (
                #[trigger] m2.functions[j]).name by {
                assert(m2.functions[i].name == fnames[i]);
                assert(m2.functions[j].name == fnames[j]);
            }
        },
    }
}

pub proof fn lemma_resolve_modules_names(unit_name: Seq<char>, s: Seq<ModuleModel>)
    ensures
        resolve_modules_spec(unit_name, s) matches Ok(ms) ==> ms.len() == s.len() && forall|i: int|
            0 <= i < s.len() ==> (#[trigger] ms[i]).name == child_path(unit_name, s[i].name),
    decreases s.len(),
{
    if s.len() == 0 {
    } else {
        lemma_resolve_modules_names(unit_name, s.drop_first());
        match resolve_module_spec(unit_name, s.first()) {
            Result::Err(e) => {},
            Result::Ok(m) => {
                match resolve_modules_spec(unit_name, s.drop_first()) {
                    Result::Err(e) => {},
                    Result::Ok(rest) => {
                        assert forall|i: int|
                            0 <= i < s.len() implies (#[trigger] (seq![m] + rest)[i]).name
                            == child_path(unit_name, s[i].name) by {
                            if i > 0 {
                                assert((seq![m] + rest)[i] == rest[i - 1]);
                                assert(s.drop_first()[i - 1] == s[i]);
                            }
                        }
                    },
                }
            },
        }
    }
}

/// In a resolved unit, module names are pairwise distinct.
pub proof fn lemma_resolved_unit_unique(u: UnitModel)
    ensures
        resolve_unit_spec(u) matches Ok(u2) ==> forall|i: int, j: int|
            0 <= i < j < u2.modules.len() ==> (#[trigger] u2.modules[i]).name != (
            #[trigger] u2.modules[j]).name,
{
    let mnames = u.modules.map_values(|md: ModuleModel| child_path(u.name, md.name));
    match resolve_unit_spec(u) {
        Result::Err(e) => {},
        Result::Ok(u2) => {
            lemma_dup_iff(mnames);
            lemma_resolve_modules_names(u.name, u.modules);
            assert forall|i: int, j: int|
                0 <= i < j < u2.modules.len() implies (#[trigger] u2.modules[i]).name != (
                #[trigger] u2.modules[j]).name by {
                assert(u2.modules[i].name == mnames[i]);
                assert(u2.modules[j].name == mnames[j]);
            }
        },
    }
}

pub proof fn lemma_resolve_units_names(s: Seq<UnitModel>)
    ensures
        resolve_units_spec(s) matches Ok(us) ==> us.len() == s.len() && forall|i: int|
            0 <= i < s.len() ==> (#[trigger] us[i]).name == s[i].name,
    decreases s.len(),
{
    if s.len() == 0 {
    } else {
        lemma_resolve_units_names(s.drop_first());
        match resolve_unit_spec(s.first()) {
            Result::Err(e) => {},
            Result::Ok(u) => {
                match resolve_units_spec(s.drop_first()) {
                    Result::Err(e) => {},
                    Result::Ok(rest) => {
                        assert forall|i: int|
                            0 <= i < s.len() implies (#[trigger] (seq![u] + rest)[i]).name
                            == s[i].name by {
                            if i > 0 {
                                assert((seq![u] + rest)[i] == rest[i - 1]);
                                assert(s.drop_first()[i - 1] == s[i]);
                            }
                        }
                    },
                }
            },
        }
    }
}

/// In a resolved system, unit names are pairwise distinct.
pub proof fn lemma_resolved_system_unique(m: SystemModel)
    ensures
        resolve_system_spec(m) matches Ok(out) ==> forall|i: int, j: int|
            0 <= i < j < out.units.len() ==> (#[trigger] out.units[i]).name != (
            #[trigger] out.units[j]).name,
{
    let unames = m.units.map_values(|u: UnitModel| u.name);
    match resolve_system_spec(m) {
        Result::Err(e) => {},
        Result::Ok(out) => {
            lemma_dup_iff(unames);
            lemma_resolve_units_names(m.units);
            assert forall|i: int, j: int|
                0 <= i < j < out.units.len() implies (#[trigger] out.units[i]).name != (
                #[trigger] out.units[j]).name by {
                assert(out.units[i].name == unames[i]);
                assert(out.units[j].name == unames[j]);
            }
        },
    }
}

// ------------------------------------------------------------------
// The executable pipeline: it computes exactly the fold above.
// ------------------------------------------------------------------

fn copy_name(n: &Name) -> (r: Name)
    ensures
        r@ == n@,
{
    Name { path: String::from_str(n.path.as_str()) }
}

fn resolve_type_x(frames: &Vec<ScopeFrame>, t: &Type) -> (r: Result<Type, CompileError>)
    ensures
        match r {
            Result::Ok(t2) => resolve_type_spec(frames_view(frames@), t@) == Ok::<
                TypeModel,
                ErrorModel,
            >(t2@),
            Result::Err(e) => resolve_type_spec(frames_view(frames@), t@) == Err::<
                TypeModel,
                ErrorModel,
            >(e@),
        },
{
    let refs = match &t.refs {
        Option::Some(n) => Some(copy_name(n)),
        Option::None => None,
    };
    match &t.kind {
        TypeKind::Unsolved(h) => resolve_hint(frames, h),
        TypeKind::Int32 => {
            let t2 = Type { kind: TypeKind::Int32, refs };
            proof {
                assert(t2@ =~= t@);
            }
            Ok(t2)
        },
        TypeKind::Data => {
            let t2 = Type { kind: TypeKind::Data, refs };
            proof {
                assert(t2@ =~= t@);
            }
            Ok(t2)
        },
        TypeKind::UnsolvedNoHint => {
            let t2 = Type { kind: TypeKind::UnsolvedNoHint, refs };
            proof {
                assert(t2@ =~= t@);
            }
            Ok(t2)
        },
    }
}

fn resolve_binds_at(frames: &Vec<ScopeFrame>, v: &Vec<Bind>, i: usize) -> (r: Result<
    Vec<Bind>,
    CompileError,
>)
    requires
        i <= v@.len(),
    ensures
        match r {
            Result::Ok(out) => resolve_binds_spec(
                frames_view(frames@),
                binds_view(v@).skip(i as int),
            ) == Ok::<Seq<BindModel>, ErrorModel>(binds_view(out@)),
            Result::Err(e) => resolve_binds_spec(
                frames_view(frames@),
                binds_view(v@).skip(i as int),
            ) == Err::<Seq<BindModel>, ErrorModel>(e@),
        },
    decreases v@.len() - i,
{
    let ghost bv = binds_view(v@);
    if i == v.len() {
        proof {
            assert(bv.skip(i as int) =~= Seq::<BindModel>::empty());
        }
        let out: Vec<Bind> = Vec::new();
        proof {
            assert(binds_view(out@) =~= Seq::<BindModel>::empty());
        }
        return Ok(out);
    }
    proof {
        assert(bv[i as int] == v@[i as int]@);
        assert(bv.skip(i as int).first() == bv[i as int]);
        assert(bv.skip(i as int).drop_first() =~= bv.skip(i as int + 1));
    }
    let t = match resolve_type_x(frames, &v[i].ty) {
        Result::Ok(t) => t,
        Result::Err(e) => {
            return Err(e);
        },
    };
    let mut rest = match resolve_binds_at(frames, v, i + 1) {
        Result::Ok(rest) => rest,
        Result::Err(e) => {
            return Err(e);
        },
    };
    let ghost restv = binds_view(rest@);
    rest.insert(0, Bind { name: copy_name(&v[i].name), ty: t });
    proof {
        assert(binds_view(rest@) =~= seq![BindModel { name: bv[i as int].name, ty: t@ }] + restv);
    }
    Ok(rest)
}

fn resolve_detail_x(frames: &Vec<ScopeFrame>, d: &SysDCSpawnDetail) -> (r: Result<
    SysDCSpawnDetail,
    CompileError,
>)
    ensures
        match r {
            Result::Ok(d2) => resolve_detail_spec(frames_view(frames@), d@) == Ok::<
                DetailModel,
                ErrorModel,
            >(d2@),
            Result::Err(e) => resolve_detail_spec(frames_view(frames@), d@) == Err::<
                DetailModel,
                ErrorModel,
            >(e@),
        },
{
    match d {
        SysDCSpawnDetail::Use(nm, t) => {
            let t2 = match resolve_type_x(frames, t) {
                Result::Ok(t2) => t2,
                Result::Err(e) => {
                    return Err(e);
                },
            };
            Ok(SysDCSpawnDetail::Use(copy_name(nm), t2))
        },
        SysDCSpawnDetail::LetTo { name, func, args } => {
            let tf = match resolve_type_x(frames, &func.ty) {
                Result::Ok(t2) => t2,
                Result::Err(e) => {
                    return Err(e);
                },
            };
            proof {
                assert(binds_view(args@).skip(0) =~= binds_view(args@));
            }
            let args2 = match resolve_binds_at(frames, args, 0) {
                Result::Ok(a) => a,
                Result::Err(e) => {
                    return Err(e);
                },
            };
            Ok(
                SysDCSpawnDetail::LetTo {
                    name: copy_name(name),
                    func: Bind { name: copy_name(&func.name), ty: tf },
                    args: args2,
                },
            )
        },
        SysDCSpawnDetail::Other(nm, t) => {
            let t2 = match resolve_type_x(frames, t) {
                Result::Ok(t2) => t2,
                Result::Err(e) => {
                    return Err(e);
                },
            };
            Ok(SysDCSpawnDetail::Other(copy_name(nm), t2))
        },
    }
}

fn resolve_details_at(frames: &Vec<ScopeFrame>, v: &Vec<SysDCSpawnDetail>, i: usize) -> (r: Result<
    Vec<SysDCSpawnDetail>,
    CompileError,
>)
    requires
        i <= v@.len(),
    ensures
        match r {
            Result::Ok(out) => resolve_details_spec(
                frames_view(frames@),
                v@.map_values(|d: SysDCSpawnDetail| d@).skip(i as int),
            ) == Ok::<Seq<DetailModel>, ErrorModel>(out@.map_values(|d: SysDCSpawnDetail| d@)),
            Result::Err(e) => resolve_details_spec(
                frames_view(frames@),
                v@.map_values(|d: SysDCSpawnDetail| d@).skip(i as int),
            ) == Err::<Seq<DetailModel>, ErrorModel>(e@),
        },
    decreases v@.len() - i,
{
    let ghost dv = v@.map_values(|d: SysDCSpawnDetail| d@);
    if i == v.len() {
        proof {
            assert(dv.skip(i as int) =~= Seq::<DetailModel>::empty());
        }
        let out: Vec<SysDCSpawnDetail> = Vec::new();
        proof {
            assert(out@.map_values(|d: SysDCSpawnDetail| d@) =~= Seq::<DetailModel>::empty());
        }
        return Ok(out);
    }
    proof {
        assert(dv[i as int] == v@[i as int]@);
        assert(dv.skip(i as int).first() == dv[i as int]);
        assert(dv.skip(i as int).drop_first() =~= dv.skip(i as int + 1));
    }
    let d2 = match resolve_detail_x(frames, &v[i]) {
        Result::Ok(d2) => d2,
        Result::Err(e) => {
            return Err(e);
        },
    };
    let mut rest = match resolve_details_at(frames, v, i + 1) {
        Result::Ok(rest) => rest,
        Result::Err(e) => {
            return Err(e);
        },
    };
    let ghost restv = rest@.map_values(|d: SysDCSpawnDetail| d@);
    rest.insert(0, d2);
    proof {
        assert(rest@.map_values(|d: SysDCSpawnDetail| d@) =~= seq![
            resolve_detail_spec(frames_view(frames@), dv[i as int])->Ok_0,
        ] + restv);
    }
    Ok(rest)
}

fn resolve_annotation_x(frames: &Vec<ScopeFrame>, a: &SysDCAnnotation) -> (r: Result<
    SysDCAnnotation,
    CompileError,
>)
    ensures
        match r {
            Result::Ok(a2) => resolve_annotation_spec(frames_view(frames@), a@) == Ok::<
                AnnotationModel,
                ErrorModel,
            >(a2@),
            Result::Err(e) => resolve_annotation_spec(frames_view(frames@), a@) == Err::<
                AnnotationModel,
                ErrorModel,
            >(e@),
        },
{
    match a {
        SysDCAnnotation::Modify { target, uses } => {
            let t2 = match resolve_type_x(frames, &target.ty) {
                Result::Ok(t2) => t2,
                Result::Err(e) => {
                    return Err(e);
                },
            };
            proof {
                assert(binds_view(uses@).skip(0) =~= binds_view(uses@));
            }
            let uses2 = match resolve_binds_at(frames, uses, 0) {
                Result::Ok(u) => u,
                Result::Err(e) => {
                    return Err(e);
                },
            };
            Ok(
                SysDCAnnotation::Modify {
                    target: Bind { name: copy_name(&target.name), ty: t2 },
                    uses: uses2,
                },
            )
        },
        SysDCAnnotation::Spawn { result, details } => {
            let t2 = match resolve_type_x(frames, &result.ty) {
                Result::Ok(t2) => t2,
                Result::Err(e) => {
                    return Err(e);
                },
            };
            proof {
                assert(details@.map_values(|d: SysDCSpawnDetail| d@).skip(0) =~= details@
                    .map_values(|d: SysDCSpawnDetail| d@));
            }
            let details2 = match resolve_details_at(frames, details, 0) {
                Result::Ok(ds) => ds,
                Result::Err(e) => {
                    return Err(e);
                },
            };
            Ok(
                SysDCAnnotation::Spawn {
                    result: Bind { name: copy_name(&result.name), ty: t2 },
                    details: details2,
                },
            )
        },
    }
}

fn resolve_annotations_at(frames: &Vec<ScopeFrame>, v: &Vec<SysDCAnnotation>, i: usize) -> (r:
    Result<Vec<SysDCAnnotation>, CompileError>)
    requires
        i <= v@.len(),
    ensures
        match r {
            Result::Ok(out) => resolve_annotations_spec(
                frames_view(frames@),
                v@.map_values(|a: SysDCAnnotation| a@).skip(i as int),
            ) == Ok::<Seq<AnnotationModel>, ErrorModel>(
                out@.map_values(|a: SysDCAnnotation| a@),
            ),
            Result::Err(e) => resolve_annotations_spec(
                frames_view(frames@),
                v@.map_values(|a: SysDCAnnotation| a@).skip(i as int),
            ) == Err::<Seq<AnnotationModel>, ErrorModel>(e@),
        },
    decreases v@.len() - i,
{
    let ghost av = v@.map_values(|a: SysDCAnnotation| a@);
    if i == v.len() {
        proof {
            assert(av.skip(i as int) =~= Seq::<AnnotationModel>::empty());
        }
        let out: Vec<SysDCAnnotation> = Vec::new();
        proof {
            assert(out@.map_values(|a: SysDCAnnotation| a@) =~= Seq::<AnnotationModel>::empty());
        }
        return Ok(out);
    }
    proof {
        assert(av[i as int] == v@[i as int]@);
        assert(av.skip(i as int).first() == av[i as int]);
        assert(av.skip(i as int).drop_first() =~= av.skip(i as int + 1));
    }
    let a2 = match resolve_annotation_x(frames, &v[i]) {
        Result::Ok(a2) => a2,
        Result::Err(e) => {
            return Err(e);
        },
    };
    let mut rest = match resolve_annotations_at(frames, v, i + 1) {
        Result::Ok(rest) => rest,
        Result::Err(e) => {
            return Err(e);
        },
    };
    let ghost restv = rest@.map_values(|a: SysDCAnnotation| a@);
    rest.insert(0, a2);
    proof {
        assert(rest@.map_values(|a: SysDCAnnotation| a@) =~= seq![
            resolve_annotation_spec(frames_view(frames@), av[i as int])->Ok_0,
        ] + restv);
    }
    Ok(rest)
}

fn resolve_data_x(frames: &Vec<ScopeFrame>, module_name: &Name, d: &SysDCData) -> (r: Result<
    SysDCData,
    CompileError,
>)
    ensures
        match r {
            Result::Ok(d2) => resolve_data_spec(frames_view(frames@), module_name@, d@) == Ok::<
                DataModel,
                ErrorModel,
            >(d2@),
            Result::Err(e) => resolve_data_spec(frames_view(frames@), module_name@, d@) == Err::<
                DataModel,
                ErrorModel,
            >(e@),
        },
{
    proof {
        assert(binds_view(d.members@).skip(0) =~= binds_view(d.members@));
    }
    let ms = match resolve_binds_at(frames, &d.members, 0) {
        Result::Ok(ms) => ms,
        Result::Err(e) => {
            return Err(e);
        },
    };
    let d2 = SysDCData { name: Name::child(module_name, d.name.path.as_str()), members: ms };
    proof {
        assert(d2@ =~= (DataModel {
            name: child_path(module_name@, d@.name),
            members: binds_view(ms@),
        }));
    }
    Ok(d2)
}

fn resolve_datas_at(frames: &Vec<ScopeFrame>, module_name: &Name, v: &Vec<SysDCData>, i: usize) -> (r:
    Result<Vec<SysDCData>, CompileError>)
    requires
        i <= v@.len(),
    ensures
        match r {
            Result::Ok(out) => resolve_datas_spec(
                frames_view(frames@),
                module_name@,
                v@.map_values(|d: SysDCData| d@).skip(i as int),
            ) == Ok::<Seq<DataModel>, ErrorModel>(out@.map_values(|d: SysDCData| d@)),
            Result::Err(e) => resolve_datas_spec(
                frames_view(frames@),
                module_name@,
                v@.map_values(|d: SysDCData| d@).skip(i as int),
            ) == Err::<Seq<DataModel>, ErrorModel>(e@),
        },
    decreases v@.len() - i,
{
    let ghost dv = v@.map_values(|d: SysDCData| d@);
    if i == v.len() {
        proof {
            assert(dv.skip(i as int) =~= Seq::<DataModel>::empty());
        }
        let out: Vec<SysDCData> = Vec::new();
        proof {
            assert(out@.map_values(|d: SysDCData| d@) =~= Seq::<DataModel>::empty());
        }
        return Ok(out);
    }
    proof {
        assert(dv[i as int] == v@[i as int]@);
        assert(dv.skip(i as int).first() == dv[i as int]);
        assert(dv.skip(i as int).drop_first() =~= dv.skip(i as int + 1));
    }
    let d2 = match resolve_data_x(frames, module_name, &v[i]) {
        Result::Ok(d2) => d2,
        Result::Err(e) => {
            return Err(e);
        },
    };
    let mut rest = match resolve_datas_at(frames, module_name, v, i + 1) {
        Result::Ok(rest) => rest,
        Result::Err(e) => {
            return Err(e);
        },
    };
    let ghost restv = rest@.map_values(|d: SysDCData| d@);
    rest.insert(0, d2);
    proof {
        assert(rest@.map_values(|d: SysDCData| d@) =~= seq![
            resolve_data_spec(frames_view(frames@), module_name@, dv[i as int])->Ok_0,
        ] + restv);
    }
    Ok(rest)
}

fn resolve_function_x(frames: &Vec<ScopeFrame>, module_name: &Name, f: &SysDCFunction) -> (r:
    Result<SysDCFunction, CompileError>)
    ensures
        match r {
            Result::Ok(f2) => resolve_function_spec(frames_view(frames@), module_name@, f@)
                == Ok::<FunctionModel, ErrorModel>(f2@),
            Result::Err(e) => resolve_function_spec(frames_view(frames@), module_name@, f@)
                == Err::<FunctionModel, ErrorModel>(e@),
        },
{
    proof {
        assert(binds_view(f.args@).skip(0) =~= binds_view(f.args@));
    }
    let args = match resolve_binds_at(frames, &f.args, 0) {
        Result::Ok(a) => a,
        Result::Err(e) => {
            return Err(e);
        },
    };
    proof {
        assert(f.annotations@.map_values(|a: SysDCAnnotation| a@).skip(0) =~= f.annotations@
            .map_values(|a: SysDCAnnotation| a@));
    }
    let annotations = match resolve_annotations_at(frames, &f.annotations, 0) {
        Result::Ok(a) => a,
        Result::Err(e) => {
            return Err(e);
        },
    };
    let candidate = SysDCFunction {
        name: Name::child(module_name, f.name.path.as_str()),
        args,
        annotations,
    };
    proof {
        assert(candidate@ =~= (FunctionModel {
            name: child_path(module_name@, f@.name),
            args: candidate@.args,
            annotations: candidate@.annotations,
        }));
    }
    validate_function(&candidate)
}

fn resolve_functions_at(
    frames: &Vec<ScopeFrame>,
    module_name: &Name,
    v: &Vec<SysDCFunction>,
    i: usize,
) -> (r: Result<Vec<SysDCFunction>, CompileError>)
    requires
        i <= v@.len(),
    ensures
        match r {
            Result::Ok(out) => resolve_functions_spec(
                frames_view(frames@),
                module_name@,
                v@.map_values(|f: SysDCFunction| f@).skip(i as int),
            ) == Ok::<Seq<FunctionModel>, ErrorModel>(out@.map_values(|f: SysDCFunction| f@)),
            Result::Err(e) => resolve_functions_spec(
                frames_view(frames@),
                module_name@,
                v@.map_values(|f: SysDCFunction| f@).skip(i as int),
            ) == Err::<Seq<FunctionModel>, ErrorModel>(e@),
        },
    decreases v@.len() - i,
{
    let ghost fv = v@.map_values(|f: SysDCFunction| f@);
    if i == v.len() {
        proof {
            assert(fv.skip(i as int) =~= Seq::<FunctionModel>::empty());
        }
        let out: Vec<SysDCFunction> = Vec::new();
        proof {
            assert(out@.map_values(|f: SysDCFunction| f@) =~= Seq::<FunctionModel>::empty());
        }
        return Ok(out);
    }
    proof {
        assert(fv[i as int] == v@[i as int]@);
        assert(fv.skip(i as int).first() == fv[i as int]);
        assert(fv.skip(i as int).drop_first() =~= fv.skip(i as int + 1));
    }
    let f2 = match resolve_function_x(frames, module_name, &v[i]) {
        Result::Ok(f2) => f2,
        Result::Err(e) => {
            return Err(e);
        },
    };
    let mut rest = match resolve_functions_at(frames, module_name, v, i + 1) {
        Result::Ok(rest) => rest,
        Result::Err(e) => {
            return Err(e);
        },
    };
    let ghost restv = rest@.map_values(|f: SysDCFunction| f@);
    rest.insert(0, f2);
    proof {
        assert(rest@.map_values(|f: SysDCFunction| f@) =~= seq![
            resolve_function_spec(frames_view(frames@), module_name@, fv[i as int])->Ok_0,
        ] + restv);
    }
    Ok(rest)
}

fn resolve_module_x(unit_name: &Name, md: &SysDCModule) -> (r: Result<SysDCModule, CompileError>)
    ensures
        match r {
            Result::Ok(m2) => resolve_module_spec(unit_name@, md@) == Ok::<
                ModuleModel,
                ErrorModel,
            >(m2@),
            Result::Err(e) => resolve_module_spec(unit_name@, md@) == Err::<
                ModuleModel,
                ErrorModel,
            >(e@),
        },
{
    let module_name = Name::child(unit_name, md.name.path.as_str());
    let ghost mn = child_path(unit_name@, md@.name);
    let ghost dnames = md@.datas.map_values(|d: DataModel| child_path(mn, d.name));

    let mut data_names: Vec<Name> = Vec::new();
    proof {
        assert(data_names@.map_values(|n: Name| n@) =~= dnames.take(0));
    }
    let mut k: usize = 0;
    while k < md.datas.len()
        invariant
            k <= md.datas.len(),
            mn == module_name@,
            dnames == md@.datas.map_values(|d: DataModel| child_path(mn, d.name)),
            dnames.len() == md.datas@.len(),
            data_names@.map_values(|n: Name| n@) == dnames.take(k as int),
        decreases md.datas.len() - k,
    {
        proof {
            assert(md@.datas[k as int] == md.datas@[k as int]@);
            assert(dnames[k as int] == child_path(mn, md.datas@[k as int]@.name));
        }
        let ghost prev = data_names@.map_values(|n: Name| n@);
        data_names.push(Name::child(&module_name, md.datas[k].name.path.as_str()));
        proof {
            assert(data_names@.map_values(|n: Name| n@) =~= prev.push(dnames[k as int]));
            assert(dnames.take(k as int + 1) =~= dnames.take(k as int).push(dnames[k as int]));
        }
        k = k + 1;
    }
    proof {
        assert(dnames.take(dnames.len() as int) =~= dnames);
    }
    match find_duplicate(&data_names) {
        Option::Some(d) => {
            return Err(CompileError::DuplicateDeclarationError(d));
        },
        Option::None => {},
    }

    let ghost fnames = md@.functions.map_values(|f: FunctionModel| child_path(mn, f.name));
    let mut function_names: Vec<Name> = Vec::new();
    proof {
        assert(function_names@.map_values(|n: Name| n@) =~= fnames.take(0));
    }
    let mut k: usize = 0;
    while k < md.functions.len()
        invariant
            k <= md.functions.len(),
            mn == module_name@,
            fnames == md@.functions.map_values(|f: FunctionModel| child_path(mn, f.name)),
            fnames.len() == md.functions@.len(),
            function_names@.map_values(|n: Name| n@) == fnames.take(k as int),
        decreases md.functions.len() - k,
    {
        proof {
            assert(md@.functions[k as int] == md.functions@[k as int]@);
            assert(fnames[k as int] == child_path(mn, md.functions@[k as int]@.name));
        }
        let ghost prev = function_names@.map_values(|n: Name| n@);
        function_names.push(Name::child(&module_name, md.functions[k].name.path.as_str()));
        proof {
            assert(function_names@.map_values(|n: Name| n@) =~= prev.push(fnames[k as int]));
            assert(fnames.take(k as int + 1) =~= fnames.take(k as int).push(fnames[k as int]));
        }
        k = k + 1;
    }
    proof {
        assert(fnames.take(fnames.len() as int) =~= fnames);
    }
    match find_duplicate(&function_names) {
        Option::Some(d) => {
            return Err(CompileError::DuplicateDeclarationError(d));
        },
        Option::None => {},
    }

    // The module's scope frame: its data declarations, keyed by their
    // bare names, carrying their canonical names.
    let ghost framev = module_frame(mn, md@.datas);
    let mut frame = ScopeFrame::new();
    proof {
        assert(frame@ =~= framev.take(0));
    }
    let mut k: usize = 0;
    while k < md.datas.len()
        invariant
            k <= md.datas.len(),
            mn == module_name@,
            framev == module_frame(mn, md@.datas),
            framev.len() == md.datas@.len(),
            frame@ == framev.take(k as int),
        decreases md.datas.len() - k,
    {
        proof {
            assert(md@.datas[k as int] == md.datas@[k as int]@);
            assert(framev[k as int] == (
                md.datas@[k as int]@.name,
                child_path(mn, md.datas@[k as int]@.name),
            ));
        }
        let ghost prev = frame@;
        frame.push_data(
            String::from_str(md.datas[k].name.path.as_str()),
            Name::child(&module_name, md.datas[k].name.path.as_str()),
        );
        proof {
            assert(frame@ =~= prev.push(framev[k as int]));
            assert(framev.take(k as int + 1) =~= framev.take(k as int).push(framev[k as int]));
        }
        k = k + 1;
    }
    proof {
        assert(framev.take(framev.len() as int) =~= framev);
    }
    let mut frames: Vec<ScopeFrame> = Vec::new();
    frames.push(frame);
    proof {
        assert(frames_view(frames@) =~= seq![framev]);
    }

    proof {
        assert(md.datas@.map_values(|d: SysDCData| d@).skip(0) =~= md@.datas);
    }
    let ds2 = match resolve_datas_at(&frames, &module_name, &md.datas, 0) {
        Result::Ok(ds) => ds,
        Result::Err(e) => {
            return Err(e);
        },
    };
    proof {
        assert(md.functions@.map_values(|f: SysDCFunction| f@).skip(0) =~= md@.functions);
    }
    let fs2 = match resolve_functions_at(&frames, &module_name, &md.functions, 0) {
        Result::Ok(fs) => fs,
        Result::Err(e) => {
            return Err(e);
        },
    };

    let ghost m2 = ModuleModel {
        name: mn,
        datas: ds2@.map_values(|d: SysDCData| d@),
        functions: fs2@.map_values(|f: SysDCFunction| f@),
    };

    // No placeholder may survive: a no-hint type with no binding site
    // anywhere would otherwise slip through.
    let mut k: usize = 0;
    while k < ds2.len()
        invariant
            k <= ds2@.len(),
            mn == child_path(unit_name@, md@.name),
            dup_in(md@.datas.map_values(|d: DataModel| child_path(mn, d.name))) is None,
            dup_in(md@.functions.map_values(|f: FunctionModel| child_path(mn, f.name))) is None,
            resolve_datas_spec(seq![module_frame(mn, md@.datas)], mn, md@.datas) == Ok::<
                Seq<DataModel>,
                ErrorModel,
            >(m2.datas),
            resolve_functions_spec(seq![module_frame(mn, md@.datas)], mn, md@.functions) == Ok::<
                Seq<FunctionModel>,
                ErrorModel,
            >(m2.functions),
            m2.name == mn,
            m2.datas == ds2@.map_values(|d: SysDCData| d@),
            m2.datas.len() == ds2@.len(),
            forall|l: int| 0 <= l < k ==> solved_data(#[trigger] m2.datas[l]),
        decreases ds2.len() - k,
    {
        proof {
            assert(m2.datas[k as int] == ds2@[k as int]@);
        }
        if !solved_check_binds(&ds2[k].members) {
            proof {
                assert(!solved_data(m2.datas[k as int]));
                assert(!solved_module(m2));
            }
            return Err(CompileError::UnresolvedTypeError(None));
        }
        k = k + 1;
    }
    let mut k: usize = 0;
    while k < fs2.len()
        invariant
            k <= fs2@.len(),
            mn == child_path(unit_name@, md@.name),
            dup_in(md@.datas.map_values(|d: DataModel| child_path(mn, d.name))) is None,
            dup_in(md@.functions.map_values(|f: FunctionModel| child_path(mn, f.name))) is None,
            resolve_datas_spec(seq![module_frame(mn, md@.datas)], mn, md@.datas) == Ok::<
                Seq<DataModel>,
                ErrorModel,
            >(m2.datas),
            resolve_functions_spec(seq![module_frame(mn, md@.datas)], mn, md@.functions) == Ok::<
                Seq<FunctionModel>,
                ErrorModel,
            >(m2.functions),
            m2.name == mn,
            m2.functions == fs2@.map_values(|f: SysDCFunction| f@),
            m2.functions.len() == fs2@.len(),
            forall|l: int| 0 <= l < m2.datas.len() ==> solved_data(#[trigger] m2.datas[l]),
            forall|l: int| 0 <= l < k ==> solved_function(#[trigger] m2.functions[l]),
        decreases fs2.len() - k,
    {
        proof {
            assert(m2.functions[k as int] == fs2@[k as int]@);
        }
        if !solved_check_function(&fs2[k]) {
            proof {
                assert(!solved_function(m2.functions[k as int]));
                assert(!solved_module(m2));
            }
            return Err(CompileError::UnresolvedTypeError(None));
        }
        k = k + 1;
    }

    let out = SysDCModule { name: module_name, datas: ds2, functions: fs2 };
    proof {
        assert(out@ =~= m2);
        assert(solved_module(m2));
    }
    Ok(out)
}

fn resolve_modules_at(unit_name: &Name, v: &Vec<SysDCModule>, i: usize) -> (r: Result<
    Vec<SysDCModule>,
    CompileError,
>)
    requires
        i <= v@.len(),
    ensures
        match r {
            Result::Ok(out) => resolve_modules_spec(
                unit_name@,
                v@.map_values(|m: SysDCModule| m@).skip(i as int),
            ) == Ok::<Seq<ModuleModel>, ErrorModel>(out@.map_values(|m: SysDCModule| m@)),
            Result::Err(e) => resolve_modules_spec(
                unit_name@,
                v@.map_values(|m: SysDCModule| m@).skip(i as int),
            ) == Err::<Seq<ModuleModel>, ErrorModel>(e@),
        },
    decreases v@.len() - i,
{
    let ghost mv = v@.map_values(|m: SysDCModule| m@);
    if i == v.len() {
        proof {
            assert(mv.skip(i as int) =~= Seq::<ModuleModel>::empty());
        }
        let out: Vec<SysDCModule> = Vec::new();
        proof {
            assert(out@.map_values(|m: SysDCModule| m@) =~= Seq::<ModuleModel>::empty());
        }
        return Ok(out);
    }
    proof {
        assert(mv[i as int] == v@[i as int]@);
        assert(mv.skip(i as int).first() == mv[i as int]);
        assert(mv.skip(i as int).drop_first() =~= mv.skip(i as int + 1));
    }
    let m2 = match resolve_module_x(unit_name, &v[i]) {
        Result::Ok(m2) => m2,
        Result::Err(e) => {
            return Err(e);
        },
    };
    let mut rest = match resolve_modules_at(unit_name, v, i + 1) {
        Result::Ok(rest) => rest,
        Result::Err(e) => {
            return Err(e);
        },
    };
    let ghost restv = rest@.map_values(|m: SysDCModule| m@);
    rest.insert(0, m2);
    proof {
        assert(rest@.map_values(|m: SysDCModule| m@) =~= seq![
            resolve_module_spec(unit_name@, mv[i as int])->Ok_0,
        ] + restv);
    }
    Ok(rest)
}

fn resolve_unit_x(u: &SysDCUnit) -> (r: Result<SysDCUnit, CompileError>)
    ensures
        match r {
            Result::Ok(u2) => resolve_unit_spec(u@) == Ok::<UnitModel, ErrorModel>(u2@),
            Result::Err(e) => resolve_unit_spec(u@) == Err::<UnitModel, ErrorModel>(e@),
        },
{
    let unit_name = copy_name(&u.name);
    let ghost mnames = u@.modules.map_values(|md: ModuleModel| child_path(u@.name, md.name));
    let mut module_names: Vec<Name> = Vec::new();
    proof {
        assert(module_names@.map_values(|n: Name| n@) =~= mnames.take(0));
    }
    let mut j: usize = 0;
    while j < u.modules.len()
        invariant
            j <= u.modules.len(),
            unit_name@ == u@.name,
            mnames == u@.modules.map_values(|md: ModuleModel| child_path(u@.name, md.name)),
            mnames.len() == u.modules@.len(),
            module_names@.map_values(|n: Name| n@) == mnames.take(j as int),
        decreases u.modules.len() - j,
    {
        proof {
            assert(u@.modules[j as int] == u.modules@[j as int]@);
            assert(mnames[j as int] == child_path(u@.name, u.modules@[j as int]@.name));
        }
        let ghost prev = module_names@.map_values(|n: Name| n@);
        module_names.push(Name::child(&unit_name, u.modules[j].name.path.as_str()));
        proof {
            assert(module_names@.map_values(|n: Name| n@) =~= prev.push(mnames[j as int]));
            assert(mnames.take(j as int + 1) =~= mnames.take(j as int).push(mnames[j as int]));
        }
        j = j + 1;
    }
    proof {
        assert(mnames.take(mnames.len() as int) =~= mnames);
    }
    match find_duplicate(&module_names) {
        Option::Some(d) => {
            return Err(CompileError::DuplicateDeclarationError(d));
        },
        Option::None => {},
    }
    proof {
        assert(u.modules@.map_values(|m: SysDCModule| m@).skip(0) =~= u@.modules);
    }
    let ms = match resolve_modules_at(&unit_name, &u.modules, 0) {
        Result::Ok(ms) => ms,
        Result::Err(e) => {
            return Err(e);
        },
    };
    let u2 = SysDCUnit { name: unit_name, modules: ms };
    proof {
        assert(u2@ =~= (UnitModel {
            name: u@.name,
            modules: ms@.map_values(|m: SysDCModule| m@),
        }));
    }
    Ok(u2)
}

fn resolve_units_at(v: &Vec<SysDCUnit>, i: usize) -> (r: Result<Vec<SysDCUnit>, CompileError>)
    requires
        i <= v@.len(),
    ensures
        match r {
            Result::Ok(out) => resolve_units_spec(
                v@.map_values(|u: SysDCUnit| u@).skip(i as int),
            ) == Ok::<Seq<UnitModel>, ErrorModel>(out@.map_values(|u: SysDCUnit| u@)),
            Result::Err(e) => resolve_units_spec(v@.map_values(|u: SysDCUnit| u@).skip(i as int))
                == Err::<Seq<UnitModel>, ErrorModel>(e@),
        },
    decreases v@.len() - i,
{
    let ghost uv = v@.map_values(|u: SysDCUnit| u@);
    if i == v.len() {
        proof {
            assert(uv.skip(i as int) =~= Seq::<UnitModel>::empty());
        }
        let out: Vec<SysDCUnit> = Vec::new();
        proof {
            assert(out@.map_values(|u: SysDCUnit| u@) =~= Seq::<UnitModel>::empty());
        }
        return Ok(out);
    }
    proof {
        assert(uv[i as int] == v@[i as int]@);
        assert(uv.skip(i as int).first() == uv[i as int]);
        assert(uv.skip(i as int).drop_first() =~= uv.skip(i as int + 1));
    }
    let u2 = match resolve_unit_x(&v[i]) {
        Result::Ok(u2) => u2,
        Result::Err(e) => {
            return Err(e);
        },
    };
    let mut rest = match resolve_units_at(v, i + 1) {
        Result::Ok(rest) => rest,
        Result::Err(e) => {
            return Err(e);
        },
    };
    let ghost restv = rest@.map_values(|u: SysDCUnit| u@);
    rest.insert(0, u2);
    proof {
        assert(rest@.map_values(|u: SysDCUnit| u@) =~= seq![
            resolve_unit_spec(uv[i as int])->Ok_0,
        ] + restv);
    }
    Ok(rest)
}

/// Resolves and validates a whole raw declaration tree, returning
/// exactly what `resolve_system_spec` describes: names are qualified by
/// their tree position, the first duplicate declaration in any parent
/// scope is refused with its qualified name, every hinted type is
/// resolved against the data declarations visible from its module,
/// every function body is validated in annotation order, and a run
/// succeeds only if no placeholder type survives anywhere — so the
/// output satisfies the resolved-model invariant.
pub fn resolve_system(raw: &SysDCSystem) -> (r: Result<SysDCSystem, CompileError>)
    ensures
        match r {
            Result::Ok(out) => resolve_system_spec(raw@) == Ok::<SystemModel, ErrorModel>(out@)
                && solved_system(out@),
            Result::Err(e) => resolve_system_spec(raw@) == Err::<SystemModel, ErrorModel>(e@),
        },
{
    let ghost unames = raw@.units.map_values(|u: UnitModel| u.name);
    let mut unit_names: Vec<Name> = Vec::new();
    proof {
        assert(unit_names@.map_values(|n: Name| n@) =~= unames.take(0));
    }
    let mut i: usize = 0;
    while i < raw.units.len()
        invariant
            i <= raw.units.len(),
            unames == raw@.units.map_values(|u: UnitModel| u.name),
            unames.len() == raw.units@.len(),
            unit_names@.map_values(|n: Name| n@) == unames.take(i as int),
        decreases raw.units.len() - i,
    {
        proof {
            assert(raw@.units[i as int] == raw.units@[i as int]@);
            assert(unames[i as int] == raw.units@[i as int]@.name);
        }
        let ghost prev = unit_names@.map_values(|n: Name| n@);
        unit_names.push(copy_name(&raw.units[i].name));
        proof {
            assert(unit_names@.map_values(|n: Name| n@) =~= prev.push(unames[i as int]));
            assert(unames.take(i as int + 1) =~= unames.take(i as int).push(unames[i as int]));
        }
        i = i + 1;
    }
    proof {
        assert(unames.take(unames.len() as int) =~= unames);
    }
    match find_duplicate(&unit_names) {
        Option::Some(d) => {
            return Err(CompileError::DuplicateDeclarationError(d));
        },
        Option::None => {},
    }
    proof {
        assert(raw.units@.map_values(|u: SysDCUnit| u@).skip(0) =~= raw@.units);
    }
    let units = match resolve_units_at(&raw.units, 0) {
        Result::Ok(us) => us,
        Result::Err(e) => {
            return Err(e);
        },
    };
    let out = SysDCSystem { units };
    proof {
        assert(out@ =~= (SystemModel { units: out@.units }));
        lemma_resolve_system_solved(raw@);
    }
    Ok(out)
}

} // verus!
