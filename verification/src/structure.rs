use vstd::prelude::*;
use crate::name::Name;
use crate::types::{solved_kind, Type, TypeModel};

verus! {

/// A named, typed binding: a parameter, a structure member, a spawn
/// result, or a variable reference.
#[derive(Clone, PartialEq)]
pub struct Bind {
    pub name: Name,
    pub ty: Type,
}

/// Mathematical model of a binding.
#[verifier::ext_equal]
pub struct BindModel {
    pub name: Seq<char>,
    pub ty: TypeModel,
}

impl View for Bind {
    type V = BindModel;

    open spec fn view(&self) -> BindModel {
        BindModel { name: self.name@, ty: self.ty@ }
    }
}

impl Bind {
    /// Pairs a variable name with its recorded type.
    pub fn new(name: Name, ty: Type) -> (r: Bind)
        ensures
            r == (Bind { name, ty }),
    {
        Bind { name, ty }
    }
}

/// The model of an ordered binding list.
pub open spec fn binds_view(s: Seq<Bind>) -> Seq<BindModel> {
    s.map_values(|b: Bind| b@)
}

/// One sub-step contributing to a `Spawn`'s result.
#[derive(Clone, PartialEq)]
pub enum SysDCSpawnDetail {
    /// References an existing in-scope variable as an input.
    Use(Name, Type),
    /// Introduces a new local binding `name` by delegating to the
    /// function `func.name` (whose recorded result type is `func.ty`)
    /// with the given arguments.
    LetTo { name: Name, func: Bind, args: Vec<Bind> },
    /// A structurally valid detail of another kind, carried through
    /// unchanged and ignored by flow-graph consumers.
    Other(Name, Type),
}

/// Mathematical model of a spawn detail.
pub enum DetailModel {
    Use(BindModel),
    LetTo { name: Seq<char>, func: BindModel, args: Seq<BindModel> },
    Other(BindModel),
}

impl View for SysDCSpawnDetail {
    type V = DetailModel;

    open spec fn view(&self) -> DetailModel {
        match self {
            SysDCSpawnDetail::Use(n, t) => DetailModel::Use(BindModel { name: n@, ty: t@ }),
            SysDCSpawnDetail::LetTo { name, func, args } => DetailModel::LetTo {
                name: name@,
                func: func@,
                args: binds_view(args@),
            },
            SysDCSpawnDetail::Other(n, t) => DetailModel::Other(BindModel { name: n@, ty: t@ }),
        }
    }
}

/// One step of a function's described data flow.
#[derive(Clone, PartialEq)]
pub enum SysDCAnnotation {
    /// `target`, already in scope, is overwritten using `uses`.
    Modify { target: Bind, uses: Vec<Bind> },
    /// Introduces the new variable `result`, computed from `details`.
    Spawn { result: Bind, details: Vec<SysDCSpawnDetail> },
}

/// Mathematical model of an annotation.
pub enum AnnotationModel {
    Modify { target: BindModel, uses: Seq<BindModel> },
    Spawn { result: BindModel, details: Seq<DetailModel> },
}

impl View for SysDCAnnotation {
    type V = AnnotationModel;

    open spec fn view(&self) -> AnnotationModel {
        match self {
            SysDCAnnotation::Modify { target, uses } => AnnotationModel::Modify {
                target: target@,
                uses: binds_view(uses@),
            },
            SysDCAnnotation::Spawn { result, details } => AnnotationModel::Spawn {
                result: result@,
                details: details@.map_values(|d: SysDCSpawnDetail| d@),
            },
        }
    }
}

/// A named operation with parameters and an ordered annotation sequence.
#[derive(Clone, PartialEq)]
pub struct SysDCFunction {
    pub name: Name,
    pub args: Vec<Bind>,
    pub annotations: Vec<SysDCAnnotation>,
}

/// Mathematical model of a function.
#[verifier::ext_equal]
pub struct FunctionModel {
    pub name: Seq<char>,
    pub args: Seq<BindModel>,
    pub annotations: Seq<AnnotationModel>,
}

impl View for SysDCFunction {
    type V = FunctionModel;

    open spec fn view(&self) -> FunctionModel {
        FunctionModel {
            name: self.name@,
            args: binds_view(self.args@),
            annotations: self.annotations@.map_values(|a: SysDCAnnotation| a@),
        }
    }
}

/// A user-defined structure with named, typed members.
#[derive(Clone, PartialEq)]
pub struct SysDCData {
    pub name: Name,
    pub members: Vec<Bind>,
}

/// Mathematical model of a data declaration.
#[verifier::ext_equal]
pub struct DataModel {
    pub name: Seq<char>,
    pub members: Seq<BindModel>,
}

impl View for SysDCData {
    type V = DataModel;

    open spec fn view(&self) -> DataModel {
        DataModel { name: self.name@, members: binds_view(self.members@) }
    }
}

/// A named collection of data declarations and functions.
#[derive(Clone, PartialEq)]
pub struct SysDCModule {
    pub name: Name,
    pub datas: Vec<SysDCData>,
    pub functions: Vec<SysDCFunction>,
}

/// Mathematical model of a module.
#[verifier::ext_equal]
pub struct ModuleModel {
    pub name: Seq<char>,
    pub datas: Seq<DataModel>,
    pub functions: Seq<FunctionModel>,
}

impl View for SysDCModule {
    type V = ModuleModel;

    open spec fn view(&self) -> ModuleModel {
        ModuleModel {
            name: self.name@,
            datas: self.datas@.map_values(|d: SysDCData| d@),
            functions: self.functions@.map_values(|f: SysDCFunction| f@),
        }
    }
}

/// A top-level namespace owning modules.
#[derive(Clone, PartialEq)]
pub struct SysDCUnit {
    pub name: Name,
    pub modules: Vec<SysDCModule>,
}

/// Mathematical model of a unit.
#[verifier::ext_equal]
pub struct UnitModel {
    pub name: Seq<char>,
    pub modules: Seq<ModuleModel>,
}

impl View for SysDCUnit {
    type V = UnitModel;

    open spec fn view(&self) -> UnitModel {
        UnitModel { name: self.name@, modules: self.modules@.map_values(|m: SysDCModule| m@) }
    }
}

/// The whole resolved (or raw) system: a set of units.
#[derive(Clone, PartialEq)]
pub struct SysDCSystem {
    pub units: Vec<SysDCUnit>,
}

/// Mathematical model of a system.
#[verifier::ext_equal]
pub struct SystemModel {
    pub units: Seq<UnitModel>,
}

impl View for SysDCSystem {
    type V = SystemModel;

    open spec fn view(&self) -> SystemModel {
        SystemModel { units: self.units@.map_values(|u: SysDCUnit| u@) }
    }
}

// ------------------------------------------------------------------
// Solvedness: no transient placeholder type anywhere in a value.
// ------------------------------------------------------------------

pub open spec fn solved_type(t: TypeModel) -> bool {
    solved_kind(t.kind)
}

pub open spec fn solved_bind(b: BindModel) -> bool {
    solved_type(b.ty)
}

pub open spec fn solved_binds(s: Seq<BindModel>) -> bool {
    forall|i: int| 0 <= i < s.len() ==> solved_bind(#[trigger] s[i])
}

pub open spec fn solved_detail(d: DetailModel) -> bool {
    match d {
        DetailModel::Use(b) => solved_bind(b),
        DetailModel::LetTo { name, func, args } => solved_bind(func) && solved_binds(args),
        DetailModel::Other(b) => solved_bind(b),
    }
}

pub open spec fn solved_annotation(a: AnnotationModel) -> bool {
    match a {
        AnnotationModel::Modify { target, uses } => solved_bind(target) && solved_binds(uses),
        AnnotationModel::Spawn { result, details } => solved_bind(result) && forall|i: int|
            0 <= i < details.len() ==> solved_detail(#[trigger] details[i]),
    }
}

pub open spec fn solved_function(f: FunctionModel) -> bool {
    &&& solved_binds(f.args)
    &&& forall|i: int|
        0 <= i < f.annotations.len() ==> solved_annotation(#[trigger] f.annotations[i])
}

pub open spec fn solved_data(d: DataModel) -> bool {
    solved_binds(d.members)
}

pub open spec fn solved_module(m: ModuleModel) -> bool {
    &&& forall|i: int| 0 <= i < m.datas.len() ==> solved_data(#[trigger] m.datas[i])
    &&& forall|i: int| 0 <= i < m.functions.len() ==> solved_function(#[trigger] m.functions[i])
}

pub open spec fn solved_unit(u: UnitModel) -> bool {
    forall|i: int| 0 <= i < u.modules.len() ==> solved_module(#[trigger] u.modules[i])
}

/// The central invariant of the resolved model: no `Unsolved` or
/// `UnsolvedNoHint` kind occurs anywhere in it.
pub open spec fn solved_system(s: SystemModel) -> bool {
    forall|i: int| 0 <= i < s.units.len() ==> solved_unit(#[trigger] s.units[i])
}

} // verus!
