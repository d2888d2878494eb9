//! Declarations of a module header.

use vstd::prelude::*;
use crate::ast::Kind;
use crate::header_syntax::{
    group_header_models, EffectRefModel, HeaderEffectRef, HeaderTy, HeaderTypeExpr, HeaderVisibility,
};
use crate::table::Table;
use crate::values::{push_value, Dup};

verus! {

fn dup_type_expr(t: &HeaderTypeExpr) -> (r: HeaderTypeExpr)
    ensures
        r.deep_view() == t.deep_view(),
    decreases t,
{
    broadcast use group_header_models;

    match t {
        HeaderTypeExpr::Named(name) => HeaderTypeExpr::Named(name.clone()),
        HeaderTypeExpr::Var(name) => HeaderTypeExpr::Var(name.clone()),
        HeaderTypeExpr::App { func, arg } => HeaderTypeExpr::App {
            func: Box::new(dup_type_expr(func)),
            arg: Box::new(dup_type_expr(arg)),
        },
        HeaderTypeExpr::Arrow { from, to, effects, effect_row_vars } => HeaderTypeExpr::Arrow {
            from: Box::new(dup_type_expr(from)),
            to: Box::new(dup_type_expr(to)),
            effects: dup_effect_refs(effects),
            effect_row_vars: effect_row_vars.dup(),
        },
        HeaderTypeExpr::Record(fields) => HeaderTypeExpr::Record(dup_fields(fields)),
        HeaderTypeExpr::Labeled { label, inner } => HeaderTypeExpr::Labeled {
            label: label.clone(),
            inner: Box::new(dup_type_expr(inner)),
        },
        HeaderTypeExpr::Symbol(name) => HeaderTypeExpr::Symbol(name.clone()),
    }
}

fn dup_type_exprs(v: &Vec<HeaderTypeExpr>) -> (r: Vec<HeaderTypeExpr>)
    ensures
        r.deep_view() == v.deep_view(),
    decreases v,
{
    let mut out: Vec<HeaderTypeExpr> = Vec::new();
    let mut i: usize = 0;
    while i < v.len()
        invariant
            i <= v.len(),
            out.len() == i,
            forall|j: int| 0 <= j < i ==> #[trigger] out.deep_view()[j] == v.deep_view()[j],
        decreases v.len() - i,
    {
        push_value(&mut out, dup_type_expr(&v[i]));
        i = i + 1;
    }
    assert(out.deep_view() =~= v.deep_view());
    out
}

fn dup_fields(v: &Vec<(String, HeaderTypeExpr)>) -> (r: Vec<(String, HeaderTypeExpr)>)
    ensures
        r.deep_view() == v.deep_view(),
    decreases v,
{
    let mut out: Vec<(String, HeaderTypeExpr)> = Vec::new();
    let mut i: usize = 0;
    while i < v.len()
        invariant
            i <= v.len(),
            out.len() == i,
            forall|j: int| 0 <= j < i ==> #[trigger] out.deep_view()[j] == v.deep_view()[j],
        decreases v.len() - i,
    {
        push_value(&mut out, (v[i].0.clone(), dup_type_expr(&v[i].1)));
        i = i + 1;
    }
    assert(out.deep_view() =~= v.deep_view());
    out
}

fn dup_effect_refs(v: &Vec<HeaderEffectRef>) -> (r: Vec<HeaderEffectRef>)
    ensures
        r.deep_view() == v.deep_view(),
    decreases v,
{
    broadcast use group_header_models;

    let mut out: Vec<HeaderEffectRef> = Vec::new();
    let mut i: usize = 0;
    while i < v.len()
        invariant
            i <= v.len(),
            out.len() == i,
            forall|j: int| 0 <= j < i ==> #[trigger] out.deep_view()[j] == v.deep_view()[j],
        decreases v.len() - i,
    {
        broadcast use group_header_models;

        let e = HeaderEffectRef {
            name: v[i].name.clone(),
            type_args: dup_type_exprs(&v[i].type_args),
        };
        push_value(&mut out, e);
        i = i + 1;
    }
    assert(out.deep_view() =~= v.deep_view());
    out
}

impl Dup for HeaderTypeExpr {
    fn dup(&self) -> (r: Self) {
        dup_type_expr(self)
    }
}

impl Dup for HeaderEffectRef {
    fn dup(&self) -> (r: Self) {
        broadcast use group_header_models;

        HeaderEffectRef { name: self.name.clone(), type_args: dup_type_exprs(&self.type_args) }
    }
}

/// A name that an import exposes.
#[derive(Debug)]
pub struct HeaderExposedItem {
    pub name: String,
    pub alias: Option<String>,
    pub public: bool,
}

#[verifier::ext_equal]
pub struct ExposedItemModel {
    pub name: Seq<char>,
    pub alias: Option<Seq<char>>,
    pub public: bool,
}

impl DeepView for HeaderExposedItem {
    type V = ExposedItemModel;

    open spec fn deep_view(&self) -> ExposedItemModel {
        ExposedItemModel {
            name: self.name.deep_view(),
            alias: self.alias.deep_view(),
            public: self.public.deep_view(),
        }
    }
}

impl Dup for HeaderExposedItem {
    fn dup(&self) -> (r: Self) {
        HeaderExposedItem {
            name: self.name.dup(),
            alias: self.alias.dup(),
            public: self.public.dup(),
        }
    }
}

/// What an import exposes.
#[derive(Debug)]
pub enum HeaderExposing {
    All { public: bool },
    Items(Vec<HeaderExposedItem>),
}

#[verifier::ext_equal]
pub enum ExposingModel {
    All { public: bool },
    Items(Seq<ExposedItemModel>),
}

impl DeepView for HeaderExposing {
    type V = ExposingModel;

    open spec fn deep_view(&self) -> ExposingModel {
        match self {
            HeaderExposing::All { public } => ExposingModel::All { public: *public },
            HeaderExposing::Items(items) => ExposingModel::Items(items.deep_view()),
        }
    }
}

impl Dup for HeaderExposing {
    fn dup(&self) -> (r: Self) {
        match self {
            HeaderExposing::All { public } => HeaderExposing::All { public: *public },
            HeaderExposing::Items(items) => HeaderExposing::Items(items.dup()),
        }
    }
}

#[derive(Debug)]
pub struct HeaderImport {
    pub module: String,
    pub alias: Option<String>,
    pub exposing: Option<HeaderExposing>,
}

#[verifier::ext_equal]
pub struct ImportModel {
    pub module: Seq<char>,
    pub alias: Option<Seq<char>>,
    pub exposing: Option<ExposingModel>,
}

impl DeepView for HeaderImport {
    type V = ImportModel;

    open spec fn deep_view(&self) -> ImportModel {
        ImportModel {
            module: self.module.deep_view(),
            alias: self.alias.deep_view(),
            exposing: self.exposing.deep_view(),
        }
    }
}

impl Dup for HeaderImport {
    fn dup(&self) -> (r: Self) {
        HeaderImport {
            module: self.module.dup(),
            alias: self.alias.dup(),
            exposing: self.exposing.dup(),
        }
    }
}

/// A name that a module hands on from another.
#[derive(Debug, PartialEq, Eq)]
pub struct HeaderReExport {
    pub surface_name: String,
    pub origin_module: String,
    pub origin_name: String,
    pub visibility: HeaderVisibility,
}

#[verifier::ext_equal]
pub struct ReExportModel {
    pub surface_name: Seq<char>,
    pub origin_module: Seq<char>,
    pub origin_name: Seq<char>,
    pub visibility: HeaderVisibility,
}

impl DeepView for HeaderReExport {
    type V = ReExportModel;

    open spec fn deep_view(&self) -> ReExportModel {
        ReExportModel {
            surface_name: self.surface_name.deep_view(),
            origin_module: self.origin_module.deep_view(),
            origin_name: self.origin_name.deep_view(),
            visibility: self.visibility.deep_view(),
        }
    }
}

impl Dup for HeaderReExport {
    fn dup(&self) -> (r: Self) {
        HeaderReExport {
            surface_name: self.surface_name.dup(),
            origin_module: self.origin_module.dup(),
            origin_name: self.origin_name.dup(),
            visibility: self.visibility.dup(),
        }
    }
}

/// A module all of whose names are handed on.
#[derive(Debug, PartialEq, Eq)]
pub struct HeaderReExportAll {
    pub origin_module: String,
    pub visibility: HeaderVisibility,
}

#[verifier::ext_equal]
pub struct ReExportAllModel {
    pub origin_module: Seq<char>,
    pub visibility: HeaderVisibility,
}

impl DeepView for HeaderReExportAll {
    type V = ReExportAllModel;

    open spec fn deep_view(&self) -> ReExportAllModel {
        ReExportAllModel {
            origin_module: self.origin_module.deep_view(),
            visibility: self.visibility.deep_view(),
        }
    }
}

impl Dup for HeaderReExportAll {
    fn dup(&self) -> (r: Self) {
        HeaderReExportAll {
            origin_module: self.origin_module.dup(),
            visibility: self.visibility.dup(),
        }
    }
}

#[derive(Debug)]
pub struct HeaderTypeParam {
    pub name: String,
    pub kind: Kind,
}

#[verifier::ext_equal]
pub struct TypeParamModel {
    pub name: Seq<char>,
    pub kind: Kind,
}

impl DeepView for HeaderTypeParam {
    type V = TypeParamModel;

    open spec fn deep_view(&self) -> TypeParamModel {
        TypeParamModel {
            name: self.name.deep_view(),
            kind: self.kind.deep_view(),
        }
    }
}

impl Dup for HeaderTypeParam {
    fn dup(&self) -> (r: Self) {
        HeaderTypeParam {
            name: self.name.dup(),
            kind: self.kind.dup(),
        }
    }
}

#[derive(Debug)]
pub struct HeaderTraitRef {
    pub name: String,
    pub type_args: Vec<HeaderTypeExpr>,
}

#[verifier::ext_equal]
pub struct TraitRefModel {
    pub name: Seq<char>,
    pub type_args: Seq<HeaderTy>,
}

impl DeepView for HeaderTraitRef {
    type V = TraitRefModel;

    open spec fn deep_view(&self) -> TraitRefModel {
        TraitRefModel {
            name: self.name.deep_view(),
            type_args: self.type_args.deep_view(),
        }
    }
}

impl Dup for HeaderTraitRef {
    fn dup(&self) -> (r: Self) {
        HeaderTraitRef {
            name: self.name.dup(),
            type_args: self.type_args.dup(),
        }
    }
}

#[derive(Debug)]
pub struct HeaderTraitBound {
    pub type_var: String,
    pub traits: Vec<HeaderTraitRef>,
}

#[verifier::ext_equal]
pub struct TraitBoundModel {
    pub type_var: Seq<char>,
    pub traits: Seq<TraitRefModel>,
}

impl DeepView for HeaderTraitBound {
    type V = TraitBoundModel;

    open spec fn deep_view(&self) -> TraitBoundModel {
        TraitBoundModel {
            type_var: self.type_var.deep_view(),
            traits: self.traits.deep_view(),
        }
    }
}

impl Dup for HeaderTraitBound {
    fn dup(&self) -> (r: Self) {
        HeaderTraitBound {
            type_var: self.type_var.dup(),
            traits: self.traits.dup(),
        }
    }
}

/// A function with its declared type.
#[derive(Debug)]
pub struct HeaderFunction {
    pub public: bool,
    pub params: Vec<(String, HeaderTypeExpr)>,
    pub return_type: HeaderTypeExpr,
    pub effects: Vec<HeaderEffectRef>,
    pub effect_row_vars: Vec<String>,
    pub where_clause: Vec<HeaderTraitBound>,
}

#[verifier::ext_equal]
pub struct FunctionModel {
    pub public: bool,
    pub params: Seq<(Seq<char>, HeaderTy)>,
    pub return_type: HeaderTy,
    pub effects: Seq<EffectRefModel>,
    pub effect_row_vars: Seq<Seq<char>>,
    pub where_clause: Seq<TraitBoundModel>,
}

impl DeepView for HeaderFunction {
    type V = FunctionModel;

    open spec fn deep_view(&self) -> FunctionModel {
        FunctionModel {
            public: self.public.deep_view(),
            params: self.params.deep_view(),
            return_type: self.return_type.deep_view(),
            effects: self.effects.deep_view(),
            effect_row_vars: self.effect_row_vars.deep_view(),
            where_clause: self.where_clause.deep_view(),
        }
    }
}

impl Dup for HeaderFunction {
    fn dup(&self) -> (r: Self) {
        HeaderFunction {
            public: self.public.dup(),
            params: self.params.dup(),
            return_type: self.return_type.dup(),
            effects: self.effects.dup(),
            effect_row_vars: self.effect_row_vars.dup(),
            where_clause: self.where_clause.dup(),
        }
    }
}

#[derive(Debug)]
pub struct HeaderConstructorField {
    pub label: Option<String>,
    pub ty: HeaderTypeExpr,
}

#[verifier::ext_equal]
pub struct ConstructorFieldModel {
    pub label: Option<Seq<char>>,
    pub ty: HeaderTy,
}

impl DeepView for HeaderConstructorField {
    type V = ConstructorFieldModel;

    open spec fn deep_view(&self) -> ConstructorFieldModel {
        ConstructorFieldModel {
            label: self.label.deep_view(),
            ty: self.ty.deep_view(),
        }
    }
}

impl Dup for HeaderConstructorField {
    fn dup(&self) -> (r: Self) {
        HeaderConstructorField {
            label: self.label.dup(),
            ty: self.ty.dup(),
        }
    }
}

#[derive(Debug)]
pub struct HeaderConstructor {
    pub name: String,
    pub fields: Vec<HeaderConstructorField>,
}

#[verifier::ext_equal]
pub struct ConstructorModel {
    pub name: Seq<char>,
    pub fields: Seq<ConstructorFieldModel>,
}

impl DeepView for HeaderConstructor {
    type V = ConstructorModel;

    open spec fn deep_view(&self) -> ConstructorModel {
        ConstructorModel {
            name: self.name.deep_view(),
            fields: self.fields.deep_view(),
        }
    }
}

impl Dup for HeaderConstructor {
    fn dup(&self) -> (r: Self) {
        HeaderConstructor {
            name: self.name.dup(),
            fields: self.fields.dup(),
        }
    }
}

/// A declared type: a type of its own or a name for another.
#[derive(Debug)]
pub enum HeaderTypeDecl {
    Adt {
        public: bool,
        opaque: bool,
        type_params: Vec<HeaderTypeParam>,
        constructors: Vec<HeaderConstructor>,
    },
    Alias { public: bool, type_params: Vec<HeaderTypeParam>, body: HeaderTypeExpr },
}

#[verifier::ext_equal]
pub enum TypeDeclModel {
    Adt {
        public: bool,
        opaque: bool,
        type_params: Seq<TypeParamModel>,
        constructors: Seq<ConstructorModel>,
    },
    Alias { public: bool, type_params: Seq<TypeParamModel>, body: HeaderTy },
}

impl DeepView for HeaderTypeDecl {
    type V = TypeDeclModel;

    open spec fn deep_view(&self) -> TypeDeclModel {
        match self {
            HeaderTypeDecl::Adt { public, opaque, type_params, constructors } => TypeDeclModel::Adt {
                public: *public,
                opaque: *opaque,
                type_params: type_params.deep_view(),
                constructors: constructors.deep_view(),
            },
            HeaderTypeDecl::Alias { public, type_params, body } => TypeDeclModel::Alias {
                public: *public,
                type_params: type_params.deep_view(),
                body: body.deep_view(),
            },
        }
    }
}

impl Dup for HeaderTypeDecl {
    fn dup(&self) -> (r: Self) {
        match self {
            HeaderTypeDecl::Adt { public, opaque, type_params, constructors } =>
                HeaderTypeDecl::Adt {
                public: *public,
                opaque: *opaque,
                type_params: type_params.dup(),
                constructors: constructors.dup(),
            },
            HeaderTypeDecl::Alias { public, type_params, body } => HeaderTypeDecl::Alias {
                public: *public,
                type_params: type_params.dup(),
                body: body.dup(),
            },
        }
    }
}

impl TypeDeclModel {
    pub open spec fn is_public(self) -> bool {
        match self {
            TypeDeclModel::Adt { public, .. } => public,
            TypeDeclModel::Alias { public, .. } => public,
        }
    }

    pub open spec fn params(self) -> Seq<TypeParamModel> {
        match self {
            TypeDeclModel::Adt { type_params, .. } => type_params,
            TypeDeclModel::Alias { type_params, .. } => type_params,
        }
    }
}

#[derive(Debug)]
pub struct HeaderRecordDecl {
    pub public: bool,
    pub type_params: Vec<HeaderTypeParam>,
    pub fields: Vec<(String, HeaderTypeExpr)>,
}

#[verifier::ext_equal]
pub struct RecordDeclModel {
    pub public: bool,
    pub type_params: Seq<TypeParamModel>,
    pub fields: Seq<(Seq<char>, HeaderTy)>,
}

impl DeepView for HeaderRecordDecl {
    type V = RecordDeclModel;

    open spec fn deep_view(&self) -> RecordDeclModel {
        RecordDeclModel {
            public: self.public.deep_view(),
            type_params: self.type_params.deep_view(),
            fields: self.fields.deep_view(),
        }
    }
}

impl Dup for HeaderRecordDecl {
    fn dup(&self) -> (r: Self) {
        HeaderRecordDecl {
            public: self.public.dup(),
            type_params: self.type_params.dup(),
            fields: self.fields.dup(),
        }
    }
}

#[derive(Debug)]
pub struct HeaderTraitMethod {
    pub name: String,
    pub params: Vec<(String, HeaderTypeExpr)>,
    pub return_type: HeaderTypeExpr,
    pub effects: Vec<HeaderEffectRef>,
    pub effect_row_vars: Vec<String>,
}

#[verifier::ext_equal]
pub struct TraitMethodModel {
    pub name: Seq<char>,
    pub params: Seq<(Seq<char>, HeaderTy)>,
    pub return_type: HeaderTy,
    pub effects: Seq<EffectRefModel>,
    pub effect_row_vars: Seq<Seq<char>>,
}

impl DeepView for HeaderTraitMethod {
    type V = TraitMethodModel;

    open spec fn deep_view(&self) -> TraitMethodModel {
        TraitMethodModel {
            name: self.name.deep_view(),
            params: self.params.deep_view(),
            return_type: self.return_type.deep_view(),
            effects: self.effects.deep_view(),
            effect_row_vars: self.effect_row_vars.deep_view(),
        }
    }
}

impl Dup for HeaderTraitMethod {
    fn dup(&self) -> (r: Self) {
        HeaderTraitMethod {
            name: self.name.dup(),
            params: self.params.dup(),
            return_type: self.return_type.dup(),
            effects: self.effects.dup(),
            effect_row_vars: self.effect_row_vars.dup(),
        }
    }
}

#[derive(Debug)]
pub struct HeaderTraitDecl {
    pub public: bool,
    pub type_params: Vec<HeaderTypeParam>,
    pub is_functional: bool,
    pub supertraits: Vec<HeaderTraitRef>,
    pub methods: Vec<HeaderTraitMethod>,
}

#[verifier::ext_equal]
pub struct TraitDeclModel {
    pub public: bool,
    pub type_params: Seq<TypeParamModel>,
    pub is_functional: bool,
    pub supertraits: Seq<TraitRefModel>,
    pub methods: Seq<TraitMethodModel>,
}

impl DeepView for HeaderTraitDecl {
    type V = TraitDeclModel;

    open spec fn deep_view(&self) -> TraitDeclModel {
        TraitDeclModel {
            public: self.public.deep_view(),
            type_params: self.type_params.deep_view(),
            is_functional: self.is_functional.deep_view(),
            supertraits: self.supertraits.deep_view(),
            methods: self.methods.deep_view(),
        }
    }
}

impl Dup for HeaderTraitDecl {
    fn dup(&self) -> (r: Self) {
        HeaderTraitDecl {
            public: self.public.dup(),
            type_params: self.type_params.dup(),
            is_functional: self.is_functional.dup(),
            supertraits: self.supertraits.dup(),
            methods: self.methods.dup(),
        }
    }
}

#[derive(Debug)]
pub struct HeaderEffectOp {
    pub name: String,
    pub params: Vec<(String, HeaderTypeExpr)>,
    pub return_type: HeaderTypeExpr,
    pub effects: Vec<HeaderEffectRef>,
    pub effect_row_vars: Vec<String>,
}

#[verifier::ext_equal]
pub struct EffectOpModel {
    pub name: Seq<char>,
    pub params: Seq<(Seq<char>, HeaderTy)>,
    pub return_type: HeaderTy,
    pub effects: Seq<EffectRefModel>,
    pub effect_row_vars: Seq<Seq<char>>,
}

impl DeepView for HeaderEffectOp {
    type V = EffectOpModel;

    open spec fn deep_view(&self) -> EffectOpModel {
        EffectOpModel {
            name: self.name.deep_view(),
            params: self.params.deep_view(),
            return_type: self.return_type.deep_view(),
            effects: self.effects.deep_view(),
            effect_row_vars: self.effect_row_vars.deep_view(),
        }
    }
}

impl Dup for HeaderEffectOp {
    fn dup(&self) -> (r: Self) {
        HeaderEffectOp {
            name: self.name.dup(),
            params: self.params.dup(),
            return_type: self.return_type.dup(),
            effects: self.effects.dup(),
            effect_row_vars: self.effect_row_vars.dup(),
        }
    }
}

#[derive(Debug)]
pub struct HeaderEffectDecl {
    pub public: bool,
    pub type_params: Vec<HeaderTypeParam>,
    pub operations: Vec<HeaderEffectOp>,
}

#[verifier::ext_equal]
pub struct EffectDeclModel {
    pub public: bool,
    pub type_params: Seq<TypeParamModel>,
    pub operations: Seq<EffectOpModel>,
}

impl DeepView for HeaderEffectDecl {
    type V = EffectDeclModel;

    open spec fn deep_view(&self) -> EffectDeclModel {
        EffectDeclModel {
            public: self.public.deep_view(),
            type_params: self.type_params.deep_view(),
            operations: self.operations.deep_view(),
        }
    }
}

impl Dup for HeaderEffectDecl {
    fn dup(&self) -> (r: Self) {
        HeaderEffectDecl {
            public: self.public.dup(),
            type_params: self.type_params.dup(),
            operations: self.operations.dup(),
        }
    }
}

#[derive(Debug)]
pub struct HeaderHandlerDecl {
    pub public: bool,
    pub effects: Vec<HeaderEffectRef>,
    pub needs: Vec<HeaderEffectRef>,
    pub where_clause: Vec<HeaderTraitBound>,
}

#[verifier::ext_equal]
pub struct HandlerDeclModel {
    pub public: bool,
    pub effects: Seq<EffectRefModel>,
    pub needs: Seq<EffectRefModel>,
    pub where_clause: Seq<TraitBoundModel>,
}

impl DeepView for HeaderHandlerDecl {
    type V = HandlerDeclModel;

    open spec fn deep_view(&self) -> HandlerDeclModel {
        HandlerDeclModel {
            public: self.public.deep_view(),
            effects: self.effects.deep_view(),
            needs: self.needs.deep_view(),
            where_clause: self.where_clause.deep_view(),
        }
    }
}

impl Dup for HeaderHandlerDecl {
    fn dup(&self) -> (r: Self) {
        HeaderHandlerDecl {
            public: self.public.dup(),
            effects: self.effects.dup(),
            needs: self.needs.dup(),
            where_clause: self.where_clause.dup(),
        }
    }
}

/// A type whose records are built by functions of the module.
#[derive(Debug)]
pub struct HeaderRecordBuilder {
    pub public: bool,
    pub context: String,
    pub start: String,
    pub field: String,
}

#[verifier::ext_equal]
pub struct RecordBuilderModel {
    pub public: bool,
    pub context: Seq<char>,
    pub start: Seq<char>,
    pub field: Seq<char>,
}

impl DeepView for HeaderRecordBuilder {
    type V = RecordBuilderModel;

    open spec fn deep_view(&self) -> RecordBuilderModel {
        RecordBuilderModel {
            public: self.public.deep_view(),
            context: self.context.deep_view(),
            start: self.start.deep_view(),
            field: self.field.deep_view(),
        }
    }
}

impl Dup for HeaderRecordBuilder {
    fn dup(&self) -> (r: Self) {
        HeaderRecordBuilder {
            public: self.public.dup(),
            context: self.context.dup(),
            start: self.start.dup(),
            field: self.field.dup(),
        }
    }
}

/// Inference-free interface data for a parsed module: what is needed to build the
/// scopes of modules that import each other.
pub struct ModuleHeader {
    pub module_name: Option<String>,
    pub imports: Vec<HeaderImport>,
    pub functions: Table<String, HeaderFunction>,
    pub unannotated_functions: Vec<String>,
    pub types: Table<String, HeaderTypeDecl>,
    pub records: Table<String, HeaderRecordDecl>,
    pub traits: Table<String, HeaderTraitDecl>,
    pub effects: Table<String, HeaderEffectDecl>,
    pub handlers: Table<String, HeaderHandlerDecl>,
    pub record_builders: Table<String, HeaderRecordBuilder>,
    pub re_exports: Vec<HeaderReExport>,
    pub re_export_all: Vec<HeaderReExportAll>,
}

/// What a module header holds, its entries in the order of their declaration.
#[verifier::ext_equal]
pub struct HeaderModel {
    pub module_name: Option<Seq<char>>,
    pub imports: Seq<ImportModel>,
    pub functions: Seq<(Seq<char>, FunctionModel)>,
    pub unannotated_functions: Seq<Seq<char>>,
    pub types: Seq<(Seq<char>, TypeDeclModel)>,
    pub records: Seq<(Seq<char>, RecordDeclModel)>,
    pub traits: Seq<(Seq<char>, TraitDeclModel)>,
    pub effects: Seq<(Seq<char>, EffectDeclModel)>,
    pub handlers: Seq<(Seq<char>, HandlerDeclModel)>,
    pub record_builders: Seq<(Seq<char>, RecordBuilderModel)>,
    pub re_exports: Seq<ReExportModel>,
    pub re_export_all: Seq<ReExportAllModel>,
}

impl DeepView for ModuleHeader {
    type V = HeaderModel;

    open spec fn deep_view(&self) -> HeaderModel {
        HeaderModel {
            module_name: self.module_name.deep_view(),
            imports: self.imports.deep_view(),
            functions: self.functions.order(),
            unannotated_functions: self.unannotated_functions.deep_view(),
            types: self.types.order(),
            records: self.records.order(),
            traits: self.traits.order(),
            effects: self.effects.order(),
            handlers: self.handlers.order(),
            record_builders: self.record_builders.order(),
            re_exports: self.re_exports.deep_view(),
            re_export_all: self.re_export_all.deep_view(),
        }
    }
}

impl Dup for ModuleHeader {
    fn dup(&self) -> (r: Self) {
        ModuleHeader {
            module_name: self.module_name.dup(),
            imports: self.imports.dup(),
            functions: self.functions.dup(),
            unannotated_functions: self.unannotated_functions.dup(),
            types: self.types.dup(),
            records: self.records.dup(),
            traits: self.traits.dup(),
            effects: self.effects.dup(),
            handlers: self.handlers.dup(),
            record_builders: self.record_builders.dup(),
            re_exports: self.re_exports.dup(),
            re_export_all: self.re_export_all.dup(),
        }
    }
}

} // verus!
