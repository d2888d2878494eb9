//! Module headers: what a module declares, read off its program.

use vstd::prelude::*;
use crate::ast::{
    surface_of, Decl, EffectOp, EffectRef, ExposedItem, Exposing, TraitBound, TraitMethod, TraitRef,
    TypeConstructor, TypeExpr, TypeParam,
};
use crate::header_decls::{
    ConstructorFieldModel, ConstructorModel, EffectDeclModel, EffectOpModel, ExposedItemModel,
    ExposingModel, FunctionModel, HandlerDeclModel, HeaderConstructor, HeaderConstructorField,
    HeaderEffectDecl, HeaderEffectOp, HeaderExposedItem, HeaderExposing, HeaderFunction,
    HeaderHandlerDecl, HeaderImport, HeaderModel, HeaderReExport, HeaderReExportAll,
    HeaderRecordBuilder, HeaderRecordDecl, HeaderTraitBound, HeaderTraitDecl, HeaderTraitMethod,
    HeaderTraitRef, HeaderTypeDecl, HeaderTypeParam, ImportModel, ModuleHeader, ReExportAllModel,
    ReExportModel, RecordBuilderModel, RecordDeclModel, TraitBoundModel, TraitDeclModel,
    TraitMethodModel, TraitRefModel, TypeDeclModel, TypeParamModel,
};
use crate::header_syntax::{
    group_header_models, EffectRefModel, HeaderEffectRef, HeaderTy, HeaderTypeExpr, HeaderVisibility,
};
use crate::sorting::{insert_in_order, lists_in_order, ordered, ordered_is, ordered_set};
use crate::table::{at_key, distinct_keys, has_key, put, put_then_get, Table};
use crate::text::{join_text, joined};
use crate::token::Span;
use crate::values::{push_value, Dup};

verus! {

/// A written type without places and identities.
pub open spec fn type_expr_header(t: TypeExpr) -> HeaderTy
    decreases t,
{
    match t {
        TypeExpr::Named { name, .. } => HeaderTy::Named(name@),
        TypeExpr::Var { name, .. } => HeaderTy::Var(name@),
        TypeExpr::App { func, arg, .. } => HeaderTy::App {
            func: Box::new(type_expr_header(*func)),
            arg: Box::new(type_expr_header(*arg)),
        },
        TypeExpr::Arrow { from, to, effects, effect_row_var, .. } => HeaderTy::Arrow {
            from: Box::new(type_expr_header(*from)),
            to: Box::new(type_expr_header(*to)),
            effects: effect_refs_header(effects),
            effect_row_vars: row_names(effect_row_var@),
        },
        TypeExpr::Record { fields, .. } => HeaderTy::Record(params_header(fields)),
        TypeExpr::Labeled { label, inner, .. } => HeaderTy::Labeled {
            label: label@,
            inner: Box::new(type_expr_header(*inner)),
        },
        TypeExpr::Symbol { name, .. } => HeaderTy::Symbol(name@),
    }
}

pub open spec fn type_exprs_header(v: Vec<TypeExpr>) -> Seq<HeaderTy>
    decreases v,
{
    Seq::new(
        v@.len(),
        |i: int|
            if 0 <= i < v@.len() {
                type_expr_header(v@[i])
            } else {
                HeaderTy::Named(Seq::empty())
            },
    )
}

/// Named types: record fields, parameters.
pub open spec fn params_header(v: Vec<(String, TypeExpr)>) -> Seq<(Seq<char>, HeaderTy)>
    decreases v,
{
    Seq::new(
        v@.len(),
        |i: int|
            if 0 <= i < v@.len() {
                (v@[i].0@, type_expr_header(v@[i].1))
            } else {
                (Seq::empty(), HeaderTy::Named(Seq::empty()))
            },
    )
}

pub open spec fn effect_ref_header(e: EffectRef) -> EffectRefModel
    decreases e,
{
    EffectRefModel { name: e.name@, type_args: type_exprs_header(e.type_args) }
}

pub open spec fn effect_refs_header(v: Vec<EffectRef>) -> Seq<EffectRefModel>
    decreases v,
{
    Seq::new(
        v@.len(),
        |i: int|
            if 0 <= i < v@.len() {
                effect_ref_header(v@[i])
            } else {
                EffectRefModel { name: Seq::empty(), type_args: Seq::empty() }
            },
    )
}

pub open spec fn row_names(v: Seq<(String, Span)>) -> Seq<Seq<char>> {
    v.map_values(|x: (String, Span)| x.0@)
}

pub open spec fn trait_ref_header(t: TraitRef) -> TraitRefModel {
    TraitRefModel { name: t.name@, type_args: type_exprs_header(t.type_args) }
}

pub open spec fn trait_bound_header(b: TraitBound) -> TraitBoundModel {
    TraitBoundModel {
        type_var: b.type_var@,
        traits: b.traits@.map_values(|t: TraitRef| trait_ref_header(t)),
    }
}

pub open spec fn type_param_header(p: TypeParam) -> TypeParamModel {
    TypeParamModel { name: p.name@, kind: p.kind }
}

pub open spec fn type_params_header(v: Seq<TypeParam>) -> Seq<TypeParamModel> {
    v.map_values(|p: TypeParam| type_param_header(p))
}

pub open spec fn constructor_field_header(f: (Option<String>, TypeExpr)) -> ConstructorFieldModel {
    ConstructorFieldModel { label: f.0.deep_view(), ty: type_expr_header(f.1) }
}

pub open spec fn constructor_header(c: TypeConstructor) -> ConstructorModel {
    ConstructorModel {
        name: c.name@,
        fields: c.fields@.map_values(|f: (Option<String>, TypeExpr)| constructor_field_header(f)),
    }
}

pub open spec fn trait_method_header(m: TraitMethod) -> TraitMethodModel {
    TraitMethodModel {
        name: m.name@,
        params: params_header(m.params),
        return_type: type_expr_header(m.return_type),
        effects: effect_refs_header(m.effects),
        effect_row_vars: row_names(m.effect_row_var@),
    }
}

pub open spec fn effect_op_header(op: EffectOp) -> EffectOpModel {
    EffectOpModel {
        name: op.name@,
        params: params_header(op.params),
        return_type: type_expr_header(op.return_type),
        effects: effect_refs_header(op.effects),
        effect_row_vars: row_names(op.effect_row_var@),
    }
}

pub open spec fn exposed_item_header(item: ExposedItem) -> ExposedItemModel {
    ExposedItemModel { name: item.name@, alias: item.alias.deep_view(), public: item.public }
}

pub open spec fn exposing_header(e: Exposing) -> ExposingModel {
    match e {
        Exposing::All { public, .. } => ExposingModel::All { public },
        Exposing::Items(items) => ExposingModel::Items(
            items@.map_values(|i: ExposedItem| exposed_item_header(i)),
        ),
    }
}

pub open spec fn re_export_of(origin: Seq<char>, item: ExposedItem) -> ReExportModel {
    ReExportModel {
        surface_name: surface_of(item),
        origin_module: origin,
        origin_name: item.name@,
        visibility: HeaderVisibility::Public,
    }
}

/// The header of a program without declarations.
pub open spec fn empty_header() -> HeaderModel {
    HeaderModel {
        module_name: None,
        imports: Seq::empty(),
        functions: Seq::empty(),
        unannotated_functions: Seq::empty(),
        types: Seq::empty(),
        records: Seq::empty(),
        traits: Seq::empty(),
        effects: Seq::empty(),
        handlers: Seq::empty(),
        record_builders: Seq::empty(),
        re_exports: Seq::empty(),
        re_export_all: Seq::empty(),
    }
}

/// What an import hands on: all of a module, or the items marked so.
pub open spec fn with_re_exports(h: HeaderModel, origin: Seq<char>, e: Exposing) -> HeaderModel {
    match e {
        Exposing::All { public, .. } => if public {
            HeaderModel {
                re_export_all: h.re_export_all.push(
                    ReExportAllModel {
                        origin_module: origin,
                        visibility: HeaderVisibility::Public,
                    },
                ),
                ..h
            }
        } else {
            h
        },
        Exposing::Items(items) => HeaderModel {
            re_exports: h.re_exports + items@.filter(|i: ExposedItem| i.public).map_values(
                |i: ExposedItem| re_export_of(origin, i),
            ),
            ..h
        },
    }
}

/// The header with one more declaration.
pub open spec fn with_decl(h: HeaderModel, decl: Decl) -> HeaderModel {
    match decl {
        Decl::ModuleDecl { path, .. } => HeaderModel {
            module_name: Some(joined(path.deep_view(), "."@)),
            ..h
        },
        Decl::Import { module, alias, exposing, .. } => {
            let name = joined(module.deep_view(), "."@);
            let h1 = HeaderModel {
                imports: h.imports.push(
                    ImportModel {
                        module: name,
                        alias: alias.deep_view(),
                        exposing: match exposing {
                            Some(e) => Some(exposing_header(e)),
                            None => None,
                        },
                    },
                ),
                ..h
            };
            match exposing {
                Some(e) => with_re_exports(h1, name, e),
                None => h1,
            }
        },
        Decl::FunSignature {
            public,
            name,
            params,
            return_type,
            effects,
            effect_row_var,
            where_clause,
            ..
        } => HeaderModel {
            functions: put(
                h.functions,
                name@,
                FunctionModel {
                    public,
                    params: params_header(params),
                    return_type: type_expr_header(return_type),
                    effects: effect_refs_header(effects),
                    effect_row_vars: row_names(effect_row_var@),
                    where_clause: where_clause@.map_values(|b: TraitBound| trait_bound_header(b)),
                },
            ),
            ..h
        },
        Decl::FunBinding { name, .. } => HeaderModel {
            unannotated_functions: h.unannotated_functions.push(name@),
            ..h
        },
        Decl::TypeDef { public, opaque, name, type_params, variants, .. } => HeaderModel {
            types: put(
                h.types,
                name@,
                TypeDeclModel::Adt {
                    public,
                    opaque,
                    type_params: type_params_header(type_params@),
                    constructors: variants@.map_values(
                        |c: TypeConstructor| constructor_header(c),
                    ),
                },
            ),
            ..h
        },
        Decl::TypeAlias { public, name, type_params, body, .. } => HeaderModel {
            types: put(
                h.types,
                name@,
                TypeDeclModel::Alias {
                    public,
                    type_params: type_params_header(type_params@),
                    body: type_expr_header(body),
                },
            ),
            ..h
        },
        Decl::RecordDef { public, name, type_params, fields, .. } => HeaderModel {
            records: put(
                h.records,
                name@,
                RecordDeclModel {
                    public,
                    type_params: type_params_header(type_params@),
                    fields: params_header(fields),
                },
            ),
            ..h
        },
        Decl::RecordBuilderDef { public, context, start, field, .. } => HeaderModel {
            record_builders: put(
                h.record_builders,
                context@,
                RecordBuilderModel { public, context: context@, start: start@, field: field@ },
            ),
            ..h
        },
        Decl::TraitDef {
            public,
            name,
            type_params,
            functional_dependency,
            supertraits,
            methods,
            ..
        } => HeaderModel {
            traits: put(
                h.traits,
                name@,
                TraitDeclModel {
                    public,
                    type_params: type_params_header(type_params@),
                    is_functional: functional_dependency is Some,
                    supertraits: supertraits@.map_values(|t: TraitRef| trait_ref_header(t)),
                    methods: methods@.map_values(|m: TraitMethod| trait_method_header(m)),
                },
            ),
            ..h
        },
        Decl::EffectDef { public, name, type_params, operations, .. } => HeaderModel {
            effects: put(
                h.effects,
                name@,
                EffectDeclModel {
                    public,
                    type_params: type_params_header(type_params@),
                    operations: operations@.map_values(|op: EffectOp| effect_op_header(op)),
                },
            ),
            ..h
        },
        Decl::HandlerDef { public, name, body, .. } => HeaderModel {
            handlers: put(
                h.handlers,
                name@,
                HandlerDeclModel {
                    public,
                    effects: effect_refs_header(body.effects),
                    needs: effect_refs_header(body.needs),
                    where_clause: body.where_clause@.map_values(
                        |b: TraitBound| trait_bound_header(b),
                    ),
                },
            ),
            ..h
        },
        _ => h,
    }
}

/// The declarations of a program, one after the other.
pub open spec fn collected_header(program: Seq<Decl>) -> HeaderModel
    decreases program.len(),
{
    if program.len() == 0 {
        empty_header()
    } else {
        with_decl(collected_header(program.drop_last()), program.last())
    }
}

/// The functions that are bound without being annotated.
pub open spec fn unannotated(h: HeaderModel) -> Set<Seq<char>> {
    Set::new(|n: Seq<char>| h.unannotated_functions.contains(n) && !has_key(h.functions, n))
}

/// The header of a program: its declarations, and the functions without a
/// signature named once each, in order.
pub open spec fn header_of(program: Seq<Decl>) -> HeaderModel {
    let h = collected_header(program);
    HeaderModel { unannotated_functions: ordered(unannotated(h)), ..h }
}

fn header_type_expr(t: &TypeExpr) -> (r: HeaderTypeExpr)
    ensures
        r.deep_view() == type_expr_header(*t),
    decreases t,
{
    broadcast use group_header_models;

    match t {
        TypeExpr::Named { name, .. } => HeaderTypeExpr::Named(name.clone()),
        TypeExpr::Var { name, .. } => HeaderTypeExpr::Var(name.clone()),
        TypeExpr::App { func, arg, .. } => HeaderTypeExpr::App {
            func: Box::new(header_type_expr(func)),
            arg: Box::new(header_type_expr(arg)),
        },
        TypeExpr::Arrow { from, to, effects, effect_row_var, .. } => HeaderTypeExpr::Arrow {
            from: Box::new(header_type_expr(from)),
            to: Box::new(header_type_expr(to)),
            effects: header_effect_refs(effects),
            effect_row_vars: row_var_names(effect_row_var),
        },
        TypeExpr::Record { fields, .. } => HeaderTypeExpr::Record(header_params(fields)),
        TypeExpr::Labeled { label, inner, .. } => HeaderTypeExpr::Labeled {
            label: label.clone(),
            inner: Box::new(header_type_expr(inner)),
        },
        TypeExpr::Symbol { name, .. } => HeaderTypeExpr::Symbol(name.clone()),
    }
}

fn header_type_exprs(v: &Vec<TypeExpr>) -> (r: Vec<HeaderTypeExpr>)
    ensures
        r.deep_view() == type_exprs_header(*v),
    decreases v,
{
    let mut out: Vec<HeaderTypeExpr> = Vec::new();
    let mut i: usize = 0;
    while i < v.len()
        invariant
            i <= v.len(),
            out.len() == i,
            forall|j: int| 0 <= j < i ==> #[trigger] out.deep_view()[j] == type_expr_header(v@[j]),
        decreases v.len() - i,
    {
        push_value(&mut out, header_type_expr(&v[i]));
        i = i + 1;
    }
    assert(out.deep_view() =~= type_exprs_header(*v));
    out
}

fn header_params(v: &Vec<(String, TypeExpr)>) -> (r: Vec<(String, HeaderTypeExpr)>)
    ensures
        r.deep_view() == params_header(*v),
    decreases v,
{
    let mut out: Vec<(String, HeaderTypeExpr)> = Vec::new();
    let mut i: usize = 0;
    while i < v.len()
        invariant
            i <= v.len(),
            out.len() == i,
            forall|j: int| 0 <= j < i ==> #[trigger] out.deep_view()[j] == (
                v@[j].0@,
                type_expr_header(v@[j].1),
            ),
        decreases v.len() - i,
    {
        push_value(&mut out, (v[i].0.clone(), header_type_expr(&v[i].1)));
        i = i + 1;
    }
    assert(out.deep_view() =~= params_header(*v));
    out
}

fn header_effect_ref(e: &EffectRef) -> (r: HeaderEffectRef)
    ensures
        r.deep_view() == effect_ref_header(*e),
    decreases e,
{
    broadcast use group_header_models;

    HeaderEffectRef { name: e.name.clone(), type_args: header_type_exprs(&e.type_args) }
}

fn header_effect_refs(v: &Vec<EffectRef>) -> (r: Vec<HeaderEffectRef>)
    ensures
        r.deep_view() == effect_refs_header(*v),
    decreases v,
{
    let mut out: Vec<HeaderEffectRef> = Vec::new();
    let mut i: usize = 0;
    while i < v.len()
        invariant
            i <= v.len(),
            out.len() == i,
            forall|j: int| 0 <= j < i ==> #[trigger] out.deep_view()[j] == effect_ref_header(v@[j]),
        decreases v.len() - i,
    {
        push_value(&mut out, header_effect_ref(&v[i]));
        i = i + 1;
    }
    assert(out.deep_view() =~= effect_refs_header(*v));
    out
}

fn row_var_names(v: &Vec<(String, Span)>) -> (r: Vec<String>)
    ensures
        r.deep_view() == row_names(v@),
{
    let mut out: Vec<String> = Vec::new();
    let mut i: usize = 0;
    while i < v.len()
        invariant
            i <= v.len(),
            out.len() == i,
            forall|j: int| 0 <= j < i ==> #[trigger] out.deep_view()[j] == v@[j].0@,
        decreases v.len() - i,
    {
        push_value(&mut out, v[i].0.clone());
        i = i + 1;
    }
    assert(out.deep_view() =~= row_names(v@));
    out
}

fn header_trait_ref(t: &TraitRef) -> (r: HeaderTraitRef)
    ensures
        r.deep_view() == trait_ref_header(*t),
{
    HeaderTraitRef { name: t.name.clone(), type_args: header_type_exprs(&t.type_args) }
}

fn header_trait_refs(v: &Vec<TraitRef>) -> (r: Vec<HeaderTraitRef>)
    ensures
        r.deep_view() == v@.map_values(|x: TraitRef| trait_ref_header(x)),
{
    let mut out: Vec<HeaderTraitRef> = Vec::new();
    let mut i: usize = 0;
    while i < v.len()
        invariant
            i <= v.len(),
            out.len() == i,
            forall|j: int| 0 <= j < i ==> #[trigger] out.deep_view()[j] == trait_ref_header(v@[j]),
        decreases v.len() - i,
    {
        push_value(&mut out, header_trait_ref(&v[i]));
        i = i + 1;
    }
    assert(out.deep_view() =~= v@.map_values(|x: TraitRef| trait_ref_header(x)));
    out
}

fn header_trait_bound(b: &TraitBound) -> (r: HeaderTraitBound)
    ensures
        r.deep_view() == trait_bound_header(*b),
{
    HeaderTraitBound { type_var: b.type_var.clone(), traits: header_trait_refs(&b.traits) }
}

fn header_trait_bounds(v: &Vec<TraitBound>) -> (r: Vec<HeaderTraitBound>)
    ensures
        r.deep_view() == v@.map_values(|x: TraitBound| trait_bound_header(x)),
{
    let mut out: Vec<HeaderTraitBound> = Vec::new();
    let mut i: usize = 0;
    while i < v.len()
        invariant
            i <= v.len(),
            out.len() == i,
            forall|j: int|
                0 <= j < i ==> #[trigger] out.deep_view()[j] == trait_bound_header(v@[j]),
        decreases v.len() - i,
    {
        push_value(&mut out, header_trait_bound(&v[i]));
        i = i + 1;
    }
    assert(out.deep_view() =~= v@.map_values(|x: TraitBound| trait_bound_header(x)));
    out
}

fn header_type_params(v: &Vec<TypeParam>) -> (r: Vec<HeaderTypeParam>)
    ensures
        r.deep_view() == v@.map_values(|x: TypeParam| type_param_header(x)),
{
    let mut out: Vec<HeaderTypeParam> = Vec::new();
    let mut i: usize = 0;
    while i < v.len()
        invariant
            i <= v.len(),
            out.len() == i,
            forall|j: int| 0 <= j < i ==> #[trigger] out.deep_view()[j] == type_param_header(v@[j]),
        decreases v.len() - i,
    {
        push_value(&mut out, HeaderTypeParam { name: v[i].name.clone(), kind: v[i].kind });
        i = i + 1;
    }
    assert(out.deep_view() =~= v@.map_values(|x: TypeParam| type_param_header(x)));
    out
}

fn header_constructor_fields(v: &Vec<(Option<String>, TypeExpr)>) -> (r: Vec<HeaderConstructorField>)
    ensures
        r.deep_view() == v@.map_values(|x: (Option<String>, TypeExpr)| constructor_field_header(x)),
{
    let mut out: Vec<HeaderConstructorField> = Vec::new();
    let mut i: usize = 0;
    while i < v.len()
        invariant
            i <= v.len(),
            out.len() == i,
            forall|j: int|
                0 <= j < i ==> #[trigger] out.deep_view()[j] == constructor_field_header(v@[j]),
        decreases v.len() - i,
    {
        let field = HeaderConstructorField {
            label: v[i].0.dup(),
            ty: header_type_expr(&v[i].1),
        };
        push_value(&mut out, field);
        i = i + 1;
    }
    assert(out.deep_view() =~= v@.map_values(|x: (Option<String>, TypeExpr)| constructor_field_header(x)));
    out
}

fn header_constructors(v: &Vec<TypeConstructor>) -> (r: Vec<HeaderConstructor>)
    ensures
        r.deep_view() == v@.map_values(|x: TypeConstructor| constructor_header(x)),
{
    let mut out: Vec<HeaderConstructor> = Vec::new();
    let mut i: usize = 0;
    while i < v.len()
        invariant
            i <= v.len(),
            out.len() == i,
            forall|j: int|
                0 <= j < i ==> #[trigger] out.deep_view()[j] == constructor_header(v@[j]),
        decreases v.len() - i,
    {
        let c = HeaderConstructor {
            name: v[i].name.clone(),
            fields: header_constructor_fields(&v[i].fields),
        };
        push_value(&mut out, c);
        i = i + 1;
    }
    assert(out.deep_view() =~= v@.map_values(|x: TypeConstructor| constructor_header(x)));
    out
}

fn header_trait_methods(v: &Vec<TraitMethod>) -> (r: Vec<HeaderTraitMethod>)
    ensures
        r.deep_view() == v@.map_values(|x: TraitMethod| trait_method_header(x)),
{
    let mut out: Vec<HeaderTraitMethod> = Vec::new();
    let mut i: usize = 0;
    while i < v.len()
        invariant
            i <= v.len(),
            out.len() == i,
            forall|j: int|
                0 <= j < i ==> #[trigger] out.deep_view()[j] == trait_method_header(v@[j]),
        decreases v.len() - i,
    {
        let x = HeaderTraitMethod {
            name: v[i].name.clone(),
            params: header_params(&v[i].params),
            return_type: header_type_expr(&v[i].return_type),
            effects: header_effect_refs(&v[i].effects),
            effect_row_vars: row_var_names(&v[i].effect_row_var),
        };
        push_value(&mut out, x);
        i = i + 1;
    }
    assert(out.deep_view() =~= v@.map_values(|x: TraitMethod| trait_method_header(x)));
    out
}

fn header_effect_ops(v: &Vec<EffectOp>) -> (r: Vec<HeaderEffectOp>)
    ensures
        r.deep_view() == v@.map_values(|x: EffectOp| effect_op_header(x)),
{
    let mut out: Vec<HeaderEffectOp> = Vec::new();
    let mut i: usize = 0;
    while i < v.len()
        invariant
            i <= v.len(),
            out.len() == i,
            forall|j: int| 0 <= j < i ==> #[trigger] out.deep_view()[j] == effect_op_header(v@[j]),
        decreases v.len() - i,
    {
        let x = HeaderEffectOp {
            name: v[i].name.clone(),
            params: header_params(&v[i].params),
            return_type: header_type_expr(&v[i].return_type),
            effects: header_effect_refs(&v[i].effects),
            effect_row_vars: row_var_names(&v[i].effect_row_var),
        };
        push_value(&mut out, x);
        i = i + 1;
    }
    assert(out.deep_view() =~= v@.map_values(|x: EffectOp| effect_op_header(x)));
    out
}

fn header_exposed_items(v: &Vec<ExposedItem>) -> (r: Vec<HeaderExposedItem>)
    ensures
        r.deep_view() == v@.map_values(|x: ExposedItem| exposed_item_header(x)),
{
    let mut out: Vec<HeaderExposedItem> = Vec::new();
    let mut i: usize = 0;
    while i < v.len()
        invariant
            i <= v.len(),
            out.len() == i,
            forall|j: int|
                0 <= j < i ==> #[trigger] out.deep_view()[j] == exposed_item_header(v@[j]),
        decreases v.len() - i,
    {
        let x = HeaderExposedItem {
            name: v[i].name.clone(),
            alias: v[i].alias.dup(),
            public: v[i].public,
        };
        push_value(&mut out, x);
        i = i + 1;
    }
    assert(out.deep_view() =~= v@.map_values(|x: ExposedItem| exposed_item_header(x)));
    out
}

impl HeaderExposing {
    pub fn from_ast(exposing: &Exposing) -> (r: Self)
        ensures
            r.deep_view() == exposing_header(*exposing),
    {
        match exposing {
            Exposing::All { public, .. } => HeaderExposing::All { public: *public },
            Exposing::Items(items) => HeaderExposing::Items(header_exposed_items(items)),
        }
    }
}

/// The name under which an exposed item is visible.
pub open spec fn item_surface(item: ExposedItemModel) -> Seq<char> {
    match item.alias {
        Some(alias) => alias,
        None => item.name,
    }
}

impl HeaderExposedItem {
    pub fn surface_name(&self) -> (r: &String)
        ensures
            r@ == item_surface(self.deep_view()),
    {
        match &self.alias {
            Some(alias) => alias,
            None => &self.name,
        }
    }
}

impl HeaderTypeDecl {
    pub fn arity(&self) -> (r: usize)
        ensures
            r == self.deep_view().params().len(),
    {
        match self {
            HeaderTypeDecl::Adt { type_params, .. } => {
                assert(type_params.deep_view().len() == type_params.len());
                type_params.len()
            },
            HeaderTypeDecl::Alias { type_params, .. } => {
                assert(type_params.deep_view().len() == type_params.len());
                type_params.len()
            },
        }
    }

    pub fn public(&self) -> (r: bool)
        ensures
            r == self.deep_view().is_public(),
    {
        match self {
            HeaderTypeDecl::Adt { public, .. } => *public,
            HeaderTypeDecl::Alias { public, .. } => *public,
        }
    }
}

/// Adds what an import hands on.
fn collect_header_re_exports(header: &mut ModuleHeader, origin: &str, exposing: &Exposing)
    ensures
        final(header).deep_view() == with_re_exports(old(header).deep_view(), origin@, *exposing),
{
    match exposing {
        Exposing::All { public, .. } => {
            if *public {
                push_value(
                    &mut header.re_export_all,
                    HeaderReExportAll {
                        origin_module: origin.to_owned(),
                        visibility: HeaderVisibility::Public,
                    },
                );
            }
        },
        Exposing::Items(items) => {
            let ghost h0 = header.deep_view();
            let ghost keep = |i: ExposedItem| i.public;
            let ghost make = |i: ExposedItem| re_export_of(origin@, i);
            let mut i: usize = 0;
            proof {
                reveal(Seq::filter);
                assert(items@.take(0) =~= Seq::empty());
                assert(h0.re_exports + items@.take(0).filter(keep).map_values(make)
                    =~= h0.re_exports);
            }
            while i < items.len()
                invariant
                    i <= items.len(),
                    keep == (|i: ExposedItem| i.public),
                    make == (|i: ExposedItem| re_export_of(origin@, i)),
                    header.deep_view() == (HeaderModel {
                        re_exports: h0.re_exports + items@.take(i as int).filter(keep).map_values(
                            make,
                        ),
                        ..h0
                    }),
                decreases items.len() - i,
            {
                let item = &items[i];
                let ghost done = items@.take(i as int);
                proof {
                    reveal(Seq::filter);
                    assert(items@.take(i + 1).drop_last() =~= done);
                    assert(items@.take(i + 1).last() == items@[i as int]);
                    if item.public {
                        assert(done.filter(keep).push(*item).map_values(make)
                            =~= done.filter(keep).map_values(make).push(make(*item)));
                        assert(h0.re_exports + done.filter(keep).map_values(make).push(make(*item))
                            =~= (h0.re_exports + done.filter(keep).map_values(make)).push(
                            make(*item),
                        ));
                    }
                }
                if item.public {
                    let edge = HeaderReExport {
                        surface_name: item.surface_name().clone(),
                        origin_module: origin.to_owned(),
                        origin_name: item.name.clone(),
                        visibility: HeaderVisibility::Public,
                    };
                    push_value(&mut header.re_exports, edge);
                }
                i = i + 1;
            }
            assert(items@.take(i as int) =~= items@);
        },
    }
}

impl ModuleHeader {
    /// The header without declarations.
    pub fn new() -> (r: Self)
        ensures
            r.deep_view() == empty_header(),
    {
        let r = ModuleHeader {
            module_name: None,
            imports: Vec::new(),
            functions: Table::new(),
            unannotated_functions: Vec::new(),
            types: Table::new(),
            records: Table::new(),
            traits: Table::new(),
            effects: Table::new(),
            handlers: Table::new(),
            record_builders: Table::new(),
            re_exports: Vec::new(),
            re_export_all: Vec::new(),
        };
        assert(r.imports.deep_view() =~= Seq::empty());
        assert(r.unannotated_functions.deep_view() =~= Seq::empty());
        assert(r.re_exports.deep_view() =~= Seq::empty());
        assert(r.re_export_all.deep_view() =~= Seq::empty());
        r
    }

    /// Adds one declaration.
    #[verifier::rlimit(30)]
    fn add_decl(&mut self, decl: &Decl)
        ensures
            final(self).deep_view() == with_decl(old(self).deep_view(), *decl),
    {
        match decl {
            Decl::ModuleDecl { path, .. } => {
                self.module_name = Some(join_text(path, "."));
            },
            Decl::Import { module, alias, exposing, .. } => {
                let name = join_text(module, ".");
                let import = HeaderImport {
                    module: name.clone(),
                    alias: alias.dup(),
                    exposing: match exposing {
                        Some(e) => Some(HeaderExposing::from_ast(e)),
                        None => None,
                    },
                };
                push_value(&mut self.imports, import);
                if let Some(e) = exposing {
                    collect_header_re_exports(self, name.as_str(), e);
                }
            },
            Decl::FunSignature {
                public,
                name,
                params,
                return_type,
                effects,
                effect_row_var,
                where_clause,
                ..
            } => {
                let function = HeaderFunction {
                    public: *public,
                    params: header_params(params),
                    return_type: header_type_expr(return_type),
                    effects: header_effect_refs(effects),
                    effect_row_vars: row_var_names(effect_row_var),
                    where_clause: header_trait_bounds(where_clause),
                };
                self.functions.insert(name.clone(), function);
            },
            Decl::FunBinding { name, .. } => {
                push_value(&mut self.unannotated_functions, name.clone());
            },
            Decl::TypeDef { public, opaque, name, type_params, variants, .. } => {
                let adt = HeaderTypeDecl::Adt {
                    public: *public,
                    opaque: *opaque,
                    type_params: header_type_params(type_params),
                    constructors: header_constructors(variants),
                };
                self.types.insert(name.clone(), adt);
            },
            Decl::TypeAlias { public, name, type_params, body, .. } => {
                let alias = HeaderTypeDecl::Alias {
                    public: *public,
                    type_params: header_type_params(type_params),
                    body: header_type_expr(body),
                };
                self.types.insert(name.clone(), alias);
            },
            Decl::RecordDef { public, name, type_params, fields, .. } => {
                let record = HeaderRecordDecl {
                    public: *public,
                    type_params: header_type_params(type_params),
                    fields: header_params(fields),
                };
                self.records.insert(name.clone(), record);
            },
            Decl::RecordBuilderDef { public, context, start, field, .. } => {
                let builder = HeaderRecordBuilder {
                    public: *public,
                    context: context.clone(),
                    start: start.clone(),
                    field: field.clone(),
                };
                self.record_builders.insert(context.clone(), builder);
            },
            Decl::TraitDef {
                public,
                name,
                type_params,
                functional_dependency,
                supertraits,
                methods,
                ..
            } => {
                let decl = HeaderTraitDecl {
                    public: *public,
                    type_params: header_type_params(type_params),
                    is_functional: functional_dependency.is_some(),
                    supertraits: header_trait_refs(supertraits),
                    methods: header_trait_methods(methods),
                };
                self.traits.insert(name.clone(), decl);
            },
            Decl::EffectDef { public, name, type_params, operations, .. } => {
                let effect = HeaderEffectDecl {
                    public: *public,
                    type_params: header_type_params(type_params),
                    operations: header_effect_ops(operations),
                };
                self.effects.insert(name.clone(), effect);
            },
            Decl::HandlerDef { public, name, body, .. } => {
                let handler = HeaderHandlerDecl {
                    public: *public,
                    effects: header_effect_refs(&body.effects),
                    needs: header_effect_refs(&body.needs),
                    where_clause: header_trait_bounds(&body.where_clause),
                };
                self.handlers.insert(name.clone(), handler);
            },
            _ => {},
        }
    }

    /// Reads the header off a program.
    pub fn from_program(program: &Vec<Decl>) -> (r: Self)
        ensures
            r.deep_view() == header_of(program@),
    {
        let mut header = ModuleHeader::new();
        let mut i: usize = 0;
        assert(program@.take(0) =~= Seq::empty());
        while i < program.len()
            invariant
                i <= program.len(),
                header.deep_view() == collected_header(program@.take(i as int)),
            decreases program.len() - i,
        {
            proof {
                assert(program@.take(i + 1).drop_last() =~= program@.take(i as int));
                assert(program@.take(i + 1).last() == program@[i as int]);
            }
            header.add_decl(&program[i]);
            i = i + 1;
        }
        assert(program@.take(i as int) =~= program@);
        let names = header.names_without_signature();
        proof {
            ordered_is(names.deep_view(), unannotated(header.deep_view()));
        }
        header.unannotated_functions = names;
        header
    }

    /// The names of the functions bound without a signature, once each and in
    /// order.
    fn names_without_signature(&self) -> (r: Vec<String>)
        ensures
            lists_in_order(r.deep_view(), unannotated(self.deep_view())),
    {
        let ghost h = self.deep_view();
        let mut out: Vec<String> = Vec::new();
        let ghost mut s = Set::<Seq<char>>::empty();
        let mut i: usize = 0;
        proof {
            assert(out.deep_view() =~= Seq::empty());
            assert(lists_in_order(out.deep_view(), s));
        }
        while i < self.unannotated_functions.len()
            invariant
                i <= self.unannotated_functions.len(),
                h == self.deep_view(),
                lists_in_order(out.deep_view(), s),
                forall|n: Seq<char>| #[trigger]
                    s.contains(n) <==> h.unannotated_functions.take(i as int).contains(n)
                        && !has_key(h.functions, n),
            decreases self.unannotated_functions.len() - i,
        {
            let name = &self.unannotated_functions[i];
            let ghost before = h.unannotated_functions.take(i as int);
            let ghost s0 = s;
            if !self.functions.contains_key(name) {
                insert_in_order(&mut out, name.clone());
                proof {
                    s = s.insert(name@);
                }
            }
            proof {
                assert(h.unannotated_functions.take(i + 1) =~= before.push(name@));
                assert forall|n: Seq<char>| #[trigger]
                    s.contains(n) <==> h.unannotated_functions.take(i + 1).contains(n) && !has_key(
                        h.functions,
                        n,
                    ) by {
                    crate::seqs::push_contains(before, name@, n);
                    assert(s0.contains(n) <==> before.contains(n) && !has_key(h.functions, n));
                }
            }
            i = i + 1;
        }
        proof {
            assert(h.unannotated_functions.take(i as int) =~= h.unannotated_functions);
            assert(s =~= unannotated(h));
        }
        out
    }

    /// The public types with their names, in the order of their declaration.
    pub fn public_type_names(&self) -> (r: Vec<(String, HeaderTypeDecl)>)
        ensures
            r.deep_view() == self.deep_view().types.filter(
                |t: (Seq<char>, TypeDeclModel)| t.1.is_public(),
            ),
    {
        let ghost types = self.deep_view().types;
        let ghost keep = |t: (Seq<char>, TypeDeclModel)| t.1.is_public();
        let n = self.types.len();
        let mut out: Vec<(String, HeaderTypeDecl)> = Vec::new();
        let mut i: usize = 0;
        proof {
            reveal(Seq::filter);
            assert(types.take(0) =~= Seq::empty());
            assert(out.deep_view() =~= types.take(0).filter(keep));
        }
        while i < n
            invariant
                i <= n,
                n == types.len(),
                types == self.types.order(),
                keep == (|t: (Seq<char>, TypeDeclModel)| t.1.is_public()),
                out.deep_view() == types.take(i as int).filter(keep),
            decreases n - i,
        {
            let decl = self.types.value(i);
            proof {
                reveal(Seq::filter);
                assert(types.take(i + 1).drop_last() =~= types.take(i as int));
                assert(types.take(i + 1).last() == types[i as int]);
            }
            if decl.public() {
                let entry = (self.types.key(i).clone(), decl.dup());
                assert(entry.deep_view() == types[i as int]);
                push_value(&mut out, entry);
            }
            i = i + 1;
        }
        assert(types.take(i as int) =~= types);
        out
    }

    /// The modules that are imported, once each and in order.
    pub fn import_modules(&self) -> (r: Vec<String>)
        ensures
            r.deep_view() == imported_modules(self.deep_view()),
    {
        let ghost h = self.deep_view();
        let ghost all = h.imports.map_values(|i: ImportModel| i.module);
        let mut names: Vec<String> = Vec::new();
        let mut i: usize = 0;
        while i < self.imports.len()
            invariant
                i <= self.imports.len(),
                h == self.deep_view(),
                names.len() == i,
                forall|j: int|
                    0 <= j < i ==> #[trigger] names.deep_view()[j] == h.imports[j].module,
            decreases self.imports.len() - i,
        {
            push_value(&mut names, self.imports[i].module.clone());
            i = i + 1;
        }
        assert(names.deep_view() =~= all);
        let r = ordered_set(&names);
        proof {
            ordered_is(r.deep_view(), all.to_set());
        }
        r
    }
}

/// The modules that a header imports.
pub open spec fn imported_modules(h: HeaderModel) -> Seq<Seq<char>> {
    ordered(h.imports.map_values(|i: ImportModel| i.module).to_set())
}

/// The modules that a program imports.
pub open spec fn program_imports(program: Seq<Decl>) -> Seq<Seq<char>>
    decreases program.len(),
{
    if program.len() == 0 {
        Seq::empty()
    } else {
        match program.last() {
            Decl::Import { module, .. } => program_imports(program.drop_last()).push(
                joined(module.deep_view(), "."@),
            ),
            _ => program_imports(program.drop_last()),
        }
    }
}

/// The modules that a program imports, once each and in order.
pub fn import_modules_for_program(program: &Vec<Decl>) -> (r: Vec<String>)
    ensures
        r.deep_view() == ordered(program_imports(program@).to_set()),
{
    let mut names: Vec<String> = Vec::new();
    let mut i: usize = 0;
    assert(program@.take(0) =~= Seq::empty());
    assert(names.deep_view() =~= Seq::empty());
    while i < program.len()
        invariant
            i <= program.len(),
            names.deep_view() == program_imports(program@.take(i as int)),
        decreases program.len() - i,
    {
        proof {
            assert(program@.take(i + 1).drop_last() =~= program@.take(i as int));
            assert(program@.take(i + 1).last() == program@[i as int]);
        }
        if let Decl::Import { module, .. } = &program[i] {
            push_value(&mut names, join_text(module, "."));
        }
        i = i + 1;
    }
    assert(program@.take(i as int) =~= program@);
    let r = ordered_set(&names);
    proof {
        ordered_is(r.deep_view(), program_imports(program@).to_set());
    }
    r
}

/// A header imports what its program imports.
pub proof fn header_keeps_imports(program: Seq<Decl>)
    ensures
        imported_modules(header_of(program)) == ordered(program_imports(program).to_set()),
{
    collected_header_imports(program);
}

proof fn collected_header_imports(program: Seq<Decl>)
    ensures
        collected_header(program).imports.map_values(|i: ImportModel| i.module) == program_imports(
            program,
        ),
    decreases program.len(),
{
    let f = |i: ImportModel| i.module;
    if program.len() > 0 {
        collected_header_imports(program.drop_last());
        let before = collected_header(program.drop_last());
        let after = collected_header(program);
        match program.last() {
            Decl::Import { .. } => {
                assert(after.imports.drop_last() =~= before.imports);
                assert(after.imports.map_values(f) =~= before.imports.map_values(f).push(
                    after.imports.last().module,
                ));
            },
            _ => {
                assert(after.imports == before.imports);
            },
        }
    } else {
        assert(collected_header(program).imports.map_values(f) =~= program_imports(program));
    }
}

/// A written type keeps its shape in a header: each part stands in its place.
pub proof fn written_types_keep_their_shape(t: TypeExpr)
    ensures
        match t {
            TypeExpr::Named { name, .. } => type_expr_header(t) == HeaderTy::Named(name@),
            TypeExpr::Var { name, .. } => type_expr_header(t) == HeaderTy::Var(name@),
            TypeExpr::App { func, arg, .. } => type_expr_header(t) matches HeaderTy::App {
                func: f,
                arg: a,
            } && *f == type_expr_header(*func) && *a == type_expr_header(*arg),
            TypeExpr::Arrow { from, to, effects, effect_row_var, .. } => {
                &&& type_expr_header(t) matches HeaderTy::Arrow {
                    from: f,
                    to: r,
                    effects: es,
                    effect_row_vars: vs,
                }
                &&& *f == type_expr_header(*from)
                &&& *r == type_expr_header(*to)
                &&& es.len() == effects@.len()
                &&& forall|i: int| 0 <= i < es.len() ==> (#[trigger] es[i]).name == effects@[i].name@
                &&& vs.len() == effect_row_var@.len()
                &&& forall|i: int| 0 <= i < vs.len() ==> #[trigger] vs[i] == effect_row_var@[i].0@
            },
            TypeExpr::Record { fields, .. } => {
                &&& type_expr_header(t) matches HeaderTy::Record(fs)
                &&& fs.len() == fields@.len()
                &&& forall|i: int|
                    0 <= i < fs.len() ==> (#[trigger] fs[i]).0 == fields@[i].0@ && fs[i].1
                        == type_expr_header(fields@[i].1)
            },
            TypeExpr::Labeled { inner, .. } => type_expr_header(t) matches HeaderTy::Labeled {
                inner: i,
                ..
            } && *i == type_expr_header(*inner),
            TypeExpr::Symbol { name, .. } => type_expr_header(t) == HeaderTy::Symbol(name@),
        },
{
    match t {
        TypeExpr::Arrow { effects, effect_row_var, .. } => {
            assert(type_expr_header(t)->Arrow_effects == effect_refs_header(effects));
            let es = effect_refs_header(effects);
            assert forall|i: int| 0 <= i < es.len() implies (#[trigger] es[i]).name
                == effects@[i].name@ by {
                assert(es[i] == effect_ref_header(effects@[i]));
            }
        },
        TypeExpr::Record { fields, .. } => {
            assert(type_expr_header(t)->Record_0 == params_header(fields));
        },
        _ => {},
    }
}

/// Whether a header tells of a declaration what is written there.
pub open spec fn tells(h: HeaderModel, decl: Decl) -> bool {
    match decl {
        Decl::FunSignature { public, name, params, return_type, effects, where_clause, .. } => {
            let f = at_key(h.functions, name@)->0;
            &&& at_key(h.functions, name@) is Some
            &&& f.public == public
            &&& f.return_type == type_expr_header(return_type)
            &&& f.params.len() == params@.len()
            &&& forall|i: int|
                0 <= i < f.params.len() ==> (#[trigger] f.params[i]).0 == params@[i].0@
                    && f.params[i].1 == type_expr_header(params@[i].1)
            &&& f.effects.len() == effects@.len()
            &&& forall|i: int|
                0 <= i < f.effects.len() ==> (#[trigger] f.effects[i]).name == effects@[i].name@
            &&& f.where_clause.len() == where_clause@.len()
            &&& forall|i: int|
                0 <= i < f.where_clause.len() ==> (#[trigger] f.where_clause[i]).type_var
                    == where_clause@[i].type_var@
        },
        Decl::TypeDef { public, opaque, name, type_params, variants, .. } => {
            &&& at_key(h.types, name@) matches Some(TypeDeclModel::Adt {
                public: p,
                opaque: o,
                type_params: ps,
                constructors,
            })
            &&& p == public
            &&& o == opaque
            &&& ps.len() == type_params@.len()
            &&& constructors.len() == variants@.len()
            &&& forall|i: int|
                0 <= i < constructors.len() ==> (#[trigger] constructors[i]).name
                    == variants@[i].name@ && constructors[i].fields.len()
                    == variants@[i].fields@.len()
        },
        Decl::TypeAlias { public, name, type_params, body, .. } => {
            &&& at_key(h.types, name@) matches Some(TypeDeclModel::Alias {
                public: p,
                type_params: ps,
                body: b,
            })
            &&& p == public
            &&& ps.len() == type_params@.len()
            &&& b == type_expr_header(body)
        },
        Decl::RecordDef { public, name, type_params, fields, .. } => {
            let r = at_key(h.records, name@)->0;
            &&& at_key(h.records, name@) is Some
            &&& r.public == public
            &&& r.type_params.len() == type_params@.len()
            &&& r.fields.len() == fields@.len()
            &&& forall|i: int|
                0 <= i < r.fields.len() ==> (#[trigger] r.fields[i]).0 == fields@[i].0@
                    && r.fields[i].1 == type_expr_header(fields@[i].1)
        },
        Decl::TraitDef { public, name, type_params, supertraits, methods, .. } => {
            let t = at_key(h.traits, name@)->0;
            &&& at_key(h.traits, name@) is Some
            &&& t.public == public
            &&& t.type_params.len() == type_params@.len()
            &&& t.supertraits.len() == supertraits@.len()
            &&& forall|i: int|
                0 <= i < t.supertraits.len() ==> (#[trigger] t.supertraits[i]).name
                    == supertraits@[i].name@
            &&& t.methods.len() == methods@.len()
            &&& forall|i: int|
                0 <= i < t.methods.len() ==> (#[trigger] t.methods[i]).name == methods@[i].name@
                    && t.methods[i].return_type == type_expr_header(methods@[i].return_type)
                    && t.methods[i].params.len() == methods@[i].params@.len()
        },
        Decl::EffectDef { public, name, type_params, operations, .. } => {
            let e = at_key(h.effects, name@)->0;
            &&& at_key(h.effects, name@) is Some
            &&& e.public == public
            &&& e.type_params.len() == type_params@.len()
            &&& e.operations.len() == operations@.len()
            &&& forall|i: int|
                0 <= i < e.operations.len() ==> (#[trigger] e.operations[i]).name
                    == operations@[i].name@ && e.operations[i].return_type == type_expr_header(
                    operations@[i].return_type,
                ) && e.operations[i].params.len() == operations@[i].params@.len()
        },
        Decl::HandlerDef { public, name, body, .. } => {
            let d = at_key(h.handlers, name@)->0;
            &&& at_key(h.handlers, name@) is Some
            &&& d.public == public
            &&& d.effects.len() == body.effects@.len()
            &&& forall|i: int|
                0 <= i < d.effects.len() ==> (#[trigger] d.effects[i]).name
                    == body.effects@[i].name@
            &&& d.needs.len() == body.needs@.len()
            &&& forall|i: int|
                0 <= i < d.needs.len() ==> (#[trigger] d.needs[i]).name == body.needs@[i].name@
        },
        _ => true,
    }
}

/// Whether a declaration takes the place of an earlier one: it is of the same kind, and
/// has its name.
pub open spec fn takes_the_place(later: Decl, decl: Decl) -> bool {
    match (later, decl) {
        (
            Decl::FunSignature { name: a, .. },
            Decl::FunSignature { name: b, .. },
        ) => a@ == b@,
        (Decl::TypeDef { name: a, .. }, Decl::TypeDef { name: b, .. }) => a@ == b@,
        (Decl::TypeDef { name: a, .. }, Decl::TypeAlias { name: b, .. }) => a@ == b@,
        (Decl::TypeAlias { name: a, .. }, Decl::TypeDef { name: b, .. }) => a@ == b@,
        (Decl::TypeAlias { name: a, .. }, Decl::TypeAlias { name: b, .. }) => a@ == b@,
        (Decl::RecordDef { name: a, .. }, Decl::RecordDef { name: b, .. }) => a@ == b@,
        (Decl::TraitDef { name: a, .. }, Decl::TraitDef { name: b, .. }) => a@ == b@,
        (Decl::EffectDef { name: a, .. }, Decl::EffectDef { name: b, .. }) => a@ == b@,
        (Decl::HandlerDef { name: a, .. }, Decl::HandlerDef { name: b, .. }) => a@ == b@,
        _ => false,
    }
}

spec fn header_is_listed_once(h: HeaderModel) -> bool {
    &&& distinct_keys(h.functions)
    &&& distinct_keys(h.types)
    &&& distinct_keys(h.records)
    &&& distinct_keys(h.traits)
    &&& distinct_keys(h.effects)
    &&& distinct_keys(h.handlers)
}

proof fn refs_keep_names(v: Vec<EffectRef>)
    ensures
        effect_refs_header(v).len() == v@.len(),
        forall|i: int|
            0 <= i < v@.len() ==> (#[trigger] effect_refs_header(v)[i]).name == v@[i].name@,
{
    assert forall|i: int| 0 <= i < v@.len() implies (#[trigger] effect_refs_header(v)[i]).name
        == v@[i].name@ by {
        assert(effect_refs_header(v)[i] == effect_ref_header(v@[i]));
    }
}

proof fn decl_is_told(h: HeaderModel, decl: Decl)
    requires
        header_is_listed_once(h),
    ensures
        header_is_listed_once(with_decl(h, decl)),
        tells(with_decl(h, decl), decl),
{
    let after = with_decl(h, decl);
    match decl {
        Decl::FunSignature { name, effects, .. } => {
            refs_keep_names(effects);
            let f = choose|f: FunctionModel| after.functions == #[trigger] put(
                h.functions,
                name@,
                f,
            );
            put_then_get(h.functions, name@, f, name@);
        },
        Decl::TypeDef { name, .. } => {
            let t = choose|t: TypeDeclModel| after.types == #[trigger] put(h.types, name@, t);
            put_then_get(h.types, name@, t, name@);
        },
        Decl::TypeAlias { name, .. } => {
            let t = choose|t: TypeDeclModel| after.types == #[trigger] put(h.types, name@, t);
            put_then_get(h.types, name@, t, name@);
        },
        Decl::RecordDef { name, .. } => {
            let t = choose|t: RecordDeclModel| after.records == #[trigger] put(h.records, name@, t);
            put_then_get(h.records, name@, t, name@);
        },
        Decl::TraitDef { name, .. } => {
            let t = choose|t: TraitDeclModel| after.traits == #[trigger] put(h.traits, name@, t);
            put_then_get(h.traits, name@, t, name@);
        },
        Decl::EffectDef { name, .. } => {
            let t = choose|t: EffectDeclModel| after.effects == #[trigger] put(h.effects, name@, t);
            put_then_get(h.effects, name@, t, name@);
        },
        Decl::HandlerDef { name, body, .. } => {
            refs_keep_names(body.effects);
            refs_keep_names(body.needs);
            let t = choose|t: HandlerDeclModel| after.handlers == #[trigger] put(
                h.handlers,
                name@,
                t,
            );
            put_then_get(h.handlers, name@, t, name@);
        },
        _ => {},
    }
}

proof fn other_decls_stay(h: HeaderModel, later: Decl, decl: Decl)
    requires
        header_is_listed_once(h),
        tells(h, decl),
        !takes_the_place(later, decl),
    ensures
        tells(with_decl(h, later), decl),
{
    let after = with_decl(h, later);
    match (later, decl) {
        (Decl::FunSignature { name: a, .. }, Decl::FunSignature { name: b, .. }) => {
            let v = choose|v: FunctionModel| after.functions == #[trigger] put(h.functions, a@, v);
            put_then_get(h.functions, a@, v, b@);
        },
        (Decl::TypeDef { name: a, .. }, Decl::TypeDef { name: b, .. }) => {
            let v = choose|v: TypeDeclModel| after.types == #[trigger] put(h.types, a@, v);
            put_then_get(h.types, a@, v, b@);
        },
        (Decl::TypeDef { name: a, .. }, Decl::TypeAlias { name: b, .. }) => {
            let v = choose|v: TypeDeclModel| after.types == #[trigger] put(h.types, a@, v);
            put_then_get(h.types, a@, v, b@);
        },
        (Decl::TypeAlias { name: a, .. }, Decl::TypeDef { name: b, .. }) => {
            let v = choose|v: TypeDeclModel| after.types == #[trigger] put(h.types, a@, v);
            put_then_get(h.types, a@, v, b@);
        },
        (Decl::TypeAlias { name: a, .. }, Decl::TypeAlias { name: b, .. }) => {
            let v = choose|v: TypeDeclModel| after.types == #[trigger] put(h.types, a@, v);
            put_then_get(h.types, a@, v, b@);
        },
        (Decl::RecordDef { name: a, .. }, Decl::RecordDef { name: b, .. }) => {
            let v = choose|v: RecordDeclModel| after.records == #[trigger] put(h.records, a@, v);
            put_then_get(h.records, a@, v, b@);
        },
        (Decl::TraitDef { name: a, .. }, Decl::TraitDef { name: b, .. }) => {
            let v = choose|v: TraitDeclModel| after.traits == #[trigger] put(h.traits, a@, v);
            put_then_get(h.traits, a@, v, b@);
        },
        (Decl::EffectDef { name: a, .. }, Decl::EffectDef { name: b, .. }) => {
            let v = choose|v: EffectDeclModel| after.effects == #[trigger] put(h.effects, a@, v);
            put_then_get(h.effects, a@, v, b@);
        },
        (Decl::HandlerDef { name: a, .. }, Decl::HandlerDef { name: b, .. }) => {
            let v = choose|v: HandlerDeclModel| after.handlers == #[trigger] put(h.handlers, a@, v);
            put_then_get(h.handlers, a@, v, b@);
        },
        _ => {},
    }
}

proof fn collected_decls_are_told(program: Seq<Decl>, i: int)
    requires
        0 <= i < program.len(),
        forall|j: int|
            i < j < program.len() ==> !takes_the_place(#[trigger] program[j], program[i]),
    ensures
        tells(collected_header(program), program[i]),
    decreases program.len(),
{
    let init = program.drop_last();
    collected_is_listed_once(init);
    let before = collected_header(init);
    if i < init.len() {
        assert(init[i] == program[i]);
        assert forall|j: int| i < j < init.len() implies !takes_the_place(
            #[trigger] init[j],
            init[i],
        ) by {
            assert(init[j] == program[j]);
        }
        collected_decls_are_told(init, i);
        assert(!takes_the_place(program[program.len() - 1], program[i]));
        other_decls_stay(before, program.last(), program[i]);
    } else {
        decl_is_told(before, program.last());
    }
}

proof fn collected_is_listed_once(program: Seq<Decl>)
    ensures
        header_is_listed_once(collected_header(program)),
    decreases program.len(),
{
    if program.len() > 0 {
        collected_is_listed_once(program.drop_last());
        decl_is_told(collected_header(program.drop_last()), program.last());
    }
}

/// A header tells of each declaration of its program what is written there, unless a
/// later one of the same kind has its name.
pub proof fn headers_tell_their_declarations(program: Seq<Decl>, i: int)
    requires
        0 <= i < program.len(),
        forall|j: int|
            i < j < program.len() ==> !takes_the_place(#[trigger] program[j], program[i]),
    ensures
        tells(header_of(program), program[i]),
{
    collected_decls_are_told(program, i);
}

} // verus!
