//! Registering types, records and type aliases.

use vstd::prelude::*;
use crate::ast::{Decl, EffectRef, Kind, NodeId, TypeExpr, TypeParam};
use crate::checker::{local_name, Checker, CheckerModel, LspModel};
use crate::diagnostics::{an_error_at, Diag, Diagnostic};
use crate::infos::{RecordInfo, RecordModel};
use crate::names::bare_type_name;
use crate::reachability::{edge, edge_at, is_path, Adjacency};
use crate::schemes::{AliasModel, Scheme, SchemeModel, TypeAliasInfo};
use crate::scope::{lookup, ScopeMap};
use crate::seqs::{add_new, add_new_in_turn, add_new_one, push_contains, push_new};
use crate::table::{at_key, distinct_keys, lists, put, put_then_get, Table};
use crate::text::{concat3, concat4, concat5, join_text, joined, last_segment, text_eq};
use crate::token::Span;
use crate::type_ops::arrow_ty;
use crate::types::{Ty, Type, group_type_models};
use crate::values::{contains_value, push_value, Dup, Same};

verus! {

/// A constructor of a type, its fields converted.
#[derive(Debug)]
pub struct TypedVariant {
    pub name: String,
    pub fields: Vec<Type>,
    pub id: NodeId,
    pub span: Span,
}

#[verifier::ext_equal]
pub struct VariantModel {
    pub name: Seq<char>,
    pub fields: Seq<Ty>,
    pub id: NodeId,
    pub span: Span,
}

impl DeepView for TypedVariant {
    type V = VariantModel;

    open spec fn deep_view(&self) -> VariantModel {
        VariantModel {
            name: self.name.deep_view(),
            fields: self.fields.deep_view(),
            id: self.id.deep_view(),
            span: self.span.deep_view(),
        }
    }
}

impl Dup for TypedVariant {
    fn dup(&self) -> (r: Self) {
        TypedVariant {
            name: self.name.dup(),
            fields: self.fields.dup(),
            id: self.id.dup(),
            span: self.span.dup(),
        }
    }
}

/// Type parameters with the variables that stand for them.
pub open spec fn param_var_list(params: Seq<TypeParam>, next: int) -> Seq<(Seq<char>, u32)> {
    Seq::new(params.len(), |i: int| (params[i].name@, (next + i) as u32))
}

impl Checker {
    /// Fresh variables for type parameters.
    pub fn fresh_param_vars(&mut self, type_params: &Vec<TypeParam>) -> (r: Vec<(String, u32)>)
        requires
            old(self).next_var + type_params.len() <= u32::MAX,
        ensures
            r.deep_view() == param_var_list(type_params@, old(self).next_var as int),
            final(self).deep_view() == (CheckerModel {
                next_var: (old(self).next_var + type_params.len()) as u32,
                ..old(self).deep_view()
            }),
    {
        let ghost c0 = self.deep_view();
        let mut out: Vec<(String, u32)> = Vec::new();
        let mut i: usize = 0;
        while i < type_params.len()
            invariant
                i <= type_params.len(),
                c0.next_var + type_params.len() <= u32::MAX,
                self.next_var == c0.next_var + i,
                self.deep_view() == (CheckerModel { next_var: self.next_var, ..c0 }),
                out.len() == i,
                forall|j: int|
                    0 <= j < i ==> #[trigger] out.deep_view()[j] == (
                        type_params@[j].name@,
                        (c0.next_var + j) as u32,
                    ),
            decreases type_params.len() - i,
        {
            let id = self.fresh_var();
            push_value(&mut out, (type_params[i].name.clone(), id));
            i = i + 1;
        }
        assert(out.deep_view() =~= param_var_list(type_params@, c0.next_var as int));
        out
    }
}

/// The variables of a list of named variables.
pub open spec fn ids_of(vars: Seq<(Seq<char>, u32)>) -> Seq<u32> {
    vars.map_values(|v: (Seq<char>, u32)| v.1)
}

/// The variables of a list of named variables.
pub fn var_id_list(vars: &Vec<(String, u32)>) -> (r: Vec<u32>)
    ensures
        r@ == ids_of(vars.deep_view()),
{
    let mut out: Vec<u32> = Vec::new();
    let mut i: usize = 0;
    while i < vars.len()
        invariant
            i <= vars.len(),
            out.len() == i,
            forall|j: int| 0 <= j < i ==> #[trigger] out@[j] == vars.deep_view()[j].1,
        decreases vars.len() - i,
    {
        out.push(vars[i].1);
        i = i + 1;
    }
    assert(out@ =~= ids_of(vars.deep_view()));
    out
}

/// A named type applied to variables.
pub open spec fn con_of_vars(name: Seq<char>, ids: Seq<u32>) -> Ty {
    Ty::Con(name, ids.map_values(|id: u32| Ty::Var(id)))
}

/// A named type applied to variables.
pub fn con_type(name: &str, ids: &Vec<u32>) -> (r: Type)
    ensures
        r@ == con_of_vars(name@, ids@),
{
    broadcast use group_type_models;

    let mut args: Vec<Type> = Vec::new();
    let mut i: usize = 0;
    while i < ids.len()
        invariant
            i <= ids.len(),
            args.len() == i,
            forall|j: int| 0 <= j < i ==> #[trigger] args.deep_view()[j] == Ty::Var(ids@[j]),
        decreases ids.len() - i,
    {
        push_value(&mut args, Type::Var(ids[i]));
        i = i + 1;
    }
    let t = Type::Con(name.to_owned(), args);
    proof {
        crate::types::con_model(t->Con_0, t->Con_1);
        assert(args.deep_view() =~= ids@.map_values(|id: u32| Ty::Var(id)));
    }
    t
}

/// The type of a constructor: from its fields, one after the other, to the result.
pub open spec fn ctor_type(fields: Seq<Ty>, result: Ty) -> Ty
    decreases fields.len(),
{
    if fields.len() == 0 {
        result
    } else {
        ctor_type(fields.drop_last(), arrow_ty(fields.last(), result))
    }
}

pub fn build_ctor_type(fields: &Vec<Type>, result: Type) -> (r: Type)
    ensures
        r@ == ctor_type(fields.deep_view(), result@),
{
    let ghost all = fields.deep_view();
    let ghost result0 = result@;
    let mut ty = result;
    let mut n: usize = fields.len();
    assert(all.take(n as int) =~= all);
    while n > 0
        invariant
            n <= fields.len(),
            all == fields.deep_view(),
            ctor_type(all, result0) == ctor_type(all.take(n as int), ty@),
        decreases n,
    {
        n = n - 1;
        proof {
            assert(all.take(n + 1).drop_last() =~= all.take(n as int));
            assert(all.take(n + 1).last() == fields@[n as int]@);
        }
        ty = Type::arrow(fields[n].dup(), ty);
    }
    ty
}

/// A constructor of a type under its canonical and its bare name.
pub open spec fn with_ctor(
    forall_vars: Seq<u32>,
    result: Ty,
    c: CheckerModel,
    v: VariantModel,
) -> CheckerModel {
    let canonical = local_name(c.current_module, v.name);
    let scheme = SchemeModel {
        forall: forall_vars,
        constraints: Seq::empty(),
        ty: ctor_type(v.fields, result),
    };
    CheckerModel {
        constructors: put(put(c.constructors, canonical, scheme), v.name, scheme),
        lsp: LspModel {
            constructor_def_ids: put(
                put(c.lsp.constructor_def_ids, canonical, v.id),
                v.name,
                v.id,
            ),
            node_spans: put(c.lsp.node_spans, v.id, v.span),
            ..c.lsp
        },
        ..c
    }
}

pub open spec fn with_ctors(
    forall_vars: Seq<u32>,
    result: Ty,
    acc: CheckerModel,
    items: Seq<VariantModel>,
) -> CheckerModel
    decreases items.len(),
{
    if items.len() == 0 {
        acc
    } else {
        with_ctor(
            forall_vars,
            result,
            with_ctors(forall_vars, result, acc, items.drop_last()),
            items.last(),
        )
    }
}

/// A constructor with the number of its fields.
pub open spec fn variant_arity(current_module: Option<Seq<char>>, v: VariantModel) -> (
    Seq<char>,
    usize,
) {
    (local_name(current_module, v.name), v.fields.len() as usize)
}

/// The state with a type and its constructors registered.
pub open spec fn with_type_def(
    c: CheckerModel,
    name: Seq<char>,
    vars: Seq<(Seq<char>, u32)>,
    variants: Seq<VariantModel>,
) -> CheckerModel {
    let canonical = local_name(c.current_module, name);
    let c1 = with_ctors(ids_of(vars), con_of_vars(canonical, ids_of(vars)), c, variants);
    CheckerModel {
        adt_variants: put(
            c1.adt_variants,
            canonical,
            variants.map_values(|v: VariantModel| variant_arity(c.current_module, v)),
        ),
        type_arity: put(c1.type_arity, canonical, vars.len() as usize),
        ..c1
    }
}

proof fn ctors_keep_module(
    forall_vars: Seq<u32>,
    result: Ty,
    c: CheckerModel,
    variants: Seq<VariantModel>,
)
    ensures
        with_ctors(forall_vars, result, c, variants).current_module == c.current_module,
    decreases variants.len(),
{
    if variants.len() > 0 {
        ctors_keep_module(forall_vars, result, c, variants.drop_last());
    }
}

fn add_ctors(forall_vars: &Vec<u32>, result: &Type, acc: &mut Checker, items: &Vec<TypedVariant>)
    ensures
        final(acc).deep_view() == with_ctors(
            forall_vars@,
            result@,
            old(acc).deep_view(),
            items.deep_view(),
        ),
{
    let ghost a0 = acc.deep_view();
    let ghost all = items.deep_view();
    let mut i: usize = 0;
    assert(all.take(0) =~= Seq::empty());
    while i < items.len()
        invariant
            i <= items.len(),
            all == items.deep_view(),
            acc.deep_view() == with_ctors(forall_vars@, result@, a0, all.take(i as int)),
        decreases items.len() - i,
    {
        proof {
            assert(all.take(i + 1).drop_last() =~= all.take(i as int));
            assert(all.take(i + 1).last() == all[i as int]);
        }
        let v = &items[i];
        let canonical = acc.canonical_name(v.name.as_str());
        let constraints: Vec<(String, u32, Vec<Type>)> = Vec::new();
        let scheme = Scheme {
            forall: forall_vars.dup(),
            constraints,
            ty: build_ctor_type(&v.fields, result.dup()),
        };
        proof {
            assert(constraints.deep_view() =~= Seq::empty());
            assert(scheme.forall.deep_view() =~= forall_vars@);
        }
        acc.constructors.insert(canonical.clone(), scheme.dup());
        acc.constructors.insert(v.name.clone(), scheme);
        acc.lsp.constructor_def_ids.insert(canonical, v.id);
        acc.lsp.constructor_def_ids.insert(v.name.clone(), v.id);
        acc.lsp.node_spans.insert(v.id, v.span);
        i = i + 1;
    }
    assert(all.take(i as int) =~= all);
}

fn variant_arities(current_module: &Option<String>, v: &Vec<TypedVariant>) -> (r: Vec<
    (String, usize),
>)
    ensures
        r.deep_view() == v.deep_view().map_values(
            |x: VariantModel| variant_arity(current_module.deep_view(), x),
        ),
{
    let mut out: Vec<(String, usize)> = Vec::new();
    let mut i: usize = 0;
    while i < v.len()
        invariant
            i <= v.len(),
            out.len() == i,
            forall|j: int|
                0 <= j < i ==> #[trigger] out.deep_view()[j] == variant_arity(
                    current_module.deep_view(),
                    v.deep_view()[j],
                ),
        decreases v.len() - i,
    {
        let canonical = match current_module {
            Some(module) => crate::text::dot_join(module.as_str(), v[i].name.as_str()),
            None => v[i].name.clone(),
        };
        assert(v[i as int].fields.deep_view().len() == v[i as int].fields.len());
        push_value(&mut out, (canonical, v[i].fields.len()));
        i = i + 1;
    }
    assert(out.deep_view() =~= v.deep_view().map_values(
        |x: VariantModel| variant_arity(current_module.deep_view(), x),
    ));
    out
}

impl Checker {
    /// Registers a type and its constructors. `param_vars` are the variables of its
    /// parameters.
    pub fn register_type_def(
        &mut self,
        name: &str,
        param_vars: &Vec<(String, u32)>,
        variants: &Vec<TypedVariant>,
    )
        ensures
            final(self).deep_view() == with_type_def(
                old(self).deep_view(),
                name@,
                param_vars.deep_view(),
                variants.deep_view(),
            ),
    {
        let ghost c0 = self.deep_view();
        let canonical = self.canonical_name(name);
        let ids = var_id_list(param_vars);
        let result = con_type(canonical.as_str(), &ids);
        add_ctors(&ids, &result, self, variants);
        proof {
            ctors_keep_module(ids@, result@, c0, variants.deep_view());
            assert(param_vars.deep_view().len() == param_vars.len());
        }
        let arities = variant_arities(&self.current_module, variants);
        self.adt_variants.insert(canonical.clone(), arities);
        self.type_arity.insert(canonical, param_vars.len());
    }
}

/// The state with a record registered: as a constructor that takes the fields in
/// order, as a record, and as a type with one constructor.
pub open spec fn with_record_def(
    c: CheckerModel,
    name: Seq<char>,
    param_count: nat,
    vars: Seq<(Seq<char>, u32)>,
    fields: Seq<(Seq<char>, Ty)>,
    id: NodeId,
) -> CheckerModel {
    let canonical = local_name(c.current_module, name);
    let ids = ids_of(vars);
    let scheme = SchemeModel {
        forall: ids,
        constraints: Seq::empty(),
        ty: ctor_type(
            fields.map_values(|f: (Seq<char>, Ty)| f.1),
            con_of_vars(canonical, ids),
        ),
    };
    CheckerModel {
        constructors: put(put(c.constructors, canonical, scheme), name, scheme),
        lsp: LspModel {
            constructor_def_ids: put(put(c.lsp.constructor_def_ids, canonical, id), name, id),
            ..c.lsp
        },
        records: put(c.records, canonical, RecordModel { type_params: ids, fields }),
        adt_variants: put(c.adt_variants, canonical, seq![(canonical, fields.len() as usize)]),
        type_arity: put(c.type_arity, canonical, param_count as usize),
        ..c
    }
}

fn field_types(fields: &Vec<(String, Type)>) -> (r: Vec<Type>)
    ensures
        r.deep_view() == fields.deep_view().map_values(|f: (Seq<char>, Ty)| f.1),
{
    let mut out: Vec<Type> = Vec::new();
    let mut i: usize = 0;
    while i < fields.len()
        invariant
            i <= fields.len(),
            out.len() == i,
            forall|j: int| 0 <= j < i ==> #[trigger] out.deep_view()[j] == fields.deep_view()[j].1,
        decreases fields.len() - i,
    {
        push_value(&mut out, fields[i].1.dup());
        i = i + 1;
    }
    assert(out.deep_view() =~= fields.deep_view().map_values(|f: (Seq<char>, Ty)| f.1));
    out
}

impl Checker {
    /// Registers a record. `param_vars` are the variables of its parameters and of
    /// whatever else its fields speak of, and `fields` are its converted fields.
    pub fn register_record_def(
        &mut self,
        name: &str,
        type_params: &Vec<TypeParam>,
        param_vars: &Vec<(String, u32)>,
        fields: Vec<(String, Type)>,
        def_id: NodeId,
    )
        ensures
            final(self).deep_view() == with_record_def(
                old(self).deep_view(),
                name@,
                type_params@.len(),
                param_vars.deep_view(),
                fields.deep_view(),
                def_id,
            ),
    {
        let canonical = self.canonical_name(name);
        let ids = var_id_list(param_vars);
        let result = con_type(canonical.as_str(), &ids);
        let types = field_types(&fields);
        let constraints: Vec<(String, u32, Vec<Type>)> = Vec::new();
        let scheme = Scheme {
            forall: ids.dup(),
            constraints,
            ty: build_ctor_type(&types, result),
        };
        proof {
            assert(constraints.deep_view() =~= Seq::empty());
            assert(ids.deep_view() =~= ids@);
        }
        self.constructors.insert(canonical.clone(), scheme.dup());
        self.constructors.insert(name.to_owned(), scheme);
        self.lsp.constructor_def_ids.insert(canonical.clone(), def_id);
        self.lsp.constructor_def_ids.insert(name.to_owned(), def_id);
        let mut variants: Vec<(String, usize)> = Vec::new();
        variants.push((canonical.clone(), fields.len()));
        assert(fields.deep_view().len() == fields.len());
        assert(variants.deep_view() =~= seq![(canonical@, fields.deep_view().len() as usize)]);
        self.records.insert(canonical.clone(), RecordInfo { type_params: ids, fields });
        self.adt_variants.insert(canonical.clone(), variants);
        self.type_arity.insert(canonical, type_params.len());
    }
}

/// A name in backquotes.
pub open spec fn quoted(v: (Seq<char>, u32)) -> Seq<char> {
    "`"@ + v.0 + "`"@
}

/// What becomes of registering a type alias: an error where its body speaks of
/// variables that are not among its parameters.
pub open spec fn alias_registered(
    c: CheckerModel,
    name: Seq<char>,
    params: Seq<TypeParam>,
    vars: Seq<(Seq<char>, u32)>,
    body: Ty,
    body_span: Span,
    span: Span,
) -> Result<CheckerModel, Diag> {
    if vars.len() > params.len() {
        let extras = vars.skip(params.len() as int).map_values(
            |v: (Seq<char>, u32)| quoted(v),
        );
        Err(
            an_error_at(
                body_span,
                "type alias `"@ + name + "` body references undeclared type variable"@ + (
                if extras.len() == 1 {
                    ""@
                } else {
                    "s"@
                }) + ": "@ + joined(extras, ", "@) + ". Add "@ + (if extras.len() == 1 {
                    "it"@
                } else {
                    "them"@
                }) + " to the alias's parameter list."@,
            ),
        )
    } else {
        Ok(
            CheckerModel {
                type_aliases: put(
                    c.type_aliases,
                    local_name(c.current_module, name),
                    AliasModel {
                        param_vars: ids_of(vars),
                        param_kinds: params.map_values(|p: TypeParam| p.kind),
                        body,
                        span,
                    },
                ),
                ..c
            },
        )
    }
}

fn undeclared_vars_error(name: &str, extras: &Vec<String>) -> (r: String)
    ensures
        r@ == "type alias `"@ + name@ + "` body references undeclared type variable"@ + (
        if extras.deep_view().len() == 1 {
            ""@
        } else {
            "s"@
        }) + ": "@ + joined(extras.deep_view(), ", "@) + ". Add "@ + (if extras.deep_view().len()
            == 1 {
            "it"@
        } else {
            "them"@
        }) + " to the alias's parameter list."@,
{
    assert(extras.deep_view().len() == extras.len());
    let plural = if extras.len() == 1 {
        ""
    } else {
        "s"
    };
    let them = if extras.len() == 1 {
        "it"
    } else {
        "them"
    };
    let listed = join_text(extras, ", ");
    let start = concat5(
        "type alias `",
        name,
        "` body references undeclared type variable",
        plural,
        ": ",
    );
    concat5(
        start.as_str(),
        listed.as_str(),
        ". Add ",
        them,
        " to the alias's parameter list.",
    )
}

impl Checker {
    /// Registers a type alias. `param_vars` are the variables of its parameters,
    /// then those that its body speaks of besides, and `body` is its converted body.
    pub fn register_type_alias(
        &mut self,
        name: &str,
        type_params: &Vec<TypeParam>,
        param_vars: &Vec<(String, u32)>,
        body: Type,
        body_span: Span,
        span: Span,
    ) -> (r: Result<(), Diagnostic>)
        ensures
            match alias_registered(
                old(self).deep_view(),
                name@,
                type_params@,
                param_vars.deep_view(),
                body@,
                body_span,
                span,
            ) {
                Ok(c) => r is Ok && final(self).deep_view() == c,
                Err(d) => r matches Err(e) && e@ == d && final(self).deep_view()
                    == old(self).deep_view(),
            },
    {
        let ghost vars = param_vars.deep_view();
        assert(vars.len() == param_vars.len());
        if param_vars.len() > type_params.len() {
            let ghost rest = vars.skip(type_params.len() as int);
            let mut extras: Vec<String> = Vec::new();
            let mut i: usize = type_params.len();
            while i < param_vars.len()
                invariant
                    type_params.len() <= i <= param_vars.len(),
                    vars == param_vars.deep_view(),
                    extras.len() == i - type_params.len(),
                    forall|j: int|
                        0 <= j < i - type_params.len() ==> #[trigger] extras.deep_view()[j]
                            == quoted(vars[j + type_params.len()]),
                decreases param_vars.len() - i,
            {
                push_value(&mut extras, concat3("`", param_vars[i].0.as_str(), "`"));
                i = i + 1;
            }
            assert(extras.deep_view() =~= rest.map_values(|v: (Seq<char>, u32)| quoted(v)));
            return Err(Diagnostic::error_at(body_span, undeclared_vars_error(name, &extras)));
        }
        let canonical = self.canonical_name(name);
        let mut kinds: Vec<Kind> = Vec::new();
        let mut i: usize = 0;
        while i < type_params.len()
            invariant
                i <= type_params.len(),
                kinds.len() == i,
                forall|j: int|
                    0 <= j < i ==> #[trigger] kinds.deep_view()[j] == type_params@[j].kind,
            decreases type_params.len() - i,
        {
            push_value(&mut kinds, type_params[i].kind);
            i = i + 1;
        }
        assert(kinds.deep_view() =~= type_params@.map_values(|p: TypeParam| p.kind));
        let ids = var_id_list(param_vars);
        assert(ids.deep_view() =~= ids@);
        let info = TypeAliasInfo { param_vars: ids, param_kinds: kinds, body, span };
        self.type_aliases.insert(canonical, info);
        Ok(())
    }
}

/// The aliases that a module declares: bare and canonical names.
pub open spec fn with_local_alias(
    current_module: Option<Seq<char>>,
    local: Seq<(Seq<char>, Seq<char>)>,
    decl: Decl,
) -> Seq<(Seq<char>, Seq<char>)> {
    match decl {
        Decl::TypeAlias { name, .. } => put(local, name@, local_name(current_module, name@)),
        _ => local,
    }
}

pub open spec fn local_aliases(
    current_module: Option<Seq<char>>,
    acc: Seq<(Seq<char>, Seq<char>)>,
    items: Seq<Decl>,
) -> Seq<(Seq<char>, Seq<char>)>
    decreases items.len(),
{
    if items.len() == 0 {
        acc
    } else {
        with_local_alias(
            current_module,
            local_aliases(current_module, acc, items.drop_last()),
            items.last(),
        )
    }
}

/// Whether a canonical name is that of a local alias.
pub open spec fn is_local_alias(local: Seq<(Seq<char>, Seq<char>)>, canonical: Seq<char>) -> bool {
    exists|i: int| 0 <= i < local.len() && (#[trigger] local[i]).1 == canonical
}

/// The local alias that a type name stands for, if it does.
pub open spec fn alias_meant(
    local: Seq<(Seq<char>, Seq<char>)>,
    types: Map<Seq<char>, Seq<char>>,
    name: Seq<char>,
) -> Seq<Seq<char>> {
    match at_key(local, name) {
        Some(canonical) => seq![canonical],
        None => match lookup(types, name) {
            Some(canonical) => if is_local_alias(local, canonical) {
                seq![canonical]
            } else {
                Seq::empty()
            },
            None => Seq::empty(),
        },
    }
}

/// The local aliases that a written type speaks of, as often as it does.
pub open spec fn alias_refs(
    t: TypeExpr,
    local: Seq<(Seq<char>, Seq<char>)>,
    types: Map<Seq<char>, Seq<char>>,
) -> Seq<Seq<char>>
    decreases t,
{
    match t {
        TypeExpr::Named { name, .. } => alias_meant(local, types, name@),
        TypeExpr::App { func, arg, .. } => alias_refs(*func, local, types) + alias_refs(
            *arg,
            local,
            types,
        ),
        TypeExpr::Arrow { from, to, effects, .. } => alias_refs(*from, local, types) + alias_refs(
            *to,
            local,
            types,
        ) + effect_alias_refs(effects@, local, types),
        TypeExpr::Record { fields, .. } => field_alias_refs(fields@, local, types),
        TypeExpr::Labeled { inner, .. } => alias_refs(*inner, local, types),
        _ => Seq::empty(),
    }
}

pub open spec fn field_alias_refs(
    fields: Seq<(String, TypeExpr)>,
    local: Seq<(Seq<char>, Seq<char>)>,
    types: Map<Seq<char>, Seq<char>>,
) -> Seq<Seq<char>>
    decreases fields,
{
    if fields.len() == 0 {
        Seq::empty()
    } else {
        field_alias_refs(fields.drop_last(), local, types) + alias_refs(
            fields.last().1,
            local,
            types,
        )
    }
}

/// The local aliases that the arguments of some effects speak of.
pub open spec fn effect_alias_refs(
    effects: Seq<EffectRef>,
    local: Seq<(Seq<char>, Seq<char>)>,
    types: Map<Seq<char>, Seq<char>>,
) -> Seq<Seq<char>>
    decreases effects,
{
    if effects.len() == 0 {
        Seq::empty()
    } else {
        effect_alias_refs(effects.drop_last(), local, types) + all_alias_refs(
            effects.last().type_args@,
            local,
            types,
        )
    }
}

pub open spec fn all_alias_refs(
    ts: Seq<TypeExpr>,
    local: Seq<(Seq<char>, Seq<char>)>,
    types: Map<Seq<char>, Seq<char>>,
) -> Seq<Seq<char>>
    decreases ts,
{
    if ts.len() == 0 {
        Seq::empty()
    } else {
        all_alias_refs(ts.drop_last(), local, types) + alias_refs(ts.last(), local, types)
    }
}

/// Which aliases each local alias speaks of.
pub open spec fn with_alias_node(
    c: CheckerModel,
    local: Seq<(Seq<char>, Seq<char>)>,
    g: Adjacency,
    decl: Decl,
) -> Adjacency {
    match decl {
        Decl::TypeAlias { name, body, .. } => g.insert(
            local_name(c.current_module, name@),
            add_new(Seq::empty(), alias_refs(body, local, c.scope_map.types)),
        ),
        _ => g,
    }
}

pub open spec fn alias_graph(
    c: CheckerModel,
    local: Seq<(Seq<char>, Seq<char>)>,
    acc: Adjacency,
    items: Seq<Decl>,
) -> Adjacency
    decreases items.len(),
{
    if items.len() == 0 {
        acc
    } else {
        with_alias_node(c, local, alias_graph(c, local, acc, items.drop_last()), items.last())
    }
}

/// Where an alias is declared: the last declaration of the name.
pub open spec fn alias_span(
    c: CheckerModel,
    aliases: Seq<Decl>,
    canonical: Seq<char>,
) -> Option<Span>
    decreases aliases.len(),
{
    if aliases.len() == 0 {
        None
    } else {
        match aliases.last() {
            Decl::TypeAlias { name, span, .. } => if local_name(c.current_module, name@)
                == canonical {
                Some(span)
            } else {
                alias_span(c, aliases.drop_last(), canonical)
            },
            _ => alias_span(c, aliases.drop_last(), canonical),
        }
    }
}

/// A way from a node back to itself.
pub open spec fn is_cycle_path(g: Adjacency, p: Seq<Seq<char>>) -> bool {
    &&& p.len() >= 2
    &&& is_path(g, p)
    &&& p[0] == p.last()
}

/// The graph of the aliases that a module declares.
pub open spec fn module_alias_graph(c: CheckerModel, aliases: Seq<Decl>) -> Adjacency {
    alias_graph(c, local_aliases(c.current_module, Seq::empty(), aliases), Map::empty(), aliases)
}

/// The error on a cycle of aliases.
pub open spec fn cycle_error(c: CheckerModel, aliases: Seq<Decl>, p: Seq<Seq<char>>) -> Diag {
    let shown = p.map_values(|n: Seq<char>| last_segment(n));
    an_error_at(
        match alias_span(c, aliases, p[0]) {
            Some(span) => span,
            None => Span { start: 0, end: 0 },
        },
        "type alias `"@ + shown[0] + "` is recursive: "@ + joined(shown, " -> "@),
    )
}

fn add_local_aliases(
    current_module: &Option<String>,
    acc: &mut Table<String, String>,
    items: &Vec<Decl>,
)
    ensures
        final(acc).order() == local_aliases(current_module.deep_view(), old(acc).order(), items@),
{
    let ghost a0 = acc.order();
    let ghost all = items@;
    let mut i: usize = 0;
    assert(all.take(0) =~= Seq::empty());
    while i < items.len()
        invariant
            i <= items.len(),
            all == items@,
            acc.order() == local_aliases(current_module.deep_view(), a0, all.take(i as int)),
        decreases items.len() - i,
    {
        proof {
            assert(all.take(i + 1).drop_last() =~= all.take(i as int));
            assert(all.take(i + 1).last() == all[i as int]);
        }
        if let Decl::TypeAlias { name, .. } = &items[i] {
            let canonical = match current_module {
                Some(module) => crate::text::dot_join(module.as_str(), name.as_str()),
                None => name.clone(),
            };
            acc.insert(name.clone(), canonical);
        }
        i = i + 1;
    }
    assert(all.take(i as int) =~= all);
}

fn local_alias(local: &Table<String, String>, canonical: &str) -> (r: bool)
    ensures
        r == is_local_alias(local.order(), canonical@),
{
    let ghost all = local.order();
    let n = local.len();
    let mut i: usize = 0;
    while i < n
        invariant
            i <= n,
            n == all.len(),
            all == local.order(),
            forall|j: int| 0 <= j < i ==> (#[trigger] all[j]).1 != canonical@,
        decreases n - i,
    {
        if text_eq(local.value(i).as_str(), canonical) {
            assert(all[i as int].1 == canonical@);
            return true;
        }
        i = i + 1;
    }
    false
}

fn collect_alias_refs(
    t: &TypeExpr,
    local: &Table<String, String>,
    scope: &ScopeMap,
    out: &mut Vec<String>,
)
    ensures
        final(out).deep_view() == add_new(
            old(out).deep_view(),
            alias_refs(*t, local.order(), scope.deep_view().types),
        ),
    decreases t,
{
    let ghost out0 = out.deep_view();
    let ghost l = local.order();
    let ghost types = scope.deep_view().types;
    match t {
        TypeExpr::Named { name, .. } => {
            if let Some(canonical) = local.get(name) {
                proof {
                    add_new_one(out0, canonical@);
                }
                push_new(out, canonical.clone());
            } else if let Some(canonical) = scope.resolve_type(name.as_str()) {
                if local_alias(local, canonical.as_str()) {
                    proof {
                        add_new_one(out0, canonical@);
                    }
                    push_new(out, canonical.clone());
                }
            }
        },
        TypeExpr::App { func, arg, .. } => {
            collect_alias_refs(func, local, scope, out);
            collect_alias_refs(arg, local, scope, out);
            proof {
                add_new_in_turn(out0, alias_refs(**func, l, types), alias_refs(**arg, l, types));
            }
        },
        TypeExpr::Arrow { from, to, effects, .. } => {
            collect_alias_refs(from, local, scope, out);
            collect_alias_refs(to, local, scope, out);
            collect_effect_alias_refs(effects, local, scope, out);
            proof {
                let ends = alias_refs(**from, l, types) + alias_refs(**to, l, types);
                add_new_in_turn(out0, alias_refs(**from, l, types), alias_refs(**to, l, types));
                add_new_in_turn(out0, ends, effect_alias_refs(effects@, l, types));
            }
        },
        TypeExpr::Record { fields, .. } => {
            collect_field_alias_refs(fields, local, scope, out);
        },
        TypeExpr::Labeled { inner, .. } => {
            collect_alias_refs(inner, local, scope, out);
        },
        TypeExpr::Var { .. } => {},
        TypeExpr::Symbol { .. } => {},
    }
}

fn collect_field_alias_refs(
    fields: &Vec<(String, TypeExpr)>,
    local: &Table<String, String>,
    scope: &ScopeMap,
    out: &mut Vec<String>,
)
    ensures
        final(out).deep_view() == add_new(
            old(out).deep_view(),
            field_alias_refs(fields@, local.order(), scope.deep_view().types),
        ),
    decreases fields,
{
    let ghost out0 = out.deep_view();
    let ghost l = local.order();
    let ghost types = scope.deep_view().types;
    let mut i: usize = 0;
    assert(fields@.take(0) =~= Seq::empty());
    while i < fields.len()
        invariant
            i <= fields.len(),
            l == local.order(),
            types == scope.deep_view().types,
            out.deep_view() == add_new(out0, field_alias_refs(fields@.take(i as int), l, types)),
        decreases fields.len() - i,
    {
        proof {
            assert(fields@.take(i + 1).drop_last() =~= fields@.take(i as int));
            assert(fields@.take(i + 1).last() == fields@[i as int]);
            add_new_in_turn(
                out0,
                field_alias_refs(fields@.take(i as int), l, types),
                alias_refs(fields@[i as int].1, l, types),
            );
        }
        collect_alias_refs(&fields[i].1, local, scope, out);
        i = i + 1;
    }
    assert(fields@.take(i as int) =~= fields@);
}

fn collect_effect_alias_refs(
    effects: &Vec<EffectRef>,
    local: &Table<String, String>,
    scope: &ScopeMap,
    out: &mut Vec<String>,
)
    ensures
        final(out).deep_view() == add_new(
            old(out).deep_view(),
            effect_alias_refs(effects@, local.order(), scope.deep_view().types),
        ),
    decreases effects,
{
    let ghost out0 = out.deep_view();
    let ghost l = local.order();
    let ghost types = scope.deep_view().types;
    let mut i: usize = 0;
    assert(effects@.take(0) =~= Seq::empty());
    while i < effects.len()
        invariant
            i <= effects.len(),
            l == local.order(),
            types == scope.deep_view().types,
            out.deep_view() == add_new(out0, effect_alias_refs(effects@.take(i as int), l, types)),
        decreases effects.len() - i,
    {
        proof {
            assert(effects@.take(i + 1).drop_last() =~= effects@.take(i as int));
            assert(effects@.take(i + 1).last() == effects@[i as int]);
            add_new_in_turn(
                out0,
                effect_alias_refs(effects@.take(i as int), l, types),
                all_alias_refs(effects@[i as int].type_args@, l, types),
            );
        }
        collect_all_alias_refs(&effects[i].type_args, local, scope, out);
        i = i + 1;
    }
    assert(effects@.take(i as int) =~= effects@);
}

fn collect_all_alias_refs(
    ts: &Vec<TypeExpr>,
    local: &Table<String, String>,
    scope: &ScopeMap,
    out: &mut Vec<String>,
)
    ensures
        final(out).deep_view() == add_new(
            old(out).deep_view(),
            all_alias_refs(ts@, local.order(), scope.deep_view().types),
        ),
    decreases ts,
{
    let ghost out0 = out.deep_view();
    let ghost l = local.order();
    let ghost types = scope.deep_view().types;
    let mut i: usize = 0;
    assert(ts@.take(0) =~= Seq::empty());
    while i < ts.len()
        invariant
            i <= ts.len(),
            l == local.order(),
            types == scope.deep_view().types,
            out.deep_view() == add_new(out0, all_alias_refs(ts@.take(i as int), l, types)),
        decreases ts.len() - i,
    {
        proof {
            assert(ts@.take(i + 1).drop_last() =~= ts@.take(i as int));
            assert(ts@.take(i + 1).last() == ts@[i as int]);
            add_new_in_turn(
                out0,
                all_alias_refs(ts@.take(i as int), l, types),
                alias_refs(ts@[i as int], l, types),
            );
        }
        collect_alias_refs(&ts[i], local, scope, out);
        i = i + 1;
    }
    assert(ts@.take(i as int) =~= ts@);
}

fn add_alias_nodes(
    c: &Checker,
    local: &Table<String, String>,
    acc: &mut Table<String, Vec<String>>,
    items: &Vec<Decl>,
)
    ensures
        final(acc).deep_view() == alias_graph(
            c.deep_view(),
            local.order(),
            old(acc).deep_view(),
            items@,
        ),
{
    let ghost a0 = acc.deep_view();
    let ghost all = items@;
    let mut i: usize = 0;
    assert(all.take(0) =~= Seq::empty());
    while i < items.len()
        invariant
            i <= items.len(),
            all == items@,
            acc.deep_view() == alias_graph(c.deep_view(), local.order(), a0, all.take(i as int)),
        decreases items.len() - i,
    {
        proof {
            assert(all.take(i + 1).drop_last() =~= all.take(i as int));
            assert(all.take(i + 1).last() == all[i as int]);
        }
        if let Decl::TypeAlias { name, body, .. } = &items[i] {
            let mut refs: Vec<String> = Vec::new();
            assert(refs.deep_view() =~= Seq::empty());
            collect_alias_refs(body, local, &c.scope_map, &mut refs);
            acc.insert(c.canonical_name(name.as_str()), refs);
        }
        i = i + 1;
    }
    assert(all.take(i as int) =~= all);
}

fn find_alias_span(c: &Checker, aliases: &Vec<Decl>, canonical: &str) -> (r: Option<Span>)
    ensures
        r == alias_span(c.deep_view(), aliases@, canonical@),
{
    let mut r: Option<Span> = None;
    let mut i: usize = 0;
    assert(aliases@.take(0) =~= Seq::empty());
    while i < aliases.len()
        invariant
            i <= aliases.len(),
            r == alias_span(c.deep_view(), aliases@.take(i as int), canonical@),
        decreases aliases.len() - i,
    {
        assert(aliases@.take(i + 1).drop_last() =~= aliases@.take(i as int));
        if let Decl::TypeAlias { name, span, .. } = &aliases[i] {
            let own = c.canonical_name(name.as_str());
            if text_eq(own.as_str(), canonical) {
                r = Some(*span);
            }
        }
        i = i + 1;
    }
    assert(aliases@.take(i as int) =~= aliases@);
    r
}

/// Each finished alias speaks only of aliases that were finished before it.
spec fn finished_in_order(g: Adjacency, done: Seq<Seq<char>>) -> bool {
    forall|i: int, d: Seq<char>|
        #![trigger done[i], edge(g, done[i], d)]
        0 <= i < done.len() && edge(g, done[i], d) && g.dom().contains(d) ==> done.take(
            i,
        ).contains(d)
}

/// The aliases that are neither finished nor under way.
spec fn untouched(g: Adjacency, done: Seq<Seq<char>>, stack: Seq<Seq<char>>) -> Set<Seq<char>> {
    g.dom().difference(done.to_set()).difference(stack.to_set())
}

spec fn is_way(g: Adjacency, stack: Seq<Seq<char>>, node: Seq<char>) -> bool {
    is_path(g, stack.push(node))
}

/// Visits an alias and those that it speaks of. Gives back a cycle where it comes
/// upon one.
fn visit(
    graph: &Table<String, Vec<String>>,
    node: &String,
    stack: &mut Vec<String>,
    done: &mut Vec<String>,
) -> (r: Option<Vec<String>>)
    requires
        graph.deep_view().dom().finite(),
        graph.deep_view().dom().contains(node@),
        !old(stack).deep_view().contains(node@),
        !old(done).deep_view().contains(node@),
        is_way(graph.deep_view(), old(stack).deep_view(), node@),
        finished_in_order(graph.deep_view(), old(done).deep_view()),
    ensures
        match r {
            Some(p) => is_cycle_path(graph.deep_view(), p.deep_view()),
            None => {
                &&& final(stack).deep_view() == old(stack).deep_view()
                &&& final(done).deep_view().contains(node@)
                &&& finished_in_order(graph.deep_view(), final(done).deep_view())
                &&& forall|x: Seq<char>|
                    old(done).deep_view().contains(x) ==> #[trigger] final(done).deep_view().contains(x)
                &&& forall|x: Seq<char>| #[trigger]
                    final(done).deep_view().contains(x) ==> old(done).deep_view().contains(x)
                        || !old(stack).deep_view().contains(x)
            },
        },
    decreases untouched(graph.deep_view(), old(done).deep_view(), old(stack).deep_view()).len(),
{
    let ghost g = graph.deep_view();
    let ghost stack0 = stack.deep_view();
    let ghost done0 = done.deep_view();
    let ghost open0 = untouched(g, done0, stack0);
    push_value(stack, node.clone());
    let ghost way = stack.deep_view();
    proof {
        assert(open0.contains(node@));
        assert(open0.finite());
        assert forall|x: Seq<char>| way.contains(x) <==> stack0.contains(x) || x == node@ by {
            push_contains(stack0, node@, x);
        }
    }
    let edges = match graph.get(node) {
        Some(edges) => edges,
        None => {
            assert(false);
            return None;
        },
    };
    let ghost es = edges.deep_view();
    let mut i: usize = 0;
    while i < edges.len()
        invariant
            i <= edges.len(),
            g == graph.deep_view(),
            g.dom().finite(),
            g.dom().contains(node@),
            es == g[node@],
            es == edges.deep_view(),
            way == stack0.push(node@),
            stack.deep_view() == way,
            is_path(g, way),
            open0 == untouched(g, done0, stack0),
            open0.finite(),
            open0.contains(node@),
            done0 == old(done).deep_view(),
            stack0 == old(stack).deep_view(),
            !done0.contains(node@),
            finished_in_order(g, done.deep_view()),
            forall|x: Seq<char>| way.contains(x) <==> stack0.contains(x) || x == node@,
            forall|x: Seq<char>|
                done0.contains(x) ==> #[trigger] done.deep_view().contains(x),
            forall|x: Seq<char>| #[trigger]
                done.deep_view().contains(x) ==> done0.contains(x) || !way.contains(x),
            forall|j: int|
                0 <= j < i ==> done.deep_view().contains(#[trigger] es[j]) || !g.dom().contains(
                    es[j],
                ),
        decreases edges.len() - i,
    {
        let dep = &edges[i];
        assert(es[i as int] == dep@);
        assert(es.contains(dep@));
        assert(edge(g, node@, dep@));
        if contains_value(stack, dep) {
            let mut start: usize = 0;
            while start < stack.len() && !stack[start].same(dep)
                invariant
                    start <= stack.len(),
                    stack.deep_view() == way,
                    forall|j: int| 0 <= j < start ==> #[trigger] way[j] != dep@,
                decreases stack.len() - start,
            {
                start = start + 1;
            }
            proof {
                let k = choose|k: int| 0 <= k < way.len() && way[k] == dep@;
                assert(start < stack.len()) by {
                    if start >= stack.len() {
                        assert(way[k] != dep@);
                    }
                }
            }
            let ghost s = start as int;
            let mut path: Vec<String> = Vec::new();
            let mut j: usize = start;
            while j < stack.len()
                invariant
                    s <= j <= stack.len(),
                    s == start,
                    stack.deep_view() == way,
                    path.len() == j - s,
                    forall|k: int| 0 <= k < j - s ==> #[trigger] path.deep_view()[k] == way[k + s],
                decreases stack.len() - j,
            {
                push_value(&mut path, stack[j].clone());
                j = j + 1;
            }
            push_value(&mut path, dep.clone());
            proof {
                let p = path.deep_view();
                assert(p.len() == way.len() - s + 1);
                assert forall|k: int| 0 <= k < p.len() - 1 implies #[trigger] edge_at(g, p, k) by {
                    if k < p.len() - 2 {
                        assert(edge_at(g, way, k + s));
                        assert(p[k] == way[k + s] && p[k + 1] == way[k + 1 + s]);
                    } else {
                        assert(p[k] == way[way.len() - 1]);
                        assert(p[k + 1] == dep@);
                    }
                }
                assert(p[0] == way[s]);
            }
            return Some(path);
        }
        if !contains_value(done, dep) && graph.contains_key(dep) {
            let ghost before = done.deep_view();
            proof {
                let longer = way.push(dep@);
                assert forall|k: int| 0 <= k < longer.len() - 1 implies #[trigger] edge_at(
                    g,
                    longer,
                    k,
                ) by {
                    if k < way.len() - 1 {
                        assert(edge_at(g, way, k));
                    }
                }
                let open1 = untouched(g, before, way);
                assert(open1.subset_of(open0.remove(node@)));
                vstd::set_lib::lemma_len_subset(open1, open0.remove(node@));
            }
            if let Some(path) = visit(graph, dep, stack, done) {
                return Some(path);
            }
        }
        i = i + 1;
    }
    crate::values::pop_value(stack);
    assert(way.drop_last() =~= stack0);
    let ghost before = done.deep_view();
    proof {
        assert(!before.contains(node@)) by {
            assert(way.contains(node@));
        }
    }
    push_value(done, node.clone());
    proof {
        let after = done.deep_view();
        assert forall|x: Seq<char>| after.contains(x) <==> before.contains(x) || x == node@ by {
            push_contains(before, node@, x);
        }
        assert forall|i: int, d: Seq<char>|
            #![trigger after[i], edge(g, after[i], d)]
            0 <= i < after.len() && edge(g, after[i], d) && g.dom().contains(d) implies after.take(
            i,
        ).contains(d) by {
            if i < before.len() {
                assert(after[i] == before[i]);
                assert(before.take(i).contains(d));
                assert(after.take(i) =~= before.take(i));
            } else {
                assert(after.take(i) =~= before);
                let j = choose|j: int| 0 <= j < es.len() && es[j] == d;
                assert(before.contains(es[j]));
            }
        }
    }
    None
}

/// Where everything is finished in order, there is no way back.
proof fn finished_means_no_cycle(g: Adjacency, done: Seq<Seq<char>>, p: Seq<Seq<char>>)
    requires
        finished_in_order(g, done),
        forall|x: Seq<char>| g.dom().contains(x) ==> #[trigger] done.contains(x),
    ensures
        !is_cycle_path(g, p),
{
    if is_cycle_path(g, p) {
        assert(edge_at(g, p, 0));
        assert(done.contains(p[0]));
        let i = choose|i: int| 0 <= i < done.len() && done[i] == p[0];
        never_back(g, done, p, i);
    }
}

/// Along a way each alias was finished before the one that speaks of it.
proof fn steps_down(
    g: Adjacency,
    done: Seq<Seq<char>>,
    p: Seq<Seq<char>>,
    i: int,
    n: nat,
) -> (r: int)
    requires
        finished_in_order(g, done),
        is_cycle_path(g, p),
        0 <= i < done.len(),
        done[i] == p[0],
        0 < n < p.len(),
    ensures
        0 <= r < i,
        done[r] == p[n as int],
    decreases n,
{
    let at = if n == 1 {
        i
    } else {
        steps_down(g, done, p, i, (n - 1) as nat)
    };
    assert(edge_at(g, p, n - 1));
    assert(edge(g, done[at], p[n as int]));
    assert(g.dom().contains(p[n as int])) by {
        if n < p.len() - 1 {
            assert(edge_at(g, p, n as int));
        } else {
            assert(edge_at(g, p, 0));
        }
    }
    assert(done.take(at).contains(p[n as int]));
    let r = choose|r: int| 0 <= r < done.take(at).len() && done.take(at)[r] == p[n as int];
    r
}

/// A way back would lead to an alias finished earlier, again and again.
proof fn never_back(g: Adjacency, done: Seq<Seq<char>>, p: Seq<Seq<char>>, i: int)
    requires
        finished_in_order(g, done),
        is_cycle_path(g, p),
        0 <= i < done.len(),
    ensures
        done[i] != p[0],
    decreases i,
{
    if done[i] == p[0] {
        let j = steps_down(g, done, p, i, (p.len() - 1) as nat);
        never_back(g, done, p, j);
    }
}

impl Checker {
    /// Looks for type aliases of the module that speak of themselves, directly or
    /// through others. The error shows one such cycle.
    pub fn detect_alias_cycles(&self, aliases: &Vec<Decl>) -> (r: Result<(), Diagnostic>)
        ensures
            ({
                let g = module_alias_graph(self.deep_view(), aliases@);
                match r {
                    Ok(_) => forall|p: Seq<Seq<char>>| !(#[trigger] is_cycle_path(g, p)),
                    Err(e) => exists|p: Seq<Seq<char>>| #[trigger]
                        is_cycle_path(g, p) && e@ == cycle_error(self.deep_view(), aliases@, p),
                }
            }),
    {
        let mut local: Table<String, String> = Table::new();
        add_local_aliases(&self.current_module, &mut local, aliases);
        let mut graph: Table<String, Vec<String>> = Table::new();
        add_alias_nodes(self, &local, &mut graph, aliases);
        let ghost g = graph.deep_view();
        assert(g == module_alias_graph(self.deep_view(), aliases@));
        let n = graph.len();
        let ghost all = graph.order();
        let mut done: Vec<String> = Vec::new();
        assert(done.deep_view() =~= Seq::empty());
        let mut i: usize = 0;
        while i < n
            invariant
                i <= n,
                n == all.len(),
                all == graph.order(),
                g == graph.deep_view(),
                g == module_alias_graph(self.deep_view(), aliases@),
                lists(all, g),
                finished_in_order(g, done.deep_view()),
                forall|j: int| 0 <= j < i ==> done.deep_view().contains((#[trigger] all[j]).0),
            decreases n - i,
        {
            let node = graph.key(i);
            assert(all[i as int].0 == node@);
            let mut stack: Vec<String> = Vec::new();
            assert(stack.deep_view() =~= Seq::empty());
            if !contains_value(&done, node) {
                let ghost before = done.deep_view();
                assert(is_path(g, Seq::<Seq<char>>::empty().push(node@)));
                if let Some(path) = visit(&graph, node, &mut stack, &mut done) {
                    let ghost p = path.deep_view();
                    let shown = bare_names(&path);
                    let span = match find_alias_span(self, aliases, path[0].as_str()) {
                        Some(span) => span,
                        None => Span { start: 0, end: 0 },
                    };
                    let listed = join_text(&shown, " -> ");
                    let message = concat4(
                        "type alias `",
                        shown[0].as_str(),
                        "` is recursive: ",
                        listed.as_str(),
                    );
                    assert(shown.deep_view()[0] == shown@[0]@);
                    assert(p[0] == path@[0]@);
                    let e = Diagnostic::error_at(span, message);
                    assert(is_cycle_path(g, p) && e@ == cycle_error(
                        self.deep_view(),
                        aliases@,
                        p,
                    ));
                    return Err(e);
                }
            }
            i = i + 1;
        }
        proof {
            assert forall|x: Seq<char>| g.dom().contains(x) implies #[trigger]
                done.deep_view().contains(x) by {
                let j = choose|j: int| 0 <= j < all.len() && (#[trigger] all[j]).0 == x;
                assert(done.deep_view().contains(all[j].0));
            }
            assert forall|p: Seq<Seq<char>>| !(#[trigger] is_cycle_path(g, p)) by {
                finished_means_no_cycle(g, done.deep_view(), p);
            }
        }
        Ok(())
    }
}

fn bare_names(v: &Vec<String>) -> (r: Vec<String>)
    ensures
        r.deep_view() == v.deep_view().map_values(|x: Seq<char>| last_segment(x)),
{
    let mut out: Vec<String> = Vec::new();
    let mut i: usize = 0;
    while i < v.len()
        invariant
            i <= v.len(),
            out.len() == i,
            forall|j: int|
                0 <= j < i ==> #[trigger] out.deep_view()[j] == last_segment(v.deep_view()[j]),
        decreases v.len() - i,
    {
        push_value(&mut out, bare_type_name(v[i].as_str()).to_owned());
        i = i + 1;
    }
    assert(out.deep_view() =~= v.deep_view().map_values(|x: Seq<char>| last_segment(x)));
    out
}

/// The type of a constructor takes the first field, and gives the type that takes the
/// others; without fields it is the result.
pub proof fn constructors_take_their_fields_in_order(field: Ty, fields: Seq<Ty>, result: Ty)
    ensures
        ctor_type(Seq::empty(), result) == result,
        ctor_type(seq![field] + fields, result) == arrow_ty(field, ctor_type(fields, result)),
    decreases fields.len(),
{
    let all = seq![field] + fields;
    if fields.len() == 0 {
        assert(all.drop_last() =~= Seq::empty());
        assert(all.last() == field);
        reveal_with_fuel(ctor_type, 2);
    } else {
        assert(all.drop_last() =~= seq![field] + fields.drop_last());
        assert(all.last() == fields.last());
        constructors_take_their_fields_in_order(
            field,
            fields.drop_last(),
            arrow_ty(fields.last(), result),
        );
    }
}

/// A function type is pure: its row names no effect and is closed.
pub proof fn constructor_arrows_are_pure(a: Ty, b: Ty)
    ensures
        arrow_ty(a, b) matches Ty::Fun(param, result, row) && *param == a && *result == b
            && row.effects.len() == 0 && row.tails.len() == 0,
{
}

/// Whether a constructor has a scheme under its canonical and its bare name.
pub open spec fn is_registered(
    current_module: Option<Seq<char>>,
    constructors: Seq<(Seq<char>, SchemeModel)>,
    name: Seq<char>,
    forall_vars: Seq<u32>,
    fields: Seq<Ty>,
    result: Ty,
) -> bool {
    let scheme = at_key(constructors, name)->0;
    &&& at_key(constructors, name) is Some
    &&& at_key(constructors, local_name(current_module, name)) == Some(scheme)
    &&& scheme.forall == forall_vars
    &&& scheme.constraints.len() == 0
    &&& scheme.ty == ctor_type(fields, result)
}

/// Whether the names under which constructors are registered do not get in each
/// other's way.
pub open spec fn variants_are_apart(
    current_module: Option<Seq<char>>,
    variants: Seq<VariantModel>,
) -> bool {
    forall|i: int, j: int|
        0 <= i < j < variants.len() ==> {
            let a = (#[trigger] variants[i]).name;
            let b = (#[trigger] variants[j]).name;
            &&& a != b
            &&& a != local_name(current_module, b)
            &&& b != local_name(current_module, a)
            &&& local_name(current_module, a) != local_name(current_module, b)
        }
}

proof fn ctors_are_registered(
    forall_vars: Seq<u32>,
    result: Ty,
    c: CheckerModel,
    variants: Seq<VariantModel>,
)
    requires
        distinct_keys(c.constructors),
        variants_are_apart(c.current_module, variants),
    ensures
        ({
            let after = with_ctors(forall_vars, result, c, variants);
            &&& after.current_module == c.current_module
            &&& distinct_keys(after.constructors)
            &&& after == CheckerModel { constructors: after.constructors, lsp: after.lsp, ..c }
            &&& forall|i: int|
                0 <= i < variants.len() ==> is_registered(
                    c.current_module,
                    after.constructors,
                    (#[trigger] variants[i]).name,
                    forall_vars,
                    variants[i].fields,
                    result,
                )
            &&& forall|k: Seq<char>|
                (forall|i: int|
                    0 <= i < variants.len() ==> (#[trigger] variants[i]).name != k && local_name(
                        c.current_module,
                        variants[i].name,
                    ) != k) ==> #[trigger] at_key(after.constructors, k) == at_key(
                    c.constructors,
                    k,
                )
        }),
    decreases variants.len(),
{
    if variants.len() > 0 {
        let init = variants.drop_last();
        assert(forall|i: int| 0 <= i < init.len() ==> #[trigger] init[i] == variants[i]);
        assert(variants_are_apart(c.current_module, init));
        ctors_are_registered(forall_vars, result, c, init);
        let before = with_ctors(forall_vars, result, c, init);
        let after = with_ctors(forall_vars, result, c, variants);
        let v = variants.last();
        assert(variants[variants.len() - 1] == v);
        let canonical = local_name(c.current_module, v.name);
        let scheme = SchemeModel {
            forall: forall_vars,
            constraints: Seq::empty(),
            ty: ctor_type(v.fields, result),
        };
        let mid = put(before.constructors, canonical, scheme);
        put_then_get(before.constructors, canonical, scheme, canonical);
        put_then_get(mid, v.name, scheme, v.name);
        put_then_get(mid, v.name, scheme, canonical);
        assert forall|k: Seq<char>| k != v.name && k != canonical implies #[trigger] at_key(
            after.constructors,
            k,
        ) == at_key(before.constructors, k) by {
            put_then_get(before.constructors, canonical, scheme, k);
            put_then_get(mid, v.name, scheme, k);
        }
        assert forall|i: int| 0 <= i < variants.len() implies is_registered(
            c.current_module,
            after.constructors,
            (#[trigger] variants[i]).name,
            forall_vars,
            variants[i].fields,
            result,
        ) by {
            if i < init.len() {
                assert(init[i] == variants[i]);
                let a = variants[i].name;
                assert(a != v.name && a != canonical);
                assert(is_registered(
                    c.current_module,
                    before.constructors,
                    init[i].name,
                    forall_vars,
                    init[i].fields,
                    result,
                ));
                assert(at_key(after.constructors, a) == at_key(before.constructors, a));
                let own = local_name(c.current_module, a);
                assert(own != v.name && own != canonical);
                assert(at_key(after.constructors, own) == at_key(before.constructors, own));
            }
        }
        assert forall|k: Seq<char>|
            (forall|i: int|
                0 <= i < variants.len() ==> (#[trigger] variants[i]).name != k && local_name(
                    c.current_module,
                    variants[i].name,
                ) != k) implies #[trigger] at_key(after.constructors, k) == at_key(
            c.constructors,
            k,
        ) by {
            assert forall|i: int| 0 <= i < init.len() implies (#[trigger] init[i]).name != k
                && local_name(c.current_module, init[i].name) != k by {
                assert(variants[i].name != k);
            }
            assert(variants[variants.len() - 1].name != k);
            assert(at_key(before.constructors, k) == at_key(c.constructors, k));
        }
    }
}

/// A registered type has all its constructors: each takes its fields to the type applied
/// to its parameters, for whatever these stand for. The type is known with its number of
/// parameters, and its constructors with their numbers of fields, in order.
pub proof fn types_have_their_constructors(
    c: CheckerModel,
    name: Seq<char>,
    vars: Seq<(Seq<char>, u32)>,
    variants: Seq<VariantModel>,
    ids: Seq<u32>,
    args: Seq<Ty>,
)
    requires
        distinct_keys(c.constructors),
        distinct_keys(c.adt_variants),
        distinct_keys(c.type_arity),
        variants_are_apart(c.current_module, variants),
        ids.len() == vars.len(),
        args.len() == vars.len(),
        forall|i: int| 0 <= i < vars.len() ==> #[trigger] ids[i] == vars[i].1,
        forall|i: int| 0 <= i < vars.len() ==> #[trigger] args[i] == Ty::Var(vars[i].1),
    ensures
        ({
            let after = with_type_def(c, name, vars, variants);
            let own = local_name(c.current_module, name);
            let known = at_key(after.adt_variants, own);
            &&& forall|i: int|
                0 <= i < variants.len() ==> is_registered(
                    c.current_module,
                    after.constructors,
                    (#[trigger] variants[i]).name,
                    ids,
                    variants[i].fields,
                    Ty::Con(own, args),
                )
            &&& at_key(after.type_arity, own) == Some(vars.len() as usize)
            &&& known is Some
            &&& known->0.len() == variants.len()
            &&& forall|i: int|
                0 <= i < variants.len() ==> #[trigger] known->0[i] == (
                    local_name(c.current_module, variants[i].name),
                    variants[i].fields.len() as usize,
                )
        }),
{
    let own = local_name(c.current_module, name);
    assert(ids_of(vars) =~= ids);
    assert(con_of_vars(own, ids) == Ty::Con(own, args)) by {
        assert(ids.map_values(|id: u32| Ty::Var(id)) =~= args);
    }
    ctors_are_registered(ids, Ty::Con(own, args), c, variants);
    let list = variants.map_values(|v: VariantModel| variant_arity(c.current_module, v));
    put_then_get(c.adt_variants, own, list, own);
    put_then_get(c.type_arity, own, vars.len() as usize, own);
}

/// A registered record is known with its fields, and as a constructor that takes them in
/// order to the record applied to its parameters.
pub proof fn records_have_their_fields(
    c: CheckerModel,
    name: Seq<char>,
    param_count: nat,
    vars: Seq<(Seq<char>, u32)>,
    fields: Seq<(Seq<char>, Ty)>,
    id: NodeId,
    ids: Seq<u32>,
    args: Seq<Ty>,
    types: Seq<Ty>,
)
    requires
        distinct_keys(c.constructors),
        distinct_keys(c.records),
        distinct_keys(c.adt_variants),
        distinct_keys(c.type_arity),
        ids.len() == vars.len(),
        args.len() == vars.len(),
        types.len() == fields.len(),
        forall|i: int| 0 <= i < vars.len() ==> #[trigger] ids[i] == vars[i].1,
        forall|i: int| 0 <= i < vars.len() ==> #[trigger] args[i] == Ty::Var(vars[i].1),
        forall|i: int| 0 <= i < fields.len() ==> #[trigger] types[i] == fields[i].1,
    ensures
        ({
            let after = with_record_def(c, name, param_count, vars, fields, id);
            let own = local_name(c.current_module, name);
            let info = at_key(after.records, own)->0;
            &&& at_key(after.records, own) is Some
            &&& info.type_params == ids
            &&& info.fields == fields
            &&& is_registered(
                c.current_module,
                after.constructors,
                name,
                ids,
                types,
                Ty::Con(own, args),
            )
            &&& at_key(after.type_arity, own) == Some(param_count as usize)
            &&& at_key(after.adt_variants, own) == Some(seq![(own, fields.len() as usize)])
        }),
{
    let own = local_name(c.current_module, name);
    assert(ids_of(vars) =~= ids);
    assert(ids.map_values(|id: u32| Ty::Var(id)) =~= args);
    assert(fields.map_values(|f: (Seq<char>, Ty)| f.1) =~= types);
    let scheme = SchemeModel {
        forall: ids,
        constraints: Seq::empty(),
        ty: ctor_type(types, Ty::Con(own, args)),
    };
    let mid = put(c.constructors, own, scheme);
    put_then_get(c.constructors, own, scheme, own);
    put_then_get(mid, name, scheme, name);
    put_then_get(mid, name, scheme, own);
    put_then_get(c.records, own, RecordModel { type_params: ids, fields }, own);
    put_then_get(c.adt_variants, own, seq![(own, fields.len() as usize)], own);
    put_then_get(c.type_arity, own, param_count as usize, own);
}

/// A type alias is registered, with its parameters and its body, just where the body
/// speaks of no variables but its parameters.
pub proof fn aliases_speak_of_their_parameters(
    c: CheckerModel,
    name: Seq<char>,
    params: Seq<TypeParam>,
    vars: Seq<(Seq<char>, u32)>,
    body: Ty,
    body_span: Span,
    span: Span,
)
    requires
        distinct_keys(c.type_aliases),
    ensures
        ({
            let r = alias_registered(c, name, params, vars, body, body_span, span);
            &&& r is Ok <==> vars.len() <= params.len()
            &&& r matches Err(d) ==> d.span == Some(body_span)
            &&& r matches Ok(after) ==> {
                let found = at_key(after.type_aliases, local_name(c.current_module, name));
                &&& found is Some
                &&& found->0.body == body
                &&& found->0.span == span
                &&& found->0.param_vars.len() == vars.len()
                &&& forall|i: int|
                    0 <= i < vars.len() ==> #[trigger] found->0.param_vars[i] == vars[i].1
                &&& found->0.param_kinds.len() == params.len()
                &&& forall|i: int|
                    0 <= i < params.len() ==> #[trigger] found->0.param_kinds[i] == params[i].kind
            }
        }),
{
    let own = local_name(c.current_module, name);
    let info = AliasModel {
        param_vars: ids_of(vars),
        param_kinds: params.map_values(|p: TypeParam| p.kind),
        body,
        span,
    };
    put_then_get(c.type_aliases, own, info, own);
}

/// The parameters of a type stand for different variables, none of which was in use.
pub proof fn parameters_have_variables_of_their_own(
    params: Seq<TypeParam>,
    next: int,
    i: int,
    j: int,
)
    requires
        0 <= next,
        next + params.len() <= u32::MAX,
        0 <= i < params.len(),
        0 <= j < params.len(),
    ensures
        param_var_list(params, next).len() == params.len(),
        param_var_list(params, next)[i].0 == params[i].name@,
        next <= param_var_list(params, next)[i].1 < next + params.len(),
        i != j ==> param_var_list(params, next)[i].1 != param_var_list(params, next)[j].1,
{
}

} // verus!
