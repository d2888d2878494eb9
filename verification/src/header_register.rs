//! Registering what the headers of modules that import one another declare.

use vstd::prelude::*;
use crate::ast::{Decl, Kind, NodeId};
use crate::canonical_exports::with_env_binding;
use crate::checker::{Checker, CheckerModel, LspModel};
use crate::exports::{entry_names, table_names};
use crate::header_convert::{
    header_scheme, header_scheme_grows, name_source, registration_scope, typed, typed_fields,
    fields_grow, typed_grows, var_state, with_next, HeaderRegistrationScope, NameSource, VarState,
};
use crate::header_decls::{
    ConstructorFieldModel, ConstructorModel, FunctionModel, HeaderConstructor,
    HeaderConstructorField, HeaderFunction, HeaderModel, HeaderRecordDecl, HeaderTypeDecl,
    HeaderTypeParam, ModuleHeader, RecordDeclModel, TypeDeclModel, TypeParamModel,
};
use crate::header_lsp::{
    active_header_lsp_info, with_module_infos, HeaderLspInfo, HeaderLspModel,
};
use crate::header_syntax::HeaderTy;
use crate::infos::{RecordInfo, RecordModel};
use crate::schemes::{AliasModel, EnvModel, Scheme, SchemeModel, TypeAliasInfo, TypeEnv};
use crate::scope::ScopeModel;
use crate::seqs::{add_new, add_new_contains, add_new_one, push_new};
use crate::table::{at_key, distinct_keys, has_key, put, put_new, put_then_get, Table};
use crate::text::{dot_join, dotted};
use crate::token::Span;
use crate::traits::key_is_put;
use crate::type_decls::{con_of_vars, con_type, ctor_type, ids_of, var_id_list};
use crate::type_ops::arrow_ty;
use crate::types::{Row, Ty, Type, group_type_models};
use crate::values::{push_value, Dup};

verus! {

/// How far a registration has come: the state, and the next variable, which may be
/// more than there are.
#[verifier::ext_equal]
pub struct Progress {
    pub c: CheckerModel,
    pub next: nat,
}

/// The start of a registration.
pub open spec fn progress(c: CheckerModel) -> Progress {
    Progress { c, next: c.next_var as nat }
}

/// The kinds of the parameters of a type.
pub open spec fn param_kinds(params: Seq<TypeParamModel>) -> Seq<Kind> {
    params.map_values(|p: TypeParamModel| p.kind)
}

pub fn header_type_param_kinds(params: &Vec<HeaderTypeParam>) -> (r: Vec<Kind>)
    ensures
        r.deep_view() == param_kinds(params.deep_view()),
{
    let mut out: Vec<Kind> = Vec::new();
    let mut i: usize = 0;
    while i < params.len()
        invariant
            i <= params.len(),
            out.len() == i,
            forall|j: int|
                0 <= j < i ==> #[trigger] out.deep_view()[j] == params.deep_view()[j].kind,
        decreases params.len() - i,
    {
        push_value(&mut out, params[i].kind);
        i = i + 1;
    }
    assert(out.deep_view() =~= param_kinds(params.deep_view()));
    out
}

/// The parameters of a type with the variables that stand for them.
pub open spec fn header_param_vars(
    params: Seq<TypeParamModel>,
    next: nat,
) -> Seq<(Seq<char>, u32)> {
    Seq::new(params.len(), |i: int| (params[i].name, (next + i) as u32))
}

/// The kinds of variables with those of the parameters of a type.
pub open spec fn with_param_kinds(
    kinds: Seq<(u32, Kind)>,
    params: Seq<TypeParamModel>,
    next: nat,
) -> Seq<(u32, Kind)>
    decreases params.len(),
{
    if params.len() == 0 {
        kinds
    } else {
        put(
            with_param_kinds(kinds, params.drop_last(), next),
            (next + params.len() - 1) as u32,
            params.last().kind,
        )
    }
}

/// The variables that a type declaration starts with.
pub open spec fn params_state(params: Seq<TypeParamModel>, next: nat) -> VarState {
    VarState { vars: header_param_vars(params, next), next: next + params.len() }
}

/// The state with variables for the parameters of a type.
pub open spec fn with_param_vars(p: Progress, params: Seq<TypeParamModel>) -> CheckerModel {
    CheckerModel {
        var_kinds: with_param_kinds(p.c.var_kinds, params, p.next),
        next_var: (p.next + params.len()) as u32,
        ..p.c
    }
}

impl Checker {
    /// Fresh variables for the parameters of a type.
    pub fn header_type_param_vars(
        &mut self,
        params: &Vec<HeaderTypeParam>,
    ) -> (r: Vec<(String, u32)>)
        requires
            old(self).next_var + params.len() <= u32::MAX,
        ensures
            r.deep_view() == header_param_vars(params.deep_view(), old(self).next_var as nat),
            final(self).deep_view() == with_param_vars(
                progress(old(self).deep_view()),
                params.deep_view(),
            ),
    {
        let ghost c0 = self.deep_view();
        let ghost all = params.deep_view();
        assert(all.len() == params.len());
        let mut out: Vec<(String, u32)> = Vec::new();
        let mut i: usize = 0;
        assert(all.take(0) =~= Seq::empty());
        while i < params.len()
            invariant
                i <= params.len(),
                all == params.deep_view(),
                all.len() == params.len(),
                c0.next_var + params.len() <= u32::MAX,
                self.deep_view() == with_param_vars(progress(c0), all.take(i as int)),
                out.len() == i,
                forall|j: int|
                    0 <= j < i ==> #[trigger] out.deep_view()[j] == (
                        all[j].name,
                        (c0.next_var + j) as u32,
                    ),
            decreases params.len() - i,
        {
            proof {
                assert(all.take(i + 1).drop_last() =~= all.take(i as int));
                assert(all.take(i + 1).last() == all[i as int]);
                assert(all[i as int] == params@[i as int].deep_view());
            }
            let id = self.fresh_var_of_kind(params[i].kind);
            push_value(&mut out, (params[i].name.clone(), id));
            i = i + 1;
        }
        assert(all.take(i as int) =~= all);
        assert(out.deep_view() =~= header_param_vars(all, c0.next_var as nat));
        out
    }
}

/// The environment with a binding, unless the name is bound already.
pub open spec fn env_with_new(
    env: EnvModel,
    name: Seq<char>,
    scheme: SchemeModel,
    def: Option<NodeId>,
) -> EnvModel {
    if has_key(env.bindings, name) {
        env
    } else {
        with_env_binding(env, name, scheme, def)
    }
}

impl TypeEnv {
    /// Binds a name that is not bound yet.
    pub fn entry_insert(&mut self, name: String, scheme: Scheme)
        ensures
            final(self)@ == env_with_new(old(self)@, name@, scheme.deep_view(), None),
    {
        if self.get(name.as_str()).is_none() {
            self.insert(name, scheme);
        }
    }

    /// Binds a name that is not bound yet and keeps where it is defined.
    pub fn entry_insert_with_def(&mut self, name: String, scheme: Scheme, def_id: NodeId)
        ensures
            final(self)@ == env_with_new(old(self)@, name@, scheme.deep_view(), Some(def_id)),
    {
        if self.get(name.as_str()).is_none() {
            self.insert_with_def(name, scheme, def_id);
        }
    }
}

/// Where a constructor is declared, if that is known.
pub open spec fn ctor_def(lsp: Option<HeaderLspModel>, name: Seq<char>) -> Option<NodeId> {
    match lsp {
        Some(info) => match at_key(info.constructors, name) {
            Some(place) => Some(place.0),
            None => None,
        },
        None => None,
    }
}

/// Where a function is declared, if that is known.
pub open spec fn fun_def(lsp: Option<HeaderLspModel>, name: Seq<char>) -> Option<NodeId> {
    match lsp {
        Some(info) => match at_key(info.defs, name) {
            Some(place) => Some(place.0),
            None => None,
        },
        None => None,
    }
}

fn find_ctor_def(lsp: Option<&HeaderLspInfo>, name: &str) -> (r: Option<NodeId>)
    ensures
        r == ctor_def(lsp.deep_view(), name@),
{
    match lsp {
        Some(info) => match info.constructors.named(name) {
            Some(place) => Some(place.0),
            None => None,
        },
        None => None,
    }
}

fn find_fun_def(lsp: Option<&HeaderLspInfo>, name: &str) -> (r: Option<NodeId>)
    ensures
        r == fun_def(lsp.deep_view(), name@),
{
    match lsp {
        Some(info) => match info.defs.named(name) {
            Some(place) => Some(place.0),
            None => None,
        },
        None => None,
    }
}

/// The state with a constructor under its canonical name, unless it is known.
pub open spec fn with_own_ctor(
    c: CheckerModel,
    canonical: Seq<char>,
    scheme: SchemeModel,
    def: Option<NodeId>,
) -> CheckerModel {
    CheckerModel {
        constructors: put_new(c.constructors, canonical, scheme),
        lsp: LspModel {
            constructor_def_ids: match def {
                Some(id) => put_new(c.lsp.constructor_def_ids, canonical, id),
                None => c.lsp.constructor_def_ids,
            },
            ..c.lsp
        },
        env: env_with_new(c.env, canonical, scheme, def),
        ..c
    }
}

/// The type of a constructor, whose fields are taken from the last to the first.
pub open spec fn header_ctor_type(
    k: NameSource,
    fields: Seq<ConstructorFieldModel>,
    result: Ty,
    s: VarState,
) -> (Ty, VarState)
    decreases fields.len(),
{
    if fields.len() == 0 {
        (result, s)
    } else {
        let t = typed(k, fields.last().ty, s);
        header_ctor_type(k, fields.drop_last(), arrow_ty(t.0, result), t.1)
    }
}

proof fn header_ctor_type_grows(
    k: NameSource,
    fields: Seq<ConstructorFieldModel>,
    result: Ty,
    s: VarState,
)
    ensures
        s.next <= header_ctor_type(k, fields, result, s).1.next,
    decreases fields.len(),
{
    if fields.len() > 0 {
        let t = typed(k, fields.last().ty, s);
        typed_grows(k, fields.last().ty, s);
        header_ctor_type_grows(k, fields.drop_last(), arrow_ty(t.0, result), t.1);
    }
}

/// How far the constructors of a type have come.
#[verifier::ext_equal]
pub struct CtorProgress {
    pub c: CheckerModel,
    pub s: VarState,
}

/// The state with a constructor of a header.
pub open spec fn with_header_ctor(
    k: NameSource,
    module: Seq<char>,
    lsp: Option<HeaderLspModel>,
    forall_vars: Seq<u32>,
    result: Ty,
    p: CtorProgress,
    ctor: ConstructorModel,
) -> CtorProgress {
    let t = header_ctor_type(k, ctor.fields, result, p.s);
    CtorProgress {
        c: with_own_ctor(
            with_next(p.c, t.1),
            dotted(module, ctor.name),
            SchemeModel { forall: forall_vars, constraints: Seq::empty(), ty: t.0 },
            ctor_def(lsp, ctor.name),
        ),
        s: t.1,
    }
}

pub open spec fn with_header_ctors(
    k: NameSource,
    module: Seq<char>,
    lsp: Option<HeaderLspModel>,
    forall_vars: Seq<u32>,
    result: Ty,
    acc: CtorProgress,
    items: Seq<ConstructorModel>,
) -> CtorProgress
    decreases items.len(),
{
    if items.len() == 0 {
        acc
    } else {
        with_header_ctor(
            k,
            module,
            lsp,
            forall_vars,
            result,
            with_header_ctors(k, module, lsp, forall_vars, result, acc, items.drop_last()),
            items.last(),
        )
    }
}

proof fn with_header_ctors_grow(
    k: NameSource,
    module: Seq<char>,
    lsp: Option<HeaderLspModel>,
    forall_vars: Seq<u32>,
    result: Ty,
    acc: CtorProgress,
    items: Seq<ConstructorModel>,
)
    ensures
        acc.s.next <= with_header_ctors(k, module, lsp, forall_vars, result, acc, items).s.next,
    decreases items.len(),
{
    if items.len() > 0 {
        with_header_ctors_grow(k, module, lsp, forall_vars, result, acc, items.drop_last());
        header_ctor_type_grows(
            k,
            items.last().fields,
            result,
            with_header_ctors(k, module, lsp, forall_vars, result, acc, items.drop_last()).s,
        );
    }
}

proof fn with_header_ctors_within(
    k: NameSource,
    module: Seq<char>,
    lsp: Option<HeaderLspModel>,
    forall_vars: Seq<u32>,
    result: Ty,
    acc: CtorProgress,
    items: Seq<ConstructorModel>,
    n: int,
)
    requires
        0 <= n <= items.len(),
    ensures
        with_header_ctors(
            k,
            module,
            lsp,
            forall_vars,
            result,
            acc,
            items.take(n),
        ).s.next <= with_header_ctors(
            k, module, lsp, forall_vars, result, acc, items).s.next,
    decreases items.len(),
{
    if n < items.len() {
        assert(items.drop_last().take(n) =~= items.take(n));
        with_header_ctors_within(k, module, lsp, forall_vars, result, acc, items.drop_last(), n);
        header_ctor_type_grows(
            k,
            items.last().fields,
            result,
            with_header_ctors(k, module, lsp, forall_vars, result, acc, items.drop_last()).s,
        );
    } else {
        assert(items.take(n) =~= items);
    }
}

/// The constructors of a type under their canonical names, with their numbers of
/// fields.
pub open spec fn header_variants(module: Seq<char>, ctors: Seq<ConstructorModel>) -> Seq<(
    Seq<char>,
    usize,
)> {
    ctors.map_values(|c: ConstructorModel| (dotted(module, c.name), c.fields.len() as usize))
}

/// The state with a type of a header. The constructors of an opaque type are not
/// told.
pub open spec fn with_header_type(
    k: NameSource,
    module: Seq<char>,
    lsp: Option<HeaderLspModel>,
    p: Progress,
    decl: (Seq<char>, TypeDeclModel),
) -> Progress {
    match decl.1 {
        TypeDeclModel::Adt { opaque, type_params, constructors, .. } => {
            let s = params_state(type_params, p.next);
            let canonical = dotted(module, decl.0);
            let shown = if opaque {
                Seq::empty()
            } else {
                constructors
            };
            let done = with_header_ctors(
                k,
                module,
                lsp,
                ids_of(s.vars),
                con_of_vars(canonical, ids_of(s.vars)),
                CtorProgress { c: with_param_vars(p, type_params), s },
                shown,
            );
            Progress {
                c: CheckerModel {
                    adt_variants: put_new(
                        done.c.adt_variants,
                        canonical,
                        header_variants(module, shown),
                    ),
                    ..done.c
                },
                next: done.s.next,
            }
        },
        TypeDeclModel::Alias { .. } => p,
    }
}

proof fn with_header_type_grows(
    k: NameSource,
    module: Seq<char>,
    lsp: Option<HeaderLspModel>,
    p: Progress,
    decl: (Seq<char>, TypeDeclModel),
)
    ensures
        p.next <= with_header_type(k, module, lsp, p, decl).next,
{
    if let TypeDeclModel::Adt { opaque, type_params, constructors, .. } = decl.1 {
        let s = params_state(type_params, p.next);
        with_header_ctors_grow(
            k,
            module,
            lsp,
            ids_of(s.vars),
            con_of_vars(dotted(module, decl.0), ids_of(s.vars)),
            CtorProgress { c: with_param_vars(p, type_params), s },
            if opaque {
                Seq::empty()
            } else {
                constructors
            },
        );
    }
}

pub open spec fn with_header_types(
    k: NameSource,
    module: Seq<char>,
    lsp: Option<HeaderLspModel>,
    acc: Progress,
    items: Seq<(Seq<char>, TypeDeclModel)>,
) -> Progress
    decreases items.len(),
{
    if items.len() == 0 {
        acc
    } else {
        with_header_type(
            k,
            module,
            lsp,
            with_header_types(k, module, lsp, acc, items.drop_last()),
            items.last(),
        )
    }
}

proof fn with_header_types_grow(
    k: NameSource,
    module: Seq<char>,
    lsp: Option<HeaderLspModel>,
    acc: Progress,
    items: Seq<(Seq<char>, TypeDeclModel)>,
)
    ensures
        acc.next <= with_header_types(k, module, lsp, acc, items).next,
    decreases items.len(),
{
    if items.len() > 0 {
        with_header_types_grow(k, module, lsp, acc, items.drop_last());
        with_header_type_grows(
            k,
            module,
            lsp,
            with_header_types(k, module, lsp, acc, items.drop_last()),
            items.last(),
        );
    }
}

proof fn with_header_types_within(
    k: NameSource,
    module: Seq<char>,
    lsp: Option<HeaderLspModel>,
    acc: Progress,
    items: Seq<(Seq<char>, TypeDeclModel)>,
    n: int,
)
    requires
        0 <= n <= items.len(),
    ensures
        with_header_types(
            k,
            module,
            lsp,
            acc,
            items.take(n),
        ).next <= with_header_types(k, module, lsp, acc, items).next,
    decreases items.len(),
{
    if n < items.len() {
        assert(items.drop_last().take(n) =~= items.take(n));
        with_header_types_within(k, module, lsp, acc, items.drop_last(), n);
        with_header_type_grows(
            k,
            module,
            lsp,
            with_header_types(k, module, lsp, acc, items.drop_last()),
            items.last(),
        );
    } else {
        assert(items.take(n) =~= items);
    }
}

/// The state with a record of a header.
pub open spec fn with_header_record(
    k: NameSource,
    module: Seq<char>,
    lsp: Option<HeaderLspModel>,
    p: Progress,
    decl: (Seq<char>, RecordDeclModel),
) -> Progress {
    let s = params_state(decl.1.type_params, p.next);
    let fields = typed_fields(k, decl.1.fields, s);
    let canonical = dotted(module, decl.0);
    let c = with_next(with_param_vars(p, decl.1.type_params), fields.1);
    let known = with_own_ctor(
        CheckerModel {
            records: put_new(
                c.records,
                canonical,
                RecordModel { type_params: ids_of(s.vars), fields: fields.0 },
            ),
            ..c
        },
        canonical,
        SchemeModel {
            forall: ids_of(s.vars),
            constraints: Seq::empty(),
            ty: ctor_type(
                fields.0.map_values(|f: (Seq<char>, Ty)| crate::header_convert::field_type(f)),
                con_of_vars(canonical, ids_of(s.vars)),
            ),
        },
        ctor_def(lsp, decl.0),
    );
    Progress {
        c: CheckerModel {
            adt_variants: put_new(
                known.adt_variants,
                canonical,
                seq![(canonical, fields.0.len() as usize)],
            ),
            ..known
        },
        next: fields.1.next,
    }
}

proof fn with_header_record_grows(
    k: NameSource,
    module: Seq<char>,
    lsp: Option<HeaderLspModel>,
    p: Progress,
    decl: (Seq<char>, RecordDeclModel),
)
    ensures
        p.next <= with_header_record(k, module, lsp, p, decl).next,
{
    fields_grow(k, decl.1.fields, params_state(decl.1.type_params, p.next));
}

pub open spec fn with_header_records(
    k: NameSource,
    module: Seq<char>,
    lsp: Option<HeaderLspModel>,
    acc: Progress,
    items: Seq<(Seq<char>, RecordDeclModel)>,
) -> Progress
    decreases items.len(),
{
    if items.len() == 0 {
        acc
    } else {
        with_header_record(
            k,
            module,
            lsp,
            with_header_records(k, module, lsp, acc, items.drop_last()),
            items.last(),
        )
    }
}

proof fn with_header_records_grow(
    k: NameSource,
    module: Seq<char>,
    lsp: Option<HeaderLspModel>,
    acc: Progress,
    items: Seq<(Seq<char>, RecordDeclModel)>,
)
    ensures
        acc.next <= with_header_records(k, module, lsp, acc, items).next,
    decreases items.len(),
{
    if items.len() > 0 {
        with_header_records_grow(k, module, lsp, acc, items.drop_last());
        with_header_record_grows(
            k,
            module,
            lsp,
            with_header_records(k, module, lsp, acc, items.drop_last()),
            items.last(),
        );
    }
}

proof fn with_header_records_within(
    k: NameSource,
    module: Seq<char>,
    lsp: Option<HeaderLspModel>,
    acc: Progress,
    items: Seq<(Seq<char>, RecordDeclModel)>,
    n: int,
)
    requires
        0 <= n <= items.len(),
    ensures
        with_header_records(
            k,
            module,
            lsp,
            acc,
            items.take(n),
        ).next <= with_header_records(k, module, lsp, acc, items).next,
    decreases items.len(),
{
    if n < items.len() {
        assert(items.drop_last().take(n) =~= items.take(n));
        with_header_records_within(k, module, lsp, acc, items.drop_last(), n);
        with_header_record_grows(
            k,
            module,
            lsp,
            with_header_records(k, module, lsp, acc, items.drop_last()),
            items.last(),
        );
    } else {
        assert(items.take(n) =~= items);
    }
}

/// The state with a public alias of a header.
pub open spec fn with_header_alias(
    k: NameSource,
    module: Seq<char>,
    p: Progress,
    decl: (Seq<char>, TypeDeclModel),
) -> Progress {
    match decl.1 {
        TypeDeclModel::Alias { public: true, type_params, body } => {
            let s = params_state(type_params, p.next);
            let t = typed(k, body, s);
            let c = with_next(with_param_vars(p, type_params), t.1);
            Progress {
                c: CheckerModel {
                    type_aliases: put_new(
                        c.type_aliases,
                        dotted(module, decl.0),
                        AliasModel {
                            param_vars: ids_of(s.vars),
                            param_kinds: param_kinds(type_params),
                            body: t.0,
                            span: Span { start: 0, end: 0 },
                        },
                    ),
                    ..c
                },
                next: t.1.next,
            }
        },
        _ => p,
    }
}

proof fn with_header_alias_grows(
    k: NameSource,
    module: Seq<char>,
    p: Progress,
    decl: (Seq<char>, TypeDeclModel),
)
    ensures
        p.next <= with_header_alias(k, module, p, decl).next,
{
    if let TypeDeclModel::Alias { type_params, body, .. } = decl.1 {
        typed_grows(k, body, params_state(type_params, p.next));
    }
}

pub open spec fn with_header_aliases(
    k: NameSource,
    module: Seq<char>,
    acc: Progress,
    items: Seq<(Seq<char>, TypeDeclModel)>,
) -> Progress
    decreases items.len(),
{
    if items.len() == 0 {
        acc
    } else {
        with_header_alias(
            k,
            module,
            with_header_aliases(k, module, acc, items.drop_last()),
            items.last(),
        )
    }
}

proof fn with_header_aliases_grow(
    k: NameSource,
    module: Seq<char>,
    acc: Progress,
    items: Seq<(Seq<char>, TypeDeclModel)>,
)
    ensures
        acc.next <= with_header_aliases(k, module, acc, items).next,
    decreases items.len(),
{
    if items.len() > 0 {
        with_header_aliases_grow(k, module, acc, items.drop_last());
        with_header_alias_grows(
            k,
            module,
            with_header_aliases(k, module, acc, items.drop_last()),
            items.last(),
        );
    }
}

proof fn with_header_aliases_within(
    k: NameSource,
    module: Seq<char>,
    acc: Progress,
    items: Seq<(Seq<char>, TypeDeclModel)>,
    n: int,
)
    requires
        0 <= n <= items.len(),
    ensures
        with_header_aliases(
            k,
            module,
            acc,
            items.take(n),
        ).next <= with_header_aliases(k, module, acc, items).next,
    decreases items.len(),
{
    if n < items.len() {
        assert(items.drop_last().take(n) =~= items.take(n));
        with_header_aliases_within(k, module, acc, items.drop_last(), n);
        with_header_alias_grows(
            k,
            module,
            with_header_aliases(k, module, acc, items.drop_last()),
            items.last(),
        );
    } else {
        assert(items.take(n) =~= items);
    }
}

/// Whether a type has a function with effects in it.
pub open spec fn has_effects(t: Ty) -> bool
    decreases t,
{
    match t {
        Ty::Fun(a, b, row) => {
            ||| row != Row { effects: Seq::empty(), tails: Seq::empty() }
            ||| has_effects(*a)
            ||| has_effects(*b)
        },
        Ty::Con(_, args) => any_has_effects(args),
        Ty::Record(fields) => any_field_has_effects(fields),
        _ => false,
    }
}

pub open spec fn any_has_effects(ts: Seq<Ty>) -> bool
    decreases ts,
{
    ts.len() > 0 && (any_has_effects(ts.drop_last()) || has_effects(ts.last()))
}

pub open spec fn any_field_has_effects(fields: Seq<(Seq<char>, Ty)>) -> bool
    decreases fields,
{
    fields.len() > 0 && (any_field_has_effects(fields.drop_last()) || has_effects(fields.last().1))
}

/// Whether a type has a function with effects in it.
pub fn type_contains_effects(ty: &Type) -> (r: bool)
    ensures
        r == has_effects(ty@),
    decreases ty,
{
    broadcast use group_type_models;

    match ty {
        Type::Fun(a, b, row) => {
            !row.is_empty() || type_contains_effects(a) || type_contains_effects(b)
        },
        Type::Con(_, args) => any_contains_effects(args),
        Type::Record(fields) => any_field_contains_effects(fields),
        _ => false,
    }
}

fn any_contains_effects(ts: &Vec<Type>) -> (r: bool)
    ensures
        r == any_has_effects(ts.deep_view()),
    decreases ts,
{
    let ghost all = ts.deep_view();
    let mut found = false;
    let mut i: usize = 0;
    assert(all.take(0) =~= Seq::empty());
    while i < ts.len()
        invariant
            i <= ts.len(),
            all == ts.deep_view(),
            found == any_has_effects(all.take(i as int)),
        decreases ts.len() - i,
    {
        proof {
            assert(all.take(i + 1).drop_last() =~= all.take(i as int));
            assert(all.take(i + 1).last() == all[i as int]);
            assert(all[i as int] == ts@[i as int]@);
        }
        found = found || type_contains_effects(&ts[i]);
        i = i + 1;
    }
    assert(all.take(i as int) =~= all);
    found
}

fn any_field_contains_effects(fields: &Vec<(String, Type)>) -> (r: bool)
    ensures
        r == any_field_has_effects(fields.deep_view()),
    decreases fields,
{
    let ghost all = fields.deep_view();
    let mut found = false;
    let mut i: usize = 0;
    assert(all.take(0) =~= Seq::empty());
    while i < fields.len()
        invariant
            i <= fields.len(),
            all == fields.deep_view(),
            found == any_field_has_effects(all.take(i as int)),
        decreases fields.len() - i,
    {
        proof {
            assert(all.take(i + 1).drop_last() =~= all.take(i as int));
            assert(all.take(i + 1).last() == all[i as int]);
            assert(all[i as int] == fields@[i as int].deep_view());
        }
        found = found || type_contains_effects(&fields[i].1);
        i = i + 1;
    }
    assert(all.take(i as int) =~= all);
    found
}

/// The state with a public function of a header.
pub open spec fn with_header_function(
    k: NameSource,
    module: Seq<char>,
    lsp: Option<HeaderLspModel>,
    p: Progress,
    f: (Seq<char>, FunctionModel),
) -> Progress {
    if f.1.public {
        let s = header_scheme(k, f.1, p.next);
        let canonical = dotted(module, f.0);
        Progress {
            c: CheckerModel {
                next_var: s.1 as u32,
                known_funs: if has_effects(s.0.ty) {
                    add_new(p.c.known_funs, seq![canonical])
                } else {
                    p.c.known_funs
                },
                env: env_with_new(p.c.env, canonical, s.0, fun_def(lsp, f.0)),
                ..p.c
            },
            next: s.1,
        }
    } else {
        p
    }
}

proof fn with_header_function_grows(
    k: NameSource,
    module: Seq<char>,
    lsp: Option<HeaderLspModel>,
    p: Progress,
    f: (Seq<char>, FunctionModel),
)
    ensures
        p.next <= with_header_function(k, module, lsp, p, f).next,
{
    header_scheme_grows(k, f.1, p.next);
}

pub open spec fn with_header_functions(
    k: NameSource,
    module: Seq<char>,
    lsp: Option<HeaderLspModel>,
    acc: Progress,
    items: Seq<(Seq<char>, FunctionModel)>,
) -> Progress
    decreases items.len(),
{
    if items.len() == 0 {
        acc
    } else {
        with_header_function(
            k,
            module,
            lsp,
            with_header_functions(k, module, lsp, acc, items.drop_last()),
            items.last(),
        )
    }
}

proof fn with_header_functions_grow(
    k: NameSource,
    module: Seq<char>,
    lsp: Option<HeaderLspModel>,
    acc: Progress,
    items: Seq<(Seq<char>, FunctionModel)>,
)
    ensures
        acc.next <= with_header_functions(k, module, lsp, acc, items).next,
    decreases items.len(),
{
    if items.len() > 0 {
        with_header_functions_grow(k, module, lsp, acc, items.drop_last());
        with_header_function_grows(
            k,
            module,
            lsp,
            with_header_functions(k, module, lsp, acc, items.drop_last()),
            items.last(),
        );
    }
}

proof fn with_header_functions_within(
    k: NameSource,
    module: Seq<char>,
    lsp: Option<HeaderLspModel>,
    acc: Progress,
    items: Seq<(Seq<char>, FunctionModel)>,
    n: int,
)
    requires
        0 <= n <= items.len(),
    ensures
        with_header_functions(
            k,
            module,
            lsp,
            acc,
            items.take(n),
        ).next <= with_header_functions(k, module, lsp, acc, items).next,
    decreases items.len(),
{
    if n < items.len() {
        assert(items.drop_last().take(n) =~= items.take(n));
        with_header_functions_within(k, module, lsp, acc, items.drop_last(), n);
        with_header_function_grows(
            k,
            module,
            lsp,
            with_header_functions(k, module, lsp, acc, items.drop_last()),
            items.last(),
        );
    } else {
        assert(items.take(n) =~= items);
    }
}

impl Checker {
    fn add_own_ctor(&mut self, canonical: String, scheme: Scheme, def: Option<NodeId>)
        ensures
            final(self).deep_view() == with_own_ctor(
                old(self).deep_view(),
                canonical@,
                scheme.deep_view(),
                def,
            ),
    {
        self.constructors.insert_if_absent(canonical.clone(), scheme.dup());
        match def {
            Some(id) => {
                self.lsp.constructor_def_ids.insert_if_absent(canonical.clone(), id);
                self.env.entry_insert_with_def(canonical, scheme, id);
            },
            None => {
                self.env.entry_insert(canonical, scheme);
            },
        }
    }

    fn header_ctor(
        &mut self,
        fields: &Vec<HeaderConstructorField>,
        result: Type,
        params: &mut Vec<(String, u32)>,
        scope: &HeaderRegistrationScope,
    ) -> (r: Type)
        requires
            header_ctor_type(
                name_source(old(self).deep_view(), scope.deep_view()),
                fields.deep_view(),
                result@,
                var_state(old(self).deep_view(), old(params).deep_view()),
            ).1.next <= u32::MAX,
        ensures
            ({
                let t = header_ctor_type(
                    name_source(old(self).deep_view(), scope.deep_view()),
                    fields.deep_view(),
                    result@,
                    var_state(old(self).deep_view(), old(params).deep_view()),
                );
                &&& r@ == t.0
                &&& final(params).deep_view() == t.1.vars
                &&& final(self).deep_view() == with_next(old(self).deep_view(), t.1)
            }),
    {
        let ghost c0 = self.deep_view();
        let ghost k = name_source(c0, scope.deep_view());
        let ghost all = fields.deep_view();
        let ghost t0 = header_ctor_type(k, all, result@, var_state(c0, params.deep_view()));
        let mut ty = result;
        let mut n: usize = fields.len();
        assert(all.take(n as int) =~= all);
        while n > 0
            invariant
                n <= fields.len(),
                all == fields.deep_view(),
                k == name_source(c0, scope.deep_view()),
                t0.1.next <= u32::MAX,
                header_ctor_type(
                    k,
                    all.take(n as int),
                    ty@,
                    var_state(self.deep_view(), params.deep_view()),
                ) == t0,
                self.deep_view() == (CheckerModel { next_var: self.next_var, ..c0 }),
            decreases n,
        {
            n = n - 1;
            proof {
                let s = var_state(self.deep_view(), params.deep_view());
                let t = typed(k, all[n as int].ty, s);
                assert(all.take(n + 1).drop_last() =~= all.take(n as int));
                assert(all.take(n + 1).last() == all[n as int]);
                assert(all[n as int] == fields@[n as int].deep_view());
                header_ctor_type_grows(k, all.take(n as int), arrow_ty(t.0, ty@), t.1);
            }
            let field = self.header_type_expr_to_type(&fields[n].ty, params, scope);
            ty = Type::arrow(field, ty);
        }
        ty
    }

    fn register_header_ctors(
        &mut self,
        module: &str,
        lsp: Option<&HeaderLspInfo>,
        forall_vars: &Vec<u32>,
        result: &Type,
        params: &mut Vec<(String, u32)>,
        scope: &HeaderRegistrationScope,
        items: &Vec<HeaderConstructor>,
    ) -> (r: Vec<(String, usize)>)
        requires
            with_header_ctors(
                name_source(old(self).deep_view(), scope.deep_view()),
                module@,
                lsp.deep_view(),
                forall_vars@,
                result@,
                CtorProgress {
                    c: old(self).deep_view(),
                    s: var_state(old(self).deep_view(), old(params).deep_view()),
                },
                items.deep_view(),
            ).s.next <= u32::MAX,
        ensures
            r.deep_view() == header_variants(module@, items.deep_view()),
            ({
                let done = with_header_ctors(
                    name_source(old(self).deep_view(), scope.deep_view()),
                    module@,
                    lsp.deep_view(),
                    forall_vars@,
                    result@,
                    CtorProgress {
                        c: old(self).deep_view(),
                        s: var_state(old(self).deep_view(), old(params).deep_view()),
                    },
                    items.deep_view(),
                );
                &&& final(self).deep_view() == done.c
                &&& final(self).next_var == done.s.next
            }),
    {
        let ghost c0 = self.deep_view();
        let ghost k = name_source(c0, scope.deep_view());
        let ghost p0 = CtorProgress { c: c0, s: var_state(c0, params.deep_view()) };
        let ghost all = items.deep_view();
        let ghost info = lsp.deep_view();
        let mut variants: Vec<(String, usize)> = Vec::new();
        let mut i: usize = 0;
        assert(all.take(0) =~= Seq::empty());
        while i < items.len()
            invariant
                i <= items.len(),
                all == items.deep_view(),
                info == lsp.deep_view(),
                k == name_source(c0, scope.deep_view()),
                self.scope_map.deep_view() == c0.scope_map,
                with_header_ctors(k, module@, info, forall_vars@, result@, p0, all).s.next
                    <= u32::MAX,
                self.deep_view() == with_header_ctors(
                    k,
                    module@,
                    info,
                    forall_vars@,
                    result@,
                    p0,
                    all.take(i as int),
                ).c,
                self.next_var == with_header_ctors(
                    k,
                    module@,
                    info,
                    forall_vars@,
                    result@,
                    p0,
                    all.take(i as int),
                ).s.next,
                params.deep_view() == with_header_ctors(
                    k,
                    module@,
                    info,
                    forall_vars@,
                    result@,
                    p0,
                    all.take(i as int),
                ).s.vars,
                variants.len() == i,
                forall|j: int|
                    0 <= j < i ==> #[trigger] variants.deep_view()[j] == header_variants(
                        module@,
                        all,
                    )[j],
            decreases items.len() - i,
        {
            proof {
                assert(all.take(i + 1).drop_last() =~= all.take(i as int));
                assert(all.take(i + 1).last() == all[i as int]);
                assert(all[i as int] == items@[i as int].deep_view());
                with_header_ctors_within(
                    k,
                    module@,
                    info,
                    forall_vars@,
                    result@,
                    p0,
                    all,
                    i + 1,
                );
            }
            let ctor = &items[i];
            assert(ctor.fields.deep_view().len() == ctor.fields.len());
            assert(name_source(self.deep_view(), scope.deep_view()) == k);
            let ty = self.header_ctor(&ctor.fields, result.dup(), params, scope);
            let none: Vec<(String, u32, Vec<Type>)> = Vec::new();
            assert(none.deep_view() =~= Seq::empty());
            let scheme = Scheme { forall: forall_vars.dup(), constraints: none, ty };
            assert(scheme.forall.deep_view() =~= forall_vars@);
            let canonical = dot_join(module, ctor.name.as_str());
            let def = find_ctor_def(lsp, ctor.name.as_str());
            self.add_own_ctor(canonical.clone(), scheme, def);
            push_value(&mut variants, (canonical, ctor.fields.len()));
            i = i + 1;
        }
        assert(all.take(i as int) =~= all);
        assert(variants.deep_view() =~= header_variants(module@, all));
        variants
    }

    fn register_header_type(
        &mut self,
        module: &str,
        lsp: Option<&HeaderLspInfo>,
        scope: &HeaderRegistrationScope,
        name: &str,
        decl: &HeaderTypeDecl,
    )
        requires
            with_header_type(
                name_source(old(self).deep_view(), scope.deep_view()),
                module@,
                lsp.deep_view(),
                progress(old(self).deep_view()),
                (name@, decl.deep_view()),
            ).next <= u32::MAX,
        ensures
            ({
                let p = with_header_type(
                    name_source(old(self).deep_view(), scope.deep_view()),
                    module@,
                    lsp.deep_view(),
                    progress(old(self).deep_view()),
                    (name@, decl.deep_view()),
                );
                &&& final(self).deep_view() == p.c
                &&& final(self).next_var == p.next
            }),
    {
        if let HeaderTypeDecl::Adt { opaque, type_params, constructors, .. } = decl {
            let ghost c0 = self.deep_view();
            let ghost k = name_source(c0, scope.deep_view());
            let canonical = dot_join(module, name);
            let ghost shown = if *opaque {
                Seq::empty()
            } else {
                constructors.deep_view()
            };
            assert(type_params.deep_view().len() == type_params.len());
            proof {
                let s = params_state(type_params.deep_view(), c0.next_var as nat);
                with_header_ctors_grow(
                    k,
                    module@,
                    lsp.deep_view(),
                    ids_of(s.vars),
                    con_of_vars(canonical@, ids_of(s.vars)),
                    CtorProgress {
                        c: with_param_vars(progress(c0), type_params.deep_view()),
                        s,
                    },
                    shown,
                );
            }
            let mut params = self.header_type_param_vars(type_params);
            let ids = var_id_list(&params);
            let result = con_type(canonical.as_str(), &ids);
            let variants = if *opaque {
                let none: Vec<(String, usize)> = Vec::new();
                assert(none.deep_view() =~= header_variants(module@, shown));
                none
            } else {
                self.register_header_ctors(
                    module,
                    lsp,
                    &ids,
                    &result,
                    &mut params,
                    scope,
                    constructors,
                )
            };
            self.adt_variants.insert_if_absent(canonical, variants);
        }
    }

    fn register_header_record(
        &mut self,
        module: &str,
        lsp: Option<&HeaderLspInfo>,
        scope: &HeaderRegistrationScope,
        name: &str,
        record: &HeaderRecordDecl,
    )
        requires
            with_header_record(
                name_source(old(self).deep_view(), scope.deep_view()),
                module@,
                lsp.deep_view(),
                progress(old(self).deep_view()),
                (name@, record.deep_view()),
            ).next <= u32::MAX,
        ensures
            ({
                let p = with_header_record(
                    name_source(old(self).deep_view(), scope.deep_view()),
                    module@,
                    lsp.deep_view(),
                    progress(old(self).deep_view()),
                    (name@, record.deep_view()),
                );
                &&& final(self).deep_view() == p.c
                &&& final(self).next_var == p.next
            }),
    {
        let ghost c0 = self.deep_view();
        let ghost k = name_source(c0, scope.deep_view());
        assert(record.type_params.deep_view().len() == record.type_params.len());
        proof {
            fields_grow(
                k,
                record.fields.deep_view(),
                params_state(record.type_params.deep_view(), c0.next_var as nat),
            );
        }
        let mut params = self.header_type_param_vars(&record.type_params);
        let ids = var_id_list(&params);
        assert(ids.deep_view() =~= ids@);
        let fields = self.header_fields(&record.fields, &mut params, scope);
        assert(fields.deep_view().len() == fields.len());
        let canonical = dot_join(module, name);
        self.records.insert_if_absent(
            canonical.clone(),
            RecordInfo { type_params: ids.dup(), fields: fields.dup() },
        );
        let result = con_type(canonical.as_str(), &ids);
        let types = crate::header_convert::types_of_fields(&fields);
        let ty = crate::type_decls::build_ctor_type(&types, result);
        let none: Vec<(String, u32, Vec<Type>)> = Vec::new();
        assert(none.deep_view() =~= Seq::empty());
        let scheme = Scheme { forall: ids, constraints: none, ty };
        let def = find_ctor_def(lsp, name);
        self.add_own_ctor(canonical.clone(), scheme, def);
        let mut variants: Vec<(String, usize)> = Vec::new();
        push_value(&mut variants, (canonical.clone(), fields.len()));
        assert(variants.deep_view() =~= seq![(canonical@, fields.len())]);
        self.adt_variants.insert_if_absent(canonical, variants);
    }

    fn register_header_alias(
        &mut self,
        module: &str,
        scope: &HeaderRegistrationScope,
        name: &str,
        decl: &HeaderTypeDecl,
    )
        requires
            with_header_alias(
                name_source(old(self).deep_view(), scope.deep_view()),
                module@,
                progress(old(self).deep_view()),
                (name@, decl.deep_view()),
            ).next <= u32::MAX,
        ensures
            ({
                let p = with_header_alias(
                    name_source(old(self).deep_view(), scope.deep_view()),
                    module@,
                    progress(old(self).deep_view()),
                    (name@, decl.deep_view()),
                );
                &&& final(self).deep_view() == p.c
                &&& final(self).next_var == p.next
            }),
    {
        if let HeaderTypeDecl::Alias { public, type_params, body } = decl {
            if *public {
                let ghost c0 = self.deep_view();
                let ghost k = name_source(c0, scope.deep_view());
                assert(type_params.deep_view().len() == type_params.len());
                proof {
                    typed_grows(
                        k,
                        body.deep_view(),
                        params_state(type_params.deep_view(), c0.next_var as nat),
                    );
                }
                let mut params = self.header_type_param_vars(type_params);
                let param_vars = var_id_list(&params);
                assert(param_vars.deep_view() =~= param_vars@);
                let body = self.header_type_expr_to_type(body, &mut params, scope);
                self.type_aliases.insert_if_absent(
                    dot_join(module, name),
                    TypeAliasInfo {
                        param_vars,
                        param_kinds: header_type_param_kinds(type_params),
                        body,
                        span: Span { start: 0, end: 0 },
                    },
                );
            }
        }
    }

    fn register_header_function(
        &mut self,
        module: &str,
        lsp: Option<&HeaderLspInfo>,
        scope: &HeaderRegistrationScope,
        name: &str,
        function: &HeaderFunction,
    )
        requires
            with_header_function(
                name_source(old(self).deep_view(), scope.deep_view()),
                module@,
                lsp.deep_view(),
                progress(old(self).deep_view()),
                (name@, function.deep_view()),
            ).next <= u32::MAX,
        ensures
            ({
                let p = with_header_function(
                    name_source(old(self).deep_view(), scope.deep_view()),
                    module@,
                    lsp.deep_view(),
                    progress(old(self).deep_view()),
                    (name@, function.deep_view()),
                );
                &&& final(self).deep_view() == p.c
                &&& final(self).next_var == p.next
            }),
    {
        if function.public {
            let scheme = self.header_function_scheme(function, scope);
            let canonical = dot_join(module, name);
            if type_contains_effects(&scheme.ty) {
                proof {
                    add_new_one(self.known_funs.deep_view(), canonical@);
                }
                push_new(&mut self.known_funs, canonical.clone());
            }
            match find_fun_def(lsp, name) {
                Some(id) => self.env.entry_insert_with_def(canonical, scheme, id),
                None => self.env.entry_insert(canonical, scheme),
            }
        }
    }

    /// The types of a header with their constructors.
    pub fn register_header_types(
        &mut self,
        module: &str,
        lsp: Option<&HeaderLspInfo>,
        scope: &HeaderRegistrationScope,
        items: &Table<String, HeaderTypeDecl>,
    )
        requires
            with_header_types(
                name_source(old(self).deep_view(), scope.deep_view()),
                module@, lsp.deep_view(), progress(old(self).deep_view()),
                items.order(),
            ).next <= u32::MAX,
        ensures
            final(self).deep_view() == with_header_types(
                name_source(old(self).deep_view(), scope.deep_view()),
                module@, lsp.deep_view(), progress(old(self).deep_view()),
                items.order(),
            ).c,
            final(self).next_var == with_header_types(
                name_source(old(self).deep_view(), scope.deep_view()),
                module@, lsp.deep_view(), progress(old(self).deep_view()),
                items.order(),
            ).next,
    {
        let ghost c0 = self.deep_view();
        let ghost k = name_source(c0, scope.deep_view());
        let ghost all = items.order();
        let n = items.len();
        let mut i: usize = 0;
        assert(all.take(0) =~= Seq::empty());
        while i < n
            invariant
                i <= n,
                n == all.len(),
                all == items.order(),
                k == name_source(c0, scope.deep_view()),
                with_header_types(k, module@, lsp.deep_view(), progress(c0), all).next <= u32::MAX,
                self.deep_view() == with_header_types(
                    k,
                    module@,
                    lsp.deep_view(),
                    progress(c0),
                    all.take(i as int),
                ).c,
                self.next_var == with_header_types(
                    k,
                    module@,
                    lsp.deep_view(),
                    progress(c0),
                    all.take(i as int),
                ).next,
            decreases n - i,
        {
            proof {
                assert(all.take(i + 1).drop_last() =~= all.take(i as int));
                assert(all.take(i + 1).last() == all[i as int]);
                with_header_types_within(k, module@, lsp.deep_view(), progress(c0), all, i + 1);
                with_header_types_keep_scope(
                    k,
                    module@,
                    lsp.deep_view(),
                    progress(c0),
                    all.take(i as int),
                );
            }
            assert(name_source(self.deep_view(), scope.deep_view()) == k);
            assert(progress(self.deep_view()) == with_header_types(
                k,
                module@,
                lsp.deep_view(),
                progress(c0),
                all.take(i as int),
            ));
            self.register_header_type(module, lsp, scope, items.key(i).as_str(), items.value(i));
            i = i + 1;
        }
        assert(all.take(i as int) =~= all);
    }

    /// The records of a header.
    pub fn register_header_records(
        &mut self,
        module: &str,
        lsp: Option<&HeaderLspInfo>,
        scope: &HeaderRegistrationScope,
        items: &Table<String, HeaderRecordDecl>,
    )
        requires
            with_header_records(
                name_source(old(self).deep_view(), scope.deep_view()),
                module@, lsp.deep_view(), progress(old(self).deep_view()),
                items.order(),
            ).next <= u32::MAX,
        ensures
            final(self).deep_view() == with_header_records(
                name_source(old(self).deep_view(), scope.deep_view()),
                module@, lsp.deep_view(), progress(old(self).deep_view()),
                items.order(),
            ).c,
            final(self).next_var == with_header_records(
                name_source(old(self).deep_view(), scope.deep_view()),
                module@, lsp.deep_view(), progress(old(self).deep_view()),
                items.order(),
            ).next,
    {
        let ghost c0 = self.deep_view();
        let ghost k = name_source(c0, scope.deep_view());
        let ghost all = items.order();
        let n = items.len();
        let mut i: usize = 0;
        assert(all.take(0) =~= Seq::empty());
        while i < n
            invariant
                i <= n,
                n == all.len(),
                all == items.order(),
                k == name_source(c0, scope.deep_view()),
                with_header_records(
                    k,
                    module@,
                    lsp.deep_view(),
                    progress(c0),
                    all,
                ).next <= u32::MAX,
                self.deep_view() == with_header_records(
                    k,
                    module@,
                    lsp.deep_view(),
                    progress(c0),
                    all.take(i as int),
                ).c,
                self.next_var == with_header_records(
                    k,
                    module@,
                    lsp.deep_view(),
                    progress(c0),
                    all.take(i as int),
                ).next,
            decreases n - i,
        {
            proof {
                assert(all.take(i + 1).drop_last() =~= all.take(i as int));
                assert(all.take(i + 1).last() == all[i as int]);
                with_header_records_within(k, module@, lsp.deep_view(), progress(c0), all, i + 1);
                with_header_records_keep_scope(
                    k,
                    module@,
                    lsp.deep_view(),
                    progress(c0),
                    all.take(i as int),
                );
            }
            assert(name_source(self.deep_view(), scope.deep_view()) == k);
            assert(progress(self.deep_view()) == with_header_records(
                k,
                module@,
                lsp.deep_view(),
                progress(c0),
                all.take(i as int),
            ));
            self.register_header_record(module, lsp, scope, items.key(i).as_str(), items.value(i));
            i = i + 1;
        }
        assert(all.take(i as int) =~= all);
    }

    /// The public aliases of a header.
    pub fn register_header_aliases(
        &mut self,
        module: &str,
        scope: &HeaderRegistrationScope,
        items: &Table<String, HeaderTypeDecl>,
    )
        requires
            with_header_aliases(
                name_source(old(self).deep_view(), scope.deep_view()),
                module@, progress(old(self).deep_view()),
                items.order(),
            ).next <= u32::MAX,
        ensures
            final(self).deep_view() == with_header_aliases(
                name_source(old(self).deep_view(), scope.deep_view()),
                module@, progress(old(self).deep_view()),
                items.order(),
            ).c,
            final(self).next_var == with_header_aliases(
                name_source(old(self).deep_view(), scope.deep_view()),
                module@, progress(old(self).deep_view()),
                items.order(),
            ).next,
    {
        let ghost c0 = self.deep_view();
        let ghost k = name_source(c0, scope.deep_view());
        let ghost all = items.order();
        let n = items.len();
        let mut i: usize = 0;
        assert(all.take(0) =~= Seq::empty());
        while i < n
            invariant
                i <= n,
                n == all.len(),
                all == items.order(),
                k == name_source(c0, scope.deep_view()),
                with_header_aliases(k, module@, progress(c0), all).next <= u32::MAX,
                self.deep_view() == with_header_aliases(
                    k,
                    module@,
                    progress(c0),
                    all.take(i as int),
                ).c,
                self.next_var == with_header_aliases(
                    k,
                    module@,
                    progress(c0),
                    all.take(i as int),
                ).next,
            decreases n - i,
        {
            proof {
                assert(all.take(i + 1).drop_last() =~= all.take(i as int));
                assert(all.take(i + 1).last() == all[i as int]);
                with_header_aliases_within(k, module@, progress(c0), all, i + 1);
                with_header_aliases_keep_scope(k, module@, progress(c0), all.take(i as int));
            }
            assert(name_source(self.deep_view(), scope.deep_view()) == k);
            assert(progress(self.deep_view()) == with_header_aliases(
                k,
                module@,
                progress(c0),
                all.take(i as int),
            ));
            self.register_header_alias(module, scope, items.key(i).as_str(), items.value(i));
            i = i + 1;
        }
        assert(all.take(i as int) =~= all);
    }

    /// The public functions of a header.
    pub fn register_header_functions(
        &mut self,
        module: &str,
        lsp: Option<&HeaderLspInfo>,
        scope: &HeaderRegistrationScope,
        items: &Table<String, HeaderFunction>,
    )
        requires
            with_header_functions(
                name_source(old(self).deep_view(), scope.deep_view()),
                module@, lsp.deep_view(), progress(old(self).deep_view()),
                items.order(),
            ).next <= u32::MAX,
        ensures
            final(self).deep_view() == with_header_functions(
                name_source(old(self).deep_view(), scope.deep_view()),
                module@, lsp.deep_view(), progress(old(self).deep_view()),
                items.order(),
            ).c,
            final(self).next_var == with_header_functions(
                name_source(old(self).deep_view(), scope.deep_view()),
                module@, lsp.deep_view(), progress(old(self).deep_view()),
                items.order(),
            ).next,
    {
        let ghost c0 = self.deep_view();
        let ghost k = name_source(c0, scope.deep_view());
        let ghost all = items.order();
        let n = items.len();
        let mut i: usize = 0;
        assert(all.take(0) =~= Seq::empty());
        while i < n
            invariant
                i <= n,
                n == all.len(),
                all == items.order(),
                k == name_source(c0, scope.deep_view()),
                with_header_functions(
                    k,
                    module@,
                    lsp.deep_view(),
                    progress(c0),
                    all,
                ).next <= u32::MAX,
                self.deep_view() == with_header_functions(
                    k,
                    module@,
                    lsp.deep_view(),
                    progress(c0),
                    all.take(i as int),
                ).c,
                self.next_var == with_header_functions(
                    k,
                    module@,
                    lsp.deep_view(),
                    progress(c0),
                    all.take(i as int),
                ).next,
            decreases n - i,
        {
            proof {
                assert(all.take(i + 1).drop_last() =~= all.take(i as int));
                assert(all.take(i + 1).last() == all[i as int]);
                with_header_functions_within(k, module@, lsp.deep_view(), progress(c0), all, i + 1);
                with_header_functions_keep_scope(
                    k,
                    module@,
                    lsp.deep_view(),
                    progress(c0),
                    all.take(i as int),
                );
            }
            assert(name_source(self.deep_view(), scope.deep_view()) == k);
            assert(progress(self.deep_view()) == with_header_functions(
                k,
                module@,
                lsp.deep_view(),
                progress(c0),
                all.take(i as int),
            ));
            self.register_header_function(
                module,
                lsp,
                scope,
                items.key(i).as_str(),
                items.value(i),
            );
            i = i + 1;
        }
        assert(all.take(i as int) =~= all);
    }

}

/// The state with the arity and the kinds of a type, unless they are known.
pub open spec fn with_stub(
    module: Seq<char>,
    c: CheckerModel,
    name: Seq<char>,
    params: Seq<TypeParamModel>,
) -> CheckerModel {
    CheckerModel {
        type_arity: put_new(c.type_arity, dotted(module, name), params.len() as usize),
        type_param_kinds: put_new(
            c.type_param_kinds,
            dotted(module, name),
            param_kinds(params),
        ),
        ..c
    }
}

pub open spec fn with_type_stub(
    module: Seq<char>,
    c: CheckerModel,
    decl: (Seq<char>, TypeDeclModel),
) -> CheckerModel {
    with_stub(module, c, decl.0, decl.1.params())
}

pub open spec fn with_record_stub(
    module: Seq<char>,
    c: CheckerModel,
    decl: (Seq<char>, RecordDeclModel),
) -> CheckerModel {
    with_stub(module, c, decl.0, decl.1.type_params)
}

/// The arities of the types of a header, private ones too.
pub open spec fn with_type_stubs(
    module: Seq<char>,
    acc: CheckerModel,
    items: Seq<(Seq<char>, TypeDeclModel)>,
) -> CheckerModel
    decreases items.len(),
{
    if items.len() == 0 {
        acc
    } else {
        with_type_stub(module, with_type_stubs(module, acc, items.drop_last()), items.last())
    }
}

pub open spec fn with_record_stubs(
    module: Seq<char>,
    acc: CheckerModel,
    items: Seq<(Seq<char>, RecordDeclModel)>,
) -> CheckerModel
    decreases items.len(),
{
    if items.len() == 0 {
        acc
    } else {
        with_record_stub(module, with_record_stubs(module, acc, items.drop_last()), items.last())
    }
}

fn add_stub(module: &str, c: &mut Checker, name: &str, params: &Vec<HeaderTypeParam>)
    ensures
        final(c).deep_view() == with_stub(module@, old(c).deep_view(), name@, params.deep_view()),
{
    assert(params.deep_view().len() == params.len());
    let canonical = dot_join(module, name);
    c.type_arity.insert_if_absent(canonical.clone(), params.len());
    c.type_param_kinds.insert_if_absent(canonical, header_type_param_kinds(params));
}

fn add_type_stubs(module: &str, acc: &mut Checker, items: &Table<String, HeaderTypeDecl>)
    ensures
        final(acc).deep_view() == with_type_stubs(module@, old(acc).deep_view(), items.order()),
{
    let ghost a0 = acc.deep_view();
    let ghost all = items.order();
    let n = items.len();
    let mut i: usize = 0;
    assert(all.take(0) =~= Seq::empty());
    while i < n
        invariant
            i <= n,
            all == items.order(),
            n == all.len(),
            acc.deep_view() == with_type_stubs(module@, a0, all.take(i as int)),
        decreases n - i,
    {
        proof {
            assert(all.take(i + 1).drop_last() =~= all.take(i as int));
            assert(all.take(i + 1).last() == all[i as int]);
        }
        let params = match items.value(i) {
            HeaderTypeDecl::Adt { type_params, .. } => type_params,
            HeaderTypeDecl::Alias { type_params, .. } => type_params,
        };
        add_stub(module, acc, items.key(i).as_str(), params);
        i = i + 1;
    }
    assert(all.take(i as int) =~= all);
}

fn add_record_stubs(module: &str, acc: &mut Checker, items: &Table<String, HeaderRecordDecl>)
    ensures
        final(acc).deep_view() == with_record_stubs(module@, old(acc).deep_view(), items.order()),
{
    let ghost a0 = acc.deep_view();
    let ghost all = items.order();
    let n = items.len();
    let mut i: usize = 0;
    assert(all.take(0) =~= Seq::empty());
    while i < n
        invariant
            i <= n,
            all == items.order(),
            n == all.len(),
            acc.deep_view() == with_record_stubs(module@, a0, all.take(i as int)),
        decreases n - i,
    {
        proof {
            assert(all.take(i + 1).drop_last() =~= all.take(i as int));
            assert(all.take(i + 1).last() == all[i as int]);
        }
        add_stub(module, acc, items.key(i).as_str(), &items.value(i).type_params);
        i = i + 1;
    }
    assert(all.take(i as int) =~= all);
}

pub open spec fn with_header_doc(
    module: Seq<char>,
    docs: Seq<(Seq<char>, Seq<Seq<char>>)>,
    doc: (Seq<char>, Seq<Seq<char>>),
) -> Seq<(Seq<char>, Seq<Seq<char>>)> {
    put_new(docs, dotted(module, doc.0), doc.1)
}

/// The documentation with that of a header.
pub open spec fn with_header_docs(
    module: Seq<char>,
    acc: Seq<(Seq<char>, Seq<Seq<char>>)>,
    items: Seq<(Seq<char>, Seq<Seq<char>>)>,
) -> Seq<(Seq<char>, Seq<Seq<char>>)>
    decreases items.len(),
{
    if items.len() == 0 {
        acc
    } else {
        with_header_doc(module, with_header_docs(module, acc, items.drop_last()), items.last())
    }
}

fn add_header_docs(
    module: &str,
    acc: &mut Table<String, Vec<String>>,
    items: &Table<String, Vec<String>>,
)
    ensures
        final(acc).order() == with_header_docs(module@, old(acc).order(), items.order()),
{
    let ghost a0 = acc.order();
    let ghost all = items.order();
    let n = items.len();
    let mut i: usize = 0;
    assert(all.take(0) =~= Seq::empty());
    while i < n
        invariant
            i <= n,
            all == items.order(),
            n == all.len(),
            acc.order() == with_header_docs(module@, a0, all.take(i as int)),
        decreases n - i,
    {
        proof {
            assert(all.take(i + 1).drop_last() =~= all.take(i as int));
            assert(all.take(i + 1).last() == all[i as int]);
        }
        acc.insert_if_absent(dot_join(module, items.key(i).as_str()), items.value(i).dup());
        i = i + 1;
    }
    assert(all.take(i as int) =~= all);
}

/// The state with the stubs and the documentation of a header.
pub open spec fn with_outline(
    c: CheckerModel,
    module: Seq<char>,
    h: HeaderModel,
    lsp: Option<HeaderLspModel>,
) -> CheckerModel {
    let stubs = with_record_stubs(module, with_type_stubs(module, c, h.types), h.records);
    CheckerModel {
        lsp: LspModel {
            imported_docs: match lsp {
                Some(info) => with_header_docs(module, stubs.lsp.imported_docs, info.docs),
                None => stubs.lsp.imported_docs,
            },
            ..stubs.lsp
        },
        ..stubs
    }
}

/// The state with the types, records and aliases of a header.
pub open spec fn with_header_decls(
    k: NameSource,
    module: Seq<char>,
    h: HeaderModel,
    lsp: Option<HeaderLspModel>,
    p: Progress,
) -> Progress {
    let outlined = Progress { c: with_outline(p.c, module, h, lsp), next: p.next };
    let types = with_header_types(k, module, lsp, outlined, h.types);
    let records = with_header_records(k, module, lsp, types, h.records);
    with_header_aliases(k, module, records, h.types)
}

proof fn stubs_keep(module: Seq<char>, c: CheckerModel, items: Seq<(Seq<char>, TypeDeclModel)>)
    ensures
        with_type_stubs(module, c, items).scope_map == c.scope_map,
        with_type_stubs(module, c, items).next_var == c.next_var,
    decreases items.len(),
{
    if items.len() > 0 {
        stubs_keep(module, c, items.drop_last());
    }
}

proof fn record_stubs_keep(
    module: Seq<char>,
    c: CheckerModel,
    items: Seq<(Seq<char>, RecordDeclModel)>,
)
    ensures
        with_record_stubs(module, c, items).scope_map == c.scope_map,
        with_record_stubs(module, c, items).next_var == c.next_var,
    decreases items.len(),
{
    if items.len() > 0 {
        record_stubs_keep(module, c, items.drop_last());
    }
}

proof fn ctors_keep_scope(
    k: NameSource,
    module: Seq<char>,
    lsp: Option<HeaderLspModel>,
    forall_vars: Seq<u32>,
    result: Ty,
    acc: CtorProgress,
    items: Seq<ConstructorModel>,
)
    ensures
        with_header_ctors(
            k,
            module,
            lsp,
            forall_vars,
            result,
            acc,
            items,
        ).c.scope_map == acc.c.scope_map,
    decreases items.len(),
{
    if items.len() > 0 {
        ctors_keep_scope(k, module, lsp, forall_vars, result, acc, items.drop_last());
    }
}

proof fn with_header_types_keep_scope(
    k: NameSource,
    module: Seq<char>,
    lsp: Option<HeaderLspModel>,
    p: Progress,
    items: Seq<(Seq<char>, TypeDeclModel)>,
)
    ensures
        with_header_types(k, module, lsp, p, items).c.scope_map == p.c.scope_map,
    decreases items.len(),
{
    if items.len() > 0 {
        with_header_types_keep_scope(k, module, lsp, p, items.drop_last());
        let done = with_header_types(k, module, lsp, p, items.drop_last());
        if let TypeDeclModel::Adt { opaque, type_params, constructors, .. } = items.last().1 {
            let s = params_state(type_params, done.next);
            ctors_keep_scope(
                k,
                module,
                lsp,
                ids_of(s.vars),
                con_of_vars(dotted(module, items.last().0), ids_of(s.vars)),
                CtorProgress { c: with_param_vars(done, type_params), s },
                if opaque {
                    Seq::empty()
                } else {
                    constructors
                },
            );
        }
    }
}

proof fn with_header_records_keep_scope(
    k: NameSource,
    module: Seq<char>,
    lsp: Option<HeaderLspModel>,
    p: Progress,
    items: Seq<(Seq<char>, RecordDeclModel)>,
)
    ensures
        with_header_records(k, module, lsp, p, items).c.scope_map == p.c.scope_map,
    decreases items.len(),
{
    if items.len() > 0 {
        with_header_records_keep_scope(k, module, lsp, p, items.drop_last());
    }
}

proof fn with_header_functions_keep_scope(
    k: NameSource,
    module: Seq<char>,
    lsp: Option<HeaderLspModel>,
    p: Progress,
    items: Seq<(Seq<char>, FunctionModel)>,
)
    ensures
        with_header_functions(k, module, lsp, p, items).c.scope_map == p.c.scope_map,
    decreases items.len(),
{
    if items.len() > 0 {
        with_header_functions_keep_scope(k, module, lsp, p, items.drop_last());
    }
}

proof fn with_header_aliases_keep_scope(
    k: NameSource,
    module: Seq<char>,
    p: Progress,
    items: Seq<(Seq<char>, TypeDeclModel)>,
)
    ensures
        with_header_aliases(k, module, p, items).c.scope_map == p.c.scope_map,
    decreases items.len(),
{
    if items.len() > 0 {
        with_header_aliases_keep_scope(k, module, p, items.drop_last());
    }
}

impl Checker {
    /// The arities of the types of a header.
    pub fn register_header_type_stubs(&mut self, module: &str, header: &ModuleHeader)
        ensures
            final(self).deep_view() == with_record_stubs(
                module@,
                with_type_stubs(module@, old(self).deep_view(), header.deep_view().types),
                header.deep_view().records,
            ),
    {
        add_type_stubs(module, self, &header.types);
        add_record_stubs(module, self, &header.records);
    }

    /// The documentation of a header.
    pub fn register_header_docs(&mut self, module: &str, lsp: Option<&HeaderLspInfo>)
        ensures
            final(self).deep_view() == (CheckerModel {
                lsp: LspModel {
                    imported_docs: match lsp.deep_view() {
                        Some(info) => with_header_docs(
                            module@,
                            old(self).deep_view().lsp.imported_docs,
                            info.docs,
                        ),
                        None => old(self).deep_view().lsp.imported_docs,
                    },
                    ..old(self).deep_view().lsp
                },
                ..old(self).deep_view()
            }),
    {
        if let Some(info) = lsp {
            add_header_docs(module, &mut self.lsp.imported_docs, &info.docs);
        }
    }

    /// The records and the types of a header, with their constructors.
    pub fn register_header_records_and_adts(
        &mut self,
        module: &str,
        header: &ModuleHeader,
        scope: &HeaderRegistrationScope,
        lsp: Option<&HeaderLspInfo>,
    )
        requires
            with_header_records(
                name_source(old(self).deep_view(), scope.deep_view()),
                module@,
                lsp.deep_view(),
                with_header_types(
                    name_source(old(self).deep_view(), scope.deep_view()),
                    module@,
                    lsp.deep_view(),
                    progress(old(self).deep_view()),
                    header.deep_view().types,
                ),
                header.deep_view().records,
            ).next <= u32::MAX,
        ensures
            ({
                let p = with_header_records(
                    name_source(old(self).deep_view(), scope.deep_view()),
                    module@,
                    lsp.deep_view(),
                    with_header_types(
                        name_source(old(self).deep_view(), scope.deep_view()),
                        module@,
                        lsp.deep_view(),
                        progress(old(self).deep_view()),
                        header.deep_view().types,
                    ),
                    header.deep_view().records,
                );
                &&& final(self).deep_view() == p.c
                &&& final(self).next_var == p.next
            }),
    {
        let ghost c0 = self.deep_view();
        let ghost k = name_source(c0, scope.deep_view());
        let ghost types = with_header_types(
            k,
            module@,
            lsp.deep_view(),
            progress(c0),
            header.types.order(),
        );
        proof {
            with_header_records_grow(k, module@, lsp.deep_view(), types, header.records.order());
            with_header_types_keep_scope(
                k,
                module@,
                lsp.deep_view(),
                progress(c0),
                header.types.order(),
            );
        }
        self.register_header_types(module, lsp, scope, &header.types);
        assert(progress(self.deep_view()) == types);
        assert(name_source(self.deep_view(), scope.deep_view()) == k);
        self.register_header_records(module, lsp, scope, &header.records);
    }
}

/// The info of a module, if there is any.
pub open spec fn info_of(infos: Seq<(Seq<char>, HeaderLspModel)>, module: Seq<char>) -> Option<
    HeaderLspModel,
> {
    at_key(infos, module)
}

/// How far the registration of the first `n` headers has come: their types, or why
/// the names of one of them do not resolve.
pub open spec fn decls_registered(
    outer: ScopeModel,
    headers: Seq<(Seq<char>, HeaderModel)>,
    infos: Seq<(Seq<char>, HeaderLspModel)>,
    p: Progress,
    n: nat,
) -> (Progress, Option<Seq<char>>)
    decreases n,
{
    if n == 0 {
        (p, None)
    } else {
        let before = decls_registered(outer, headers, infos, p, (n - 1) as nat);
        let h = headers[n - 1];
        match before.1 {
            Some(e) => before,
            None => match registration_scope(h.0, h.1, headers) {
                Err(e) => (before.0, Some(e)),
                Ok(own) => (
                    with_header_decls(
                        NameSource { outer, own },
                        h.0,
                        h.1,
                        info_of(infos, h.0),
                        before.0,
                    ),
                    None,
                ),
            },
        }
    }
}

/// How far the registration of the functions of the first `n` headers has come.
pub open spec fn functions_registered(
    outer: ScopeModel,
    headers: Seq<(Seq<char>, HeaderModel)>,
    infos: Seq<(Seq<char>, HeaderLspModel)>,
    p: Progress,
    n: nat,
) -> (Progress, Option<Seq<char>>)
    decreases n,
{
    if n == 0 {
        (p, None)
    } else {
        let before = functions_registered(outer, headers, infos, p, (n - 1) as nat);
        let h = headers[n - 1];
        match before.1 {
            Some(e) => before,
            None => match registration_scope(h.0, h.1, headers) {
                Err(e) => (before.0, Some(e)),
                Ok(own) => (
                    with_header_functions(
                        NameSource { outer, own },
                        h.0,
                        info_of(infos, h.0),
                        before.0,
                        h.1.functions,
                    ),
                    None,
                ),
            },
        }
    }
}

proof fn with_header_decls_grows(
    k: NameSource,
    module: Seq<char>,
    h: HeaderModel,
    lsp: Option<HeaderLspModel>,
    p: Progress,
)
    ensures
        p.next <= with_header_decls(k, module, h, lsp, p).next,
        with_header_decls(k, module, h, lsp, p).c.scope_map == p.c.scope_map,
{
    let outlined = Progress { c: with_outline(p.c, module, h, lsp), next: p.next };
    let types = with_header_types(k, module, lsp, outlined, h.types);
    let records = with_header_records(k, module, lsp, types, h.records);
    stubs_keep(module, p.c, h.types);
    record_stubs_keep(module, with_type_stubs(module, p.c, h.types), h.records);
    with_header_types_grow(k, module, lsp, outlined, h.types);
    with_header_types_keep_scope(k, module, lsp, outlined, h.types);
    with_header_records_grow(k, module, lsp, types, h.records);
    with_header_records_keep_scope(k, module, lsp, types, h.records);
    with_header_aliases_grow(k, module, records, h.types);
    with_header_aliases_keep_scope(k, module, records, h.types);
}

impl Checker {
    /// The types, records and aliases of a header.
    fn register_header_decls(
        &mut self,
        module: &str,
        header: &ModuleHeader,
        scope: &HeaderRegistrationScope,
        lsp: Option<&HeaderLspInfo>,
    )
        requires
            with_header_decls(
                name_source(old(self).deep_view(), scope.deep_view()),
                module@,
                header.deep_view(),
                lsp.deep_view(),
                progress(old(self).deep_view()),
            ).next <= u32::MAX,
        ensures
            ({
                let p = with_header_decls(
                    name_source(old(self).deep_view(), scope.deep_view()),
                    module@,
                    header.deep_view(),
                    lsp.deep_view(),
                    progress(old(self).deep_view()),
                );
                &&& final(self).deep_view() == p.c
                &&& final(self).next_var == p.next
            }),
    {
        let ghost c0 = self.deep_view();
        let ghost k = name_source(c0, scope.deep_view());
        let ghost info = lsp.deep_view();
        let ghost h = header.deep_view();
        let ghost outlined = progress(with_outline(c0, module@, h, info));
        let ghost types = with_header_types(k, module@, info, outlined, h.types);
        let ghost records = with_header_records(k, module@, info, types, h.records);
        proof {
            stubs_keep(module@, c0, h.types);
            record_stubs_keep(module@, with_type_stubs(module@, c0, h.types), h.records);
            with_header_types_keep_scope(k, module@, info, outlined, h.types);
            with_header_records_keep_scope(k, module@, info, types, h.records);
            with_header_aliases_grow(k, module@, records, h.types);
        }
        self.register_header_type_stubs(module, header);
        self.register_header_docs(module, lsp);
        assert(name_source(self.deep_view(), scope.deep_view()) == k);
        self.register_header_records_and_adts(module, header, scope, lsp);
        assert(name_source(self.deep_view(), scope.deep_view()) == k);
        assert(progress(self.deep_view()) == records);
        self.register_header_aliases(module, scope, &header.types);
    }
}

proof fn decls_progress(
    outer: ScopeModel,
    headers: Seq<(Seq<char>, HeaderModel)>,
    infos: Seq<(Seq<char>, HeaderLspModel)>,
    p: Progress,
    m: nat,
    n: nat,
)
    requires
        m <= n,
    ensures
        decls_registered(outer, headers, infos, p, m).0.next <= decls_registered(
            outer,
            headers,
            infos,
            p,
            n,
        ).0.next,
        decls_registered(outer, headers, infos, p, n).0.c.scope_map == p.c.scope_map,
        decls_registered(outer, headers, infos, p, m).1 is Some ==> decls_registered(
            outer,
            headers,
            infos,
            p,
            n,
        ) == decls_registered(outer, headers, infos, p, m),
    decreases n,
{
    if n > 0 {
        let before = decls_registered(outer, headers, infos, p, (n - 1) as nat);
        let h = headers[n - 1];
        if m < n {
            decls_progress(outer, headers, infos, p, m, (n - 1) as nat);
        } else {
            decls_progress(outer, headers, infos, p, (n - 1) as nat, (n - 1) as nat);
        }
        if before.1 is None {
            if let Ok(own) = registration_scope(h.0, h.1, headers) {
                with_header_decls_grows(
                    NameSource { outer, own },
                    h.0,
                    h.1,
                    info_of(infos, h.0),
                    before.0,
                );
            }
        }
    }
}

proof fn functions_progress(
    outer: ScopeModel,
    headers: Seq<(Seq<char>, HeaderModel)>,
    infos: Seq<(Seq<char>, HeaderLspModel)>,
    p: Progress,
    m: nat,
    n: nat,
)
    requires
        m <= n,
    ensures
        functions_registered(outer, headers, infos, p, m).0.next <= functions_registered(
            outer,
            headers,
            infos,
            p,
            n,
        ).0.next,
        functions_registered(outer, headers, infos, p, n).0.c.scope_map == p.c.scope_map,
        functions_registered(outer, headers, infos, p, m).1 is Some ==> functions_registered(
            outer,
            headers,
            infos,
            p,
            n,
        ) == functions_registered(outer, headers, infos, p, m),
    decreases n,
{
    if n > 0 {
        let before = functions_registered(outer, headers, infos, p, (n - 1) as nat);
        let h = headers[n - 1];
        if m < n {
            functions_progress(outer, headers, infos, p, m, (n - 1) as nat);
        } else {
            functions_progress(outer, headers, infos, p, (n - 1) as nat, (n - 1) as nat);
        }
        if before.1 is None {
            if let Ok(own) = registration_scope(h.0, h.1, headers) {
                let k = NameSource { outer, own };
                with_header_functions_grow(
                    k,
                    h.0,
                    info_of(infos, h.0),
                    before.0,
                    h.1.functions,
                );
                with_header_functions_keep_scope(
                    k,
                    h.0,
                    info_of(infos, h.0),
                    before.0,
                    h.1.functions,
                );
            }
        }
    }
}

impl Checker {
    fn register_all_decls(
        &mut self,
        headers: &Table<String, ModuleHeader>,
        infos: &Table<String, HeaderLspInfo>,
    ) -> (r: Result<(), String>)
        requires
            decls_registered(
                old(self).deep_view().scope_map,
                headers.order(),
                infos.order(),
                progress(old(self).deep_view()),
                headers.order().len(),
            ).0.next <= u32::MAX,
        ensures
            ({
                let done = decls_registered(
                    old(self).deep_view().scope_map,
                    headers.order(),
                    infos.order(),
                    progress(old(self).deep_view()),
                    headers.order().len(),
                );
                &&& final(self).deep_view() == done.0.c
                &&& final(self).next_var == done.0.next
                &&& match r {
                    Ok(_) => done.1 is None,
                    Err(e) => done.1 == Some(e@),
                }
            }),
    {
        let ghost c0 = self.deep_view();
        let ghost outer = c0.scope_map;
        let ghost all = headers.order();
        let ghost known = infos.order();
        let n = headers.len();
        let mut i: usize = 0;
        while i < n
            invariant
                i <= n,
                n == all.len(),
                c0 == old(self).deep_view(),
                outer == c0.scope_map,
                all == headers.order(),
                known == infos.order(),
                decls_registered(outer, all, known, progress(c0), n as nat).0.next <= u32::MAX,
                decls_registered(outer, all, known, progress(c0), i as nat).1 is None,
                self.deep_view() == decls_registered(outer, all, known, progress(c0), i as nat).0.c,
                self.next_var == decls_registered(
                    outer,
                    all,
                    known,
                    progress(c0),
                    i as nat,
                ).0.next,
            decreases n - i,
        {
            let module = headers.key(i);
            proof {
                decls_progress(outer, all, known, progress(c0), i as nat, i as nat);
                decls_progress(outer, all, known, progress(c0), (i + 1) as nat, n as nat);
                assert(progress(self.deep_view()) == decls_registered(
                    outer,
                    all,
                    known,
                    progress(c0),
                    i as nat,
                ).0);
            }
            let scope = match HeaderRegistrationScope::new(
                module.as_str(),
                headers.value(i),
                headers,
            ) {
                Ok(scope) => scope,
                Err(e) => {
                    return Err(e);
                },
            };
            assert(name_source(self.deep_view(), scope.deep_view()) == (NameSource {
                outer,
                own: scope.deep_view(),
            }));
            self.register_header_decls(
                module.as_str(),
                headers.value(i),
                &scope,
                infos.get(module),
            );
            i = i + 1;
        }
        Ok(())
    }

    fn register_all_functions(
        &mut self,
        headers: &Table<String, ModuleHeader>,
        infos: &Table<String, HeaderLspInfo>,
    ) -> (r: Result<(), String>)
        requires
            functions_registered(
                old(self).deep_view().scope_map,
                headers.order(),
                infos.order(),
                progress(old(self).deep_view()),
                headers.order().len(),
            ).0.next <= u32::MAX,
        ensures
            ({
                let done = functions_registered(
                    old(self).deep_view().scope_map,
                    headers.order(),
                    infos.order(),
                    progress(old(self).deep_view()),
                    headers.order().len(),
                );
                &&& final(self).deep_view() == done.0.c
                &&& final(self).next_var == done.0.next
                &&& match r {
                    Ok(_) => done.1 is None,
                    Err(e) => done.1 == Some(e@),
                }
            }),
    {
        let ghost c0 = self.deep_view();
        let ghost outer = c0.scope_map;
        let ghost all = headers.order();
        let ghost known = infos.order();
        let n = headers.len();
        let mut i: usize = 0;
        while i < n
            invariant
                i <= n,
                n == all.len(),
                c0 == old(self).deep_view(),
                outer == c0.scope_map,
                all == headers.order(),
                known == infos.order(),
                functions_registered(outer, all, known, progress(c0), n as nat).0.next <= u32::MAX,
                functions_registered(outer, all, known, progress(c0), i as nat).1 is None,
                self.deep_view() == functions_registered(
                    outer,
                    all,
                    known,
                    progress(c0),
                    i as nat,
                ).0.c,
                self.next_var == functions_registered(
                    outer,
                    all,
                    known,
                    progress(c0),
                    i as nat,
                ).0.next,
            decreases n - i,
        {
            let module = headers.key(i);
            proof {
                functions_progress(outer, all, known, progress(c0), i as nat, i as nat);
                functions_progress(outer, all, known, progress(c0), (i + 1) as nat, n as nat);
                assert(progress(self.deep_view()) == functions_registered(
                    outer,
                    all,
                    known,
                    progress(c0),
                    i as nat,
                ).0);
            }
            let scope = match HeaderRegistrationScope::new(
                module.as_str(),
                headers.value(i),
                headers,
            ) {
                Ok(scope) => scope,
                Err(e) => {
                    return Err(e);
                },
            };
            assert(name_source(self.deep_view(), scope.deep_view()) == (NameSource {
                outer,
                own: scope.deep_view(),
            }));
            self.register_header_functions(
                module.as_str(),
                infos.get(module),
                &scope,
                &headers.value(i).functions,
            );
            i = i + 1;
        }
        Ok(())
    }

}

/// How the registration of the headers of modules that import one another ends: first
/// all their types, then all their functions.
pub open spec fn headers_registered(
    c: CheckerModel,
    headers: Seq<(Seq<char>, HeaderModel)>,
    programs: Seq<(String, Vec<Decl>)>,
) -> (Progress, Option<Seq<char>>) {
    let infos = with_module_infos(programs, Seq::empty(), entry_names(headers));
    let decls = decls_registered(c.scope_map, headers, infos, progress(c), headers.len());
    match decls.1 {
        Some(e) => decls,
        None => {
            let done = functions_registered(c.scope_map, headers, infos, decls.0, headers.len());
            match done.1 {
                Some(e) => done,
                None => (
                    Progress {
                        c: CheckerModel {
                            registered_canonical: add_new(
                                done.0.c.registered_canonical,
                                entry_names(headers),
                            ),
                            ..done.0.c
                        },
                        next: done.0.next,
                    },
                    None,
                ),
            }
        },
    }
}

fn add_names(acc: &mut Vec<String>, names: &Vec<String>)
    ensures
        final(acc).deep_view() == add_new(old(acc).deep_view(), names.deep_view()),
{
    let ghost a0 = acc.deep_view();
    let ghost all = names.deep_view();
    let mut i: usize = 0;
    assert(all.take(0) =~= Seq::empty());
    while i < names.len()
        invariant
            i <= names.len(),
            all == names.deep_view(),
            acc.deep_view() == add_new(a0, all.take(i as int)),
        decreases names.len() - i,
    {
        proof {
            assert(all.take(i + 1).drop_last() =~= all.take(i as int));
            assert(all.take(i + 1).last() == all[i as int]);
            add_new_one(acc.deep_view(), names@[i as int]@);
        }
        push_new(acc, names[i].clone());
        i = i + 1;
    }
    assert(all.take(i as int) =~= all);
}

impl Checker {
    /// Registers what the headers of modules that import one another declare, before
    /// any of their bodies are checked.
    pub fn register_active_scc_headers(
        &mut self,
        headers: Option<&Table<String, ModuleHeader>>,
        programs: &Vec<(String, Vec<Decl>)>,
    ) -> (r: Result<(), String>)
        requires
            headers matches Some(headers) ==> headers_registered(
                old(self).deep_view(),
                headers.order(),
                programs@,
            ).0.next <= u32::MAX,
        ensures
            match headers {
                Some(headers) => {
                    let done = headers_registered(
                        old(self).deep_view(),
                        headers.order(),
                        programs@,
                    );
                    &&& final(self).deep_view() == done.0.c
                    &&& match r {
                        Ok(_) => done.1 is None,
                        Err(e) => done.1 == Some(e@),
                    }
                },
                None => r is Ok && final(self).deep_view() == old(self).deep_view(),
            },
    {
        let headers = match headers {
            Some(headers) => headers,
            None => {
                return Ok(());
            },
        };
        let ghost c0 = self.deep_view();
        let names = table_names(headers);
        let infos = active_header_lsp_info(&names, programs);
        let _ = headers.len();
        proof {
            let n = headers.order().len();
            let decls = decls_registered(
                c0.scope_map,
                headers.order(),
                infos.order(),
                progress(c0),
                n,
            );
            decls_progress(c0.scope_map, headers.order(), infos.order(), progress(c0), n, n);
            functions_progress(c0.scope_map, headers.order(), infos.order(), decls.0, 0, n);
        }
        if let Err(e) = self.register_all_decls(headers, &infos) {
            return Err(e);
        }
        proof {
            let n = headers.order().len();
            let decls = decls_registered(
                c0.scope_map,
                headers.order(),
                infos.order(),
                progress(c0),
                n,
            );
            assert(progress(self.deep_view()) == decls.0);
        }
        if let Err(e) = self.register_all_functions(headers, &infos) {
            return Err(e);
        }
        add_names(&mut self.registered_canonical, &names);
        Ok(())
    }
}

/// Registration never replaces a constructor that is known.
pub proof fn known_ctors_stay(
    c: CheckerModel,
    canonical: Seq<char>,
    scheme: SchemeModel,
    def: Option<NodeId>,
)
    requires
        has_key(c.constructors, canonical),
    ensures
        with_own_ctor(c, canonical, scheme, def).constructors == c.constructors,
{
}

/// A header tells nothing of its private functions.
pub proof fn private_functions_are_not_registered(
    k: NameSource,
    module: Seq<char>,
    lsp: Option<HeaderLspModel>,
    p: Progress,
    items: Seq<(Seq<char>, FunctionModel)>,
)
    requires
        forall|i: int| 0 <= i < items.len() ==> !(#[trigger] items[i]).1.public,
    ensures
        with_header_functions(k, module, lsp, p, items) == p,
    decreases items.len(),
{
    if items.len() > 0 {
        assert(!items[items.len() - 1].1.public);
        assert forall|i: int| 0 <= i < items.drop_last().len() implies !(
        #[trigger] items.drop_last()[i]).1.public by {
            assert(items.drop_last()[i] == items[i]);
        }
        private_functions_are_not_registered(k, module, lsp, p, items.drop_last());
    }
}

/// The type of a constructor takes the type of its first field and gives the type of the
/// constructor with the other fields. Without fields, it is the type itself.
pub proof fn header_constructors_take_their_fields(
    k: NameSource,
    fields: Seq<ConstructorFieldModel>,
    result: Ty,
    s: VarState,
)
    ensures
        fields.len() == 0 ==> header_ctor_type(k, fields, result, s) == (result, s),
        fields.len() > 0 ==> {
            let rest = header_ctor_type(k, fields.drop_first(), result, s);
            let first = typed(k, fields[0].ty, rest.1);
            header_ctor_type(k, fields, result, s) == (
                Ty::Fun(
                    Box::new(first.0),
                    Box::new(rest.0),
                    Row { effects: Seq::empty(), tails: Seq::empty() },
                ),
                first.1,
            )
        },
    decreases fields.len(),
{
    if fields.len() == 1 {
        assert(fields.drop_last() =~= Seq::empty());
        assert(fields.drop_first() =~= Seq::empty());
        reveal_with_fuel(header_ctor_type, 2);
    } else if fields.len() > 1 {
        let t = typed(k, fields.last().ty, s);
        header_constructors_take_their_fields(
            k,
            fields.drop_last(),
            arrow_ty(t.0, result),
            t.1,
        );
        assert(fields.drop_last().drop_first() =~= fields.drop_first().drop_last());
        assert(fields.drop_first().last() == fields.last());
        assert(fields.drop_last()[0] == fields[0]);
    }
}

/// The constructors of a header are known under their canonical names, as constructors
/// and as names, and no others become known with them.
pub proof fn header_constructors_are_known(
    k: NameSource,
    module: Seq<char>,
    lsp: Option<HeaderLspModel>,
    forall_vars: Seq<u32>,
    result: Ty,
    acc: CtorProgress,
    items: Seq<ConstructorModel>,
    name: Seq<char>,
)
    ensures
        ({
            let after = with_header_ctors(k, module, lsp, forall_vars, result, acc, items).c;
            let told = exists|i: int|
                0 <= i < items.len() && dotted(module, (#[trigger] items[i]).name) == name;
            &&& has_key(after.constructors, name) <==> has_key(acc.c.constructors, name) || told
            &&& has_key(after.env.bindings, name) <==> has_key(acc.c.env.bindings, name) || told
        }),
    decreases items.len(),
{
    if items.len() > 0 {
        let init = items.drop_last();
        let before = with_header_ctors(k, module, lsp, forall_vars, result, acc, init);
        header_constructors_are_known(k, module, lsp, forall_vars, result, acc, init, name);
        assert(items[items.len() - 1] == items.last());
        assert(forall|i: int| 0 <= i < init.len() ==> #[trigger] init[i] == items[i]);
        assert(forall|i: int| 0 <= i < init.len() ==> #[trigger] items[i] == init[i]);
        let t = header_ctor_type(k, items.last().fields, result, before.s);
        let scheme = SchemeModel { forall: forall_vars, constraints: Seq::empty(), ty: t.0 };
        let canonical = dotted(module, items.last().name);
        key_is_put(before.c.env.bindings, canonical, scheme, name);
        key_is_put_new(before.c.constructors, canonical, scheme, name);
    }
}

proof fn key_is_put_new<K, V>(order: Seq<(K, V)>, k: K, v: V, other: K)
    ensures
        has_key(put_new(order, k, v), other) <==> has_key(order, other) || other == k,
{
    key_is_put(order, k, v, other);
}

/// The first constructor of a name that is not known gets a scheme over the parameters of
/// the type, for the type of the constructor.
pub proof fn new_constructors_have_their_types(
    k: NameSource,
    module: Seq<char>,
    lsp: Option<HeaderLspModel>,
    forall_vars: Seq<u32>,
    result: Ty,
    p: CtorProgress,
    ctor: ConstructorModel,
)
    requires
        distinct_keys(p.c.constructors),
        distinct_keys(p.c.env.bindings),
        !has_key(p.c.constructors, dotted(module, ctor.name)),
        !has_key(p.c.env.bindings, dotted(module, ctor.name)),
    ensures
        ({
            let after = with_header_ctor(k, module, lsp, forall_vars, result, p, ctor).c;
            let canonical = dotted(module, ctor.name);
            &&& at_key(after.constructors, canonical) matches Some(scheme)
            &&& at_key(after.env.bindings, canonical) == Some(scheme)
            &&& scheme.forall == forall_vars
            &&& scheme.constraints.len() == 0
            &&& ctor.fields.len() == 0 ==> scheme.ty == result
            &&& ctor.fields.len() > 0 ==> scheme.ty is Fun
        }),
{
    let t = header_ctor_type(k, ctor.fields, result, p.s);
    let canonical = dotted(module, ctor.name);
    let scheme = SchemeModel { forall: forall_vars, constraints: Seq::empty(), ty: t.0 };
    put_then_get(p.c.constructors, canonical, scheme, canonical);
    put_then_get(p.c.env.bindings, canonical, scheme, canonical);
    header_constructors_take_their_fields(k, ctor.fields, result, p.s);
}

/// The public functions of a header are bound under their canonical names, and no other
/// names are bound with them.
pub proof fn public_functions_are_registered(
    k: NameSource,
    module: Seq<char>,
    lsp: Option<HeaderLspModel>,
    p: Progress,
    items: Seq<(Seq<char>, FunctionModel)>,
    name: Seq<char>,
)
    ensures
        has_key(with_header_functions(k, module, lsp, p, items).c.env.bindings, name) <==> has_key(
            p.c.env.bindings,
            name,
        ) || exists|i: int|
            0 <= i < items.len() && (#[trigger] items[i]).1.public && dotted(module, items[i].0)
                == name,
    decreases items.len(),
{
    if items.len() > 0 {
        let init = items.drop_last();
        let before = with_header_functions(k, module, lsp, p, init);
        public_functions_are_registered(k, module, lsp, p, init, name);
        assert(items[items.len() - 1] == items.last());
        assert(forall|i: int| 0 <= i < init.len() ==> #[trigger] init[i] == items[i]);
        assert(forall|i: int| 0 <= i < init.len() ==> #[trigger] items[i] == init[i]);
        key_is_put(
            before.c.env.bindings,
            dotted(module, items.last().0),
            header_scheme(k, items.last().1, before.next).0,
            name,
        );
    }
}

/// A public function of a new name is bound to the scheme of its header, and what was
/// bound stays.
pub proof fn functions_have_their_schemes(
    k: NameSource,
    module: Seq<char>,
    lsp: Option<HeaderLspModel>,
    p: Progress,
    f: (Seq<char>, FunctionModel),
    other: Seq<char>,
)
    requires
        f.1.public,
        distinct_keys(p.c.env.bindings),
        other != dotted(module, f.0),
    ensures
        ({
            let after = with_header_function(k, module, lsp, p, f).c;
            let canonical = dotted(module, f.0);
            let before = at_key(p.c.env.bindings, canonical);
            &&& at_key(after.env.bindings, canonical) == (if before is Some {
                before
            } else {
                Some(header_scheme(k, f.1, p.next).0)
            })
            &&& at_key(after.env.bindings, other) == at_key(p.c.env.bindings, other)
            &&& after.known_funs.contains(canonical) <==> p.c.known_funs.contains(canonical)
                || has_effects(header_scheme(k, f.1, p.next).0.ty)
            &&& after.known_funs.contains(other) <==> p.c.known_funs.contains(other)
        }),
{
    let canonical = dotted(module, f.0);
    let scheme = header_scheme(k, f.1, p.next).0;
    put_then_get(p.c.env.bindings, canonical, scheme, other);
    add_new_contains(p.c.known_funs, seq![canonical], canonical);
    add_new_contains(p.c.known_funs, seq![canonical], other);
    assert(seq![canonical][0] == canonical);
}

/// The type of a header has its constructors as variants, in order, each with as many
/// fields as it declares. An opaque type has none that others know.
pub proof fn header_types_have_their_variants(
    k: NameSource,
    module: Seq<char>,
    lsp: Option<HeaderLspModel>,
    p: Progress,
    decl: (Seq<char>, TypeDeclModel),
)
    requires
        distinct_keys(p.c.adt_variants),
        !has_key(p.c.adt_variants, dotted(module, decl.0)),
    ensures
        ({
            let after = with_header_type(k, module, lsp, p, decl).c;
            match decl.1 {
                TypeDeclModel::Adt { opaque, constructors, .. } => {
                    &&& at_key(after.adt_variants, dotted(module, decl.0)) matches Some(variants)
                    &&& variants.len() == (if opaque {
                        0
                    } else {
                        constructors.len()
                    })
                    &&& forall|i: int|
                        0 <= i < variants.len() ==> #[trigger] variants[i] == (
                            dotted(module, constructors[i].name),
                            constructors[i].fields.len() as usize,
                        )
                    &&& opaque ==> after.constructors == p.c.constructors && after.env == p.c.env
                },
                TypeDeclModel::Alias { .. } => after == p.c,
            }
        }),
{
    if let TypeDeclModel::Adt { opaque, type_params, constructors, .. } = decl.1 {
        let s = params_state(type_params, p.next);
        let canonical = dotted(module, decl.0);
        let shown = if opaque {
            Seq::empty()
        } else {
            constructors
        };
        let start = CtorProgress { c: with_param_vars(p, type_params), s };
        let result = con_of_vars(canonical, ids_of(s.vars));
        ctors_keep_variants(k, module, lsp, ids_of(s.vars), result, start, shown);
        put_then_get(p.c.adt_variants, canonical, header_variants(module, shown), canonical);
    }
}

proof fn ctors_keep_variants(
    k: NameSource,
    module: Seq<char>,
    lsp: Option<HeaderLspModel>,
    forall_vars: Seq<u32>,
    result: Ty,
    acc: CtorProgress,
    items: Seq<ConstructorModel>,
)
    ensures
        with_header_ctors(k, module, lsp, forall_vars, result, acc, items).c.adt_variants
            == acc.c.adt_variants,
    decreases items.len(),
{
    if items.len() > 0 {
        ctors_keep_variants(k, module, lsp, forall_vars, result, acc, items.drop_last());
    }
}

proof fn fields_keep_names(k: NameSource, fields: Seq<(Seq<char>, HeaderTy)>, s: VarState)
    ensures
        typed_fields(k, fields, s).0.len() == fields.len(),
        forall|i: int|
            0 <= i < fields.len() ==> (#[trigger] typed_fields(k, fields, s).0[i]).0 == fields[i].0,
    decreases fields.len(),
{
    if fields.len() > 0 {
        fields_keep_names(k, fields.drop_last(), s);
        let before = typed_fields(k, fields.drop_last(), s).0;
        assert forall|i: int| 0 <= i < fields.len() implies (#[trigger] typed_fields(
            k,
            fields,
            s,
        ).0[i]).0 == fields[i].0 by {
            if i < fields.len() - 1 {
                assert(before[i].0 == fields.drop_last()[i].0);
            }
        }
    }
}

/// The record of a header is known with its fields, in order and under their names, and
/// with a variable of its own for each parameter. It has one variant, of its own name.
pub proof fn header_records_have_their_fields(
    k: NameSource,
    module: Seq<char>,
    lsp: Option<HeaderLspModel>,
    p: Progress,
    decl: (Seq<char>, RecordDeclModel),
)
    requires
        distinct_keys(p.c.records),
        distinct_keys(p.c.adt_variants),
        !has_key(p.c.records, dotted(module, decl.0)),
        !has_key(p.c.adt_variants, dotted(module, decl.0)),
    ensures
        ({
            let after = with_header_record(k, module, lsp, p, decl).c;
            let canonical = dotted(module, decl.0);
            &&& at_key(after.records, canonical) matches Some(record)
            &&& record.fields.len() == decl.1.fields.len()
            &&& forall|i: int|
                0 <= i < record.fields.len() ==> (#[trigger] record.fields[i]).0
                    == decl.1.fields[i].0
            &&& record.type_params.len() == decl.1.type_params.len()
            &&& forall|i: int|
                0 <= i < record.type_params.len() ==> #[trigger] record.type_params[i] == (p.next
                    + i) as u32
            &&& at_key(after.adt_variants, canonical) == Some(
                seq![(canonical, decl.1.fields.len() as usize)],
            )
            &&& has_key(after.constructors, canonical)
        }),
{
    let s = params_state(decl.1.type_params, p.next);
    let fields = typed_fields(k, decl.1.fields, s);
    let canonical = dotted(module, decl.0);
    fields_keep_names(k, decl.1.fields, s);
    let record = RecordModel { type_params: ids_of(s.vars), fields: fields.0 };
    put_then_get(p.c.records, canonical, record, canonical);
    put_then_get(
        p.c.adt_variants,
        canonical,
        seq![(canonical, fields.0.len() as usize)],
        canonical,
    );
    let scheme = SchemeModel {
        forall: ids_of(s.vars),
        constraints: Seq::empty(),
        ty: ctor_type(
            fields.0.map_values(|f: (Seq<char>, Ty)| crate::header_convert::field_type(f)),
            con_of_vars(canonical, ids_of(s.vars)),
        ),
    };
    key_is_put_new(p.c.constructors, canonical, scheme, canonical);
}

/// A public alias of a header is known with a variable and a kind for each parameter. A
/// private one is not known.
pub proof fn header_aliases_are_known(
    k: NameSource,
    module: Seq<char>,
    p: Progress,
    decl: (Seq<char>, TypeDeclModel),
)
    requires
        distinct_keys(p.c.type_aliases),
        !has_key(p.c.type_aliases, dotted(module, decl.0)),
    ensures
        ({
            let after = with_header_alias(k, module, p, decl).c;
            let found = at_key(after.type_aliases, dotted(module, decl.0));
            match decl.1 {
                TypeDeclModel::Alias { public, type_params, body } => {
                    &&& found is Some <==> public
                    &&& found matches Some(alias) ==> {
                        &&& alias.param_vars.len() == type_params.len()
                        &&& alias.param_kinds.len() == type_params.len()
                        &&& forall|i: int|
                            0 <= i < type_params.len() ==> #[trigger] alias.param_vars[i] == (p.next
                                + i) as u32
                        &&& alias.body == typed(k, body, params_state(type_params, p.next)).0
                    }
                },
                _ => found is None,
            }
        }),
{
    if let TypeDeclModel::Alias { public: true, type_params, body } = decl.1 {
        let s = params_state(type_params, p.next);
        let alias = AliasModel {
            param_vars: ids_of(s.vars),
            param_kinds: param_kinds(type_params),
            body: typed(k, body, s).0,
            span: Span { start: 0, end: 0 },
        };
        put_then_get(p.c.type_aliases, dotted(module, decl.0), alias, dotted(module, decl.0));
    }
}

/// The arity of each type of a header is known, that of a private one too, and no other
/// arity becomes known with them.
pub proof fn header_types_have_arities(
    module: Seq<char>,
    acc: CheckerModel,
    items: Seq<(Seq<char>, TypeDeclModel)>,
    name: Seq<char>,
)
    requires
        distinct_keys(acc.type_arity),
    ensures
        ({
            let after = with_type_stubs(module, acc, items).type_arity;
            &&& distinct_keys(after)
            &&& has_key(acc.type_arity, name) ==> at_key(after, name) == at_key(
                acc.type_arity,
                name,
            )
            &&& has_key(after, name) <==> has_key(acc.type_arity, name) || exists|i: int|
                0 <= i < items.len() && dotted(module, (#[trigger] items[i]).0) == name
            &&& !has_key(acc.type_arity, name) ==> (at_key(after, name) matches Some(n) ==> exists|
                i: int,
            |
                0 <= i < items.len() && dotted(module, (#[trigger] items[i]).0) == name && n
                    == items[i].1.params().len() as usize)
        }),
    decreases items.len(),
{
    if items.len() > 0 {
        let init = items.drop_last();
        let last = items.last();
        let before = with_type_stubs(module, acc, init).type_arity;
        header_types_have_arities(module, acc, init, name);
        assert(items[items.len() - 1] == last);
        assert(forall|i: int| 0 <= i < init.len() ==> #[trigger] init[i] == items[i]);
        assert(forall|i: int| 0 <= i < init.len() ==> #[trigger] items[i] == init[i]);
        let canonical = dotted(module, last.0);
        key_is_put_new(before, canonical, last.1.params().len() as usize, name);
        put_then_get(before, canonical, last.1.params().len() as usize, name);
    }
}

} // verus!
