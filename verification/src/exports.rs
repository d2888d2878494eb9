//! What a typechecked module makes known to others.

use vstd::prelude::*;
use crate::ast::{
    app_args_of, head_id_of, head_name_of, id_of, surface_of, Decl, ExposedItem, Exposing, NodeId,
    TypeConstructor, TypeExpr, TypeParam,
};
use crate::checker::{local_name, resolved_name, Checker, CheckerModel};
use crate::import_scope::{all_exposed_names, synthesize_all_exposed};
use crate::infos::{
    no_exports, EffectModel, ExportsModel, HandlerModel, ImplInfo, ImplModel,
    ModuleExports, RecordModel, TraitModel,
};
use crate::names::{arity_keyed_target_name, keyed_target};
use crate::schemes::{Scheme, SchemeModel};
use crate::scope::{lookup, BuilderModel, RecordBuilderInfo};
use crate::seqs::{
    add_new, add_new_contains, add_new_one, filter_contains, push_contains, push_new,
};
use crate::table::{at_key, distinct_keys, has_key, put, put_new, put_then_get, Table};
use crate::text::{after_last_dot, dot_join, dotted, join_text, joined, last_segment, text_eq};
use crate::traits::key_is_put;
use crate::values::{push_value, Dup};

verus! {

/// The canonical name of an export: qualified with the module's name, where it
/// has one.
pub open spec fn exported_name(prefix: Seq<char>, name: Seq<char>) -> Seq<char> {
    if prefix.len() == 0 {
        name
    } else {
        dotted(prefix, name)
    }
}

/// The canonical name of an export.
pub fn canonical_export_name(module_prefix: &str, name: &str) -> (r: String)
    ensures
        r@ == exported_name(module_prefix@, name@),
{
    if module_prefix.unicode_len() == 0 {
        name.to_owned()
    } else {
        dot_join(module_prefix, name)
    }
}

/// The name of the module that is checked, empty where it has none.
pub open spec fn module_prefix(c: CheckerModel) -> Seq<char> {
    match c.current_module {
        Some(module) => module,
        None => Seq::empty(),
    }
}

pub open spec fn ctor_name(v: TypeConstructor) -> Seq<char> {
    v.name@
}

pub open spec fn ctor_names(variants: Seq<TypeConstructor>) -> Seq<Seq<char>> {
    variants.map_values(|v: TypeConstructor| ctor_name(v))
}

/// The public names that a declaration brings: functions, types with their
/// constructors, aliases, records and handlers. Trait methods belong to their
/// traits.
pub open spec fn declared_names(decl: Decl) -> Seq<Seq<char>> {
    match decl {
        Decl::FunSignature { public, name, .. } => if public {
            seq![name@]
        } else {
            Seq::empty()
        },
        Decl::TypeDef { public, opaque, name, variants, .. } => if public {
            if opaque {
                seq![name@]
            } else {
                seq![name@] + ctor_names(variants@)
            }
        } else {
            Seq::empty()
        },
        Decl::TypeAlias { public, name, .. } => if public {
            seq![name@]
        } else {
            Seq::empty()
        },
        Decl::RecordDef { public, name, .. } => if public {
            seq![name@]
        } else {
            Seq::empty()
        },
        Decl::HandlerDef { public, name, .. } => if public {
            seq![name@]
        } else {
            Seq::empty()
        },
        _ => Seq::empty(),
    }
}

pub open spec fn with_declared(names: Seq<Seq<char>>, decl: Decl) -> Seq<Seq<char>> {
    add_new(names, declared_names(decl))
}

/// The public names of a program, each once.
pub open spec fn public_names(acc: Seq<Seq<char>>, items: Seq<Decl>) -> Seq<Seq<char>>
    decreases items.len(),
{
    if items.len() == 0 {
        acc
    } else {
        with_declared(public_names(acc, items.drop_last()), items.last())
    }
}

/// Exports with a public name that is bound, or else that of a constructor.
pub open spec fn with_binding(c: CheckerModel, x: ExportsModel, name: Seq<char>) -> ExportsModel {
    let origin = exported_name(module_prefix(c), name);
    match at_key(c.env.bindings, name) {
        Some(scheme) => ExportsModel {
            bindings: x.bindings.push((name, scheme)),
            binding_origins: put(x.binding_origins, name, origin),
            def_ids: match at_key(c.env.def_ids, name) {
                Some(id) => put(x.def_ids, name, id),
                None => x.def_ids,
            },
            ..x
        },
        None => match at_key(c.constructors, name) {
            Some(scheme) => ExportsModel {
                bindings: x.bindings.push((name, scheme)),
                binding_origins: put(x.binding_origins, name, origin),
                def_ids: match at_key(c.lsp.constructor_def_ids, name) {
                    Some(id) => put(x.def_ids, name, id),
                    None => x.def_ids,
                },
                ..x
            },
            None => x,
        },
    }
}

pub open spec fn with_bindings(
    c: CheckerModel,
    acc: ExportsModel,
    items: Seq<Seq<char>>,
) -> ExportsModel
    decreases items.len(),
{
    if items.len() == 0 {
        acc
    } else {
        with_binding(c, with_bindings(c, acc, items.drop_last()), items.last())
    }
}

/// Exports with the constructors of a public type or record.
pub open spec fn with_type_decl(c: CheckerModel, x: ExportsModel, decl: Decl) -> ExportsModel {
    match decl {
        Decl::TypeDef { public, opaque, name, variants, .. } => if public {
            ExportsModel {
                type_origins: put(
                    x.type_origins,
                    name@,
                    exported_name(module_prefix(c), name@),
                ),
                type_constructors: put(
                    x.type_constructors,
                    name@,
                    if opaque {
                        Seq::empty()
                    } else {
                        ctor_names(variants@)
                    },
                ),
                ..x
            }
        } else {
            x
        },
        Decl::RecordDef { public, name, .. } => if public {
            ExportsModel {
                type_origins: put(
                    x.type_origins,
                    name@,
                    exported_name(module_prefix(c), name@),
                ),
                type_constructors: put(x.type_constructors, name@, seq![name@]),
                ..x
            }
        } else {
            x
        },
        _ => x,
    }
}

pub open spec fn with_type_decls(
    c: CheckerModel,
    acc: ExportsModel,
    items: Seq<Decl>,
) -> ExportsModel
    decreases items.len(),
{
    if items.len() == 0 {
        acc
    } else {
        with_type_decl(c, with_type_decls(c, acc, items.drop_last()), items.last())
    }
}

/// The constructors of a type that are registered, with their schemes.
pub open spec fn with_registered_ctor(
    c: CheckerModel,
    ctors: Seq<(Seq<char>, SchemeModel)>,
    v: TypeConstructor,
) -> Seq<(Seq<char>, SchemeModel)> {
    match at_key(c.constructors, v.name@) {
        Some(scheme) => ctors.push((exported_name(module_prefix(c), v.name@), scheme)),
        None => ctors,
    }
}

pub open spec fn registered_ctors(
    c: CheckerModel,
    acc: Seq<(Seq<char>, SchemeModel)>,
    items: Seq<TypeConstructor>,
) -> Seq<(Seq<char>, SchemeModel)>
    decreases items.len(),
{
    if items.len() == 0 {
        acc
    } else {
        with_registered_ctor(c, registered_ctors(c, acc, items.drop_last()), items.last())
    }
}

/// Exports with the constructors of a private type or record, which the bodies of
/// default methods may use.
pub open spec fn with_private_ctors(c: CheckerModel, x: ExportsModel, decl: Decl) -> ExportsModel {
    match decl {
        Decl::TypeDef { public, opaque, name, variants, .. } => {
            let ctors = registered_ctors(c, Seq::empty(), variants@);
            if !public && !opaque && ctors.len() > 0 {
                ExportsModel {
                    inlinable_constructors: put(
                        x.inlinable_constructors,
                        exported_name(module_prefix(c), name@),
                        ctors,
                    ),
                    ..x
                }
            } else {
                x
            }
        },
        Decl::RecordDef { public, name, .. } => match at_key(c.constructors, name@) {
            Some(scheme) => if !public {
                let canonical = exported_name(module_prefix(c), name@);
                ExportsModel {
                    inlinable_constructors: put(
                        x.inlinable_constructors,
                        canonical,
                        seq![(canonical, scheme)],
                    ),
                    ..x
                }
            } else {
                x
            },
            None => x,
        },
        _ => x,
    }
}

pub open spec fn with_all_private_ctors(
    c: CheckerModel,
    acc: ExportsModel,
    items: Seq<Decl>,
) -> ExportsModel
    decreases items.len(),
{
    if items.len() == 0 {
        acc
    } else {
        with_private_ctors(c, with_all_private_ctors(c, acc, items.drop_last()), items.last())
    }
}

/// The key under which an impl's target is known: tuples by their arity.
pub open spec fn target_key_of(
    canonical: Seq<char>,
    target: Option<TypeExpr>,
    type_params: Seq<TypeParam>,
) -> Seq<char> {
    match target {
        Some(t) => if head_name_of(t) == Some("Tuple"@) {
            keyed_target(canonical, app_args_of(t))
        } else {
            keyed_target(canonical, type_params.len())
        },
        None => keyed_target(canonical, type_params.len()),
    }
}

/// The key under which an impl's target is known.
pub fn impl_target_key(
    canonical_target: &str,
    target_type_expr: &Option<TypeExpr>,
    type_params: &Vec<TypeParam>,
) -> (r: String)
    requires
        *target_type_expr matches Some(t) ==> app_args_of(t) <= usize::MAX,
    ensures
        r@ == target_key_of(canonical_target@, *target_type_expr, type_params@),
{
    let arity = match target_type_expr {
        Some(t) => match t.head_name() {
            Some(name) => if text_eq(name.as_str(), "Tuple") {
                t.app_arg_count()
            } else {
                type_params.len()
            },
            None => type_params.len(),
        },
        None => type_params.len(),
    };
    arity_keyed_target_name(canonical_target, arity)
}

/// What the head of a trait argument stands for.
pub open spec fn resolved_head(c: CheckerModel, t: TypeExpr) -> Seq<char> {
    let head = match head_name_of(t) {
        Some(name) => name,
        None => Seq::empty(),
    };
    let id = match head_id_of(t) {
        Some(id) => id,
        None => id_of(t),
    };
    resolved_name(c.resolution.type_refs, id, head)
}

pub open spec fn resolved_heads(c: CheckerModel, args: Seq<TypeExpr>) -> Seq<Seq<char>> {
    args.map_values(|t: TypeExpr| resolved_head(c, t))
}

/// What the context of a record builder stands for.
pub open spec fn builder_context(
    c: CheckerModel,
    id: NodeId,
    context: Seq<char>,
) -> Option<Seq<char>> {
    match at_key(c.resolution.type_refs, id) {
        Some(name) => Some(name),
        None => match lookup(c.scope_map.types, context) {
            Some(name) => Some(name),
            None => {
                let canonical = exported_name(module_prefix(c), context);
                if has_key(c.type_arity, canonical) {
                    Some(canonical)
                } else {
                    None
                }
            },
        },
    }
}

/// What a value name in a record builder stands for.
pub open spec fn builder_value(c: CheckerModel, name: Seq<char>) -> Option<Seq<char>> {
    match lookup(c.scope_map.values, name) {
        Some(canonical) => Some(canonical),
        None => if has_key(c.env.bindings, name) || has_key(c.constructors, name) {
            Some(exported_name(module_prefix(c), name))
        } else {
            None
        },
    }
}

/// Exports with the registered information on a declaration: public records,
/// traits, effects, handlers and record builders, and every impl.
pub open spec fn with_decl_info(c: CheckerModel, x: ExportsModel, decl: Decl) -> ExportsModel {
    match decl {
        Decl::RecordDef { public, name, .. } => match at_key(
            c.records,
            local_name(c.current_module, name@),
        ) {
            Some(info) => if public {
                ExportsModel { record_defs: put(x.record_defs, name@, info), ..x }
            } else {
                x
            },
            None => x,
        },
        Decl::TraitDef { public, name, .. } => {
            let canonical = local_name(c.current_module, name@);
            match at_key(c.trait_state.traits, canonical) {
                Some(info) => if public {
                    ExportsModel {
                        traits: put(x.traits, name@, info),
                        trait_origins: put(x.trait_origins, name@, canonical),
                        ..x
                    }
                } else {
                    x
                },
                None => x,
            }
        },
        Decl::ImplDef {
            id,
            trait_name,
            trait_type_args,
            target_type,
            target_type_expr,
            type_params,
            ..
        } => {
            let key = (
                resolved_name(c.resolution.impl_traits, id, trait_name@),
                resolved_heads(c, trait_type_args@),
                target_key_of(
                    resolved_name(c.resolution.impl_targets, id, target_type@),
                    target_type_expr,
                    type_params@,
                ),
            );
            match at_key(c.trait_state.impls, key) {
                Some(info) => ExportsModel { trait_impls: put(x.trait_impls, key, info), ..x },
                None => x,
            }
        },
        Decl::EffectDef { public, name, .. } => {
            let canonical = local_name(c.current_module, name@);
            match at_key(c.effects, canonical) {
                Some(info) => if public {
                    ExportsModel {
                        effects: put(x.effects, name@, info),
                        effect_origins: put(x.effect_origins, name@, canonical),
                        ..x
                    }
                } else {
                    x
                },
                None => x,
            }
        },
        Decl::HandlerDef { public, name, .. } => {
            let canonical = local_name(c.current_module, name@);
            match at_key(c.handlers, canonical) {
                Some(info) => if public {
                    ExportsModel {
                        handlers: put(x.handlers, name@, info),
                        handler_origins: put(x.handler_origins, name@, canonical),
                        ..x
                    }
                } else {
                    x
                },
                None => x,
            }
        },
        Decl::RecordBuilderDef { public, id, context, start, field, .. } => if public {
            match (
                builder_context(c, id, context@),
                builder_value(c, start@),
                builder_value(c, field@),
            ) {
                (Some(context), Some(start), Some(field)) => ExportsModel {
                    record_builders: put(
                        x.record_builders,
                        last_segment(context),
                        BuilderModel { context, start, field },
                    ),
                    ..x
                },
                _ => x,
            }
        } else {
            x
        },
        _ => x,
    }
}

pub open spec fn with_decl_infos(
    c: CheckerModel,
    acc: ExportsModel,
    items: Seq<Decl>,
) -> ExportsModel
    decreases items.len(),
{
    if items.len() == 0 {
        acc
    } else {
        with_decl_info(c, with_decl_infos(c, acc, items.drop_last()), items.last())
    }
}

/// Exports with the number of parameters of a type.
pub open spec fn with_arity(c: CheckerModel, x: ExportsModel, name: Seq<char>) -> ExportsModel {
    match at_key(c.type_arity, exported_name(module_prefix(c), name)) {
        Some(arity) => ExportsModel { type_arity: put(x.type_arity, name, arity), ..x },
        None => x,
    }
}

pub open spec fn with_arities(
    c: CheckerModel,
    acc: ExportsModel,
    items: Seq<Seq<char>>,
) -> ExportsModel
    decreases items.len(),
{
    if items.len() == 0 {
        acc
    } else {
        with_arity(c, with_arities(c, acc, items.drop_last()), items.last())
    }
}

/// Exports with a public type alias.
pub open spec fn with_alias(c: CheckerModel, x: ExportsModel, decl: Decl) -> ExportsModel {
    match decl {
        Decl::TypeAlias { public, name, .. } => {
            let canonical = exported_name(module_prefix(c), name@);
            match at_key(c.type_aliases, canonical) {
                Some(info) => if public {
                    ExportsModel {
                        type_origins: put(x.type_origins, name@, canonical),
                        type_aliases: put(x.type_aliases, name@, info),
                        type_arity: match at_key(c.type_arity, canonical) {
                            Some(arity) => put(x.type_arity, name@, arity),
                            None => x.type_arity,
                        },
                        ..x
                    }
                } else {
                    x
                },
                None => x,
            }
        },
        _ => x,
    }
}

pub open spec fn with_aliases(c: CheckerModel, acc: ExportsModel, items: Seq<Decl>) -> ExportsModel
    decreases items.len(),
{
    if items.len() == 0 {
        acc
    } else {
        with_alias(c, with_aliases(c, acc, items.drop_last()), items.last())
    }
}

/// Exports with the kinds of the parameters of a type.
pub open spec fn with_kinds(c: CheckerModel, x: ExportsModel, name: Seq<char>) -> ExportsModel {
    match at_key(c.type_param_kinds, exported_name(module_prefix(c), name)) {
        Some(kinds) => ExportsModel {
            type_param_kinds: put(x.type_param_kinds, name, kinds),
            ..x
        },
        None => x,
    }
}

pub open spec fn with_all_kinds(
    c: CheckerModel,
    acc: ExportsModel,
    items: Seq<Seq<char>>,
) -> ExportsModel
    decreases items.len(),
{
    if items.len() == 0 {
        acc
    } else {
        with_kinds(c, with_all_kinds(c, acc, items.drop_last()), items.last())
    }
}

/// Exports with a public function that declares effects.
pub open spec fn with_effectful(x: ExportsModel, decl: Decl) -> ExportsModel {
    match decl {
        Decl::FunSignature { public, name, effects, .. } => if public && effects@.len() > 0 {
            ExportsModel { effectful_funs: add_new(x.effectful_funs, seq![name@]), ..x }
        } else {
            x
        },
        _ => x,
    }
}

pub open spec fn with_all_effectful(acc: ExportsModel, items: Seq<Decl>) -> ExportsModel
    decreases items.len(),
{
    if items.len() == 0 {
        acc
    } else {
        with_effectful(with_all_effectful(acc, items.drop_last()), items.last())
    }
}

/// The name and doc comment of a public declaration.
pub open spec fn public_doc(decl: Decl) -> Option<(Seq<char>, Seq<Seq<char>>)> {
    match decl {
        Decl::FunSignature { public, name, doc, .. } => if public {
            Some((name@, doc.deep_view()))
        } else {
            None
        },
        Decl::TypeDef { public, name, doc, .. } => if public {
            Some((name@, doc.deep_view()))
        } else {
            None
        },
        Decl::RecordDef { public, name, doc, .. } => if public {
            Some((name@, doc.deep_view()))
        } else {
            None
        },
        Decl::EffectDef { public, name, doc, .. } => if public {
            Some((name@, doc.deep_view()))
        } else {
            None
        },
        Decl::HandlerDef { public, name, doc, .. } => if public {
            Some((name@, doc.deep_view()))
        } else {
            None
        },
        Decl::TraitDef { public, name, doc, .. } => if public {
            Some((name@, doc.deep_view()))
        } else {
            None
        },
        _ => None,
    }
}

pub open spec fn with_doc(x: ExportsModel, decl: Decl) -> ExportsModel {
    match public_doc(decl) {
        Some((name, doc)) => if doc.len() > 0 {
            ExportsModel { doc_comments: put(x.doc_comments, name, doc), ..x }
        } else {
            x
        },
        None => x,
    }
}

pub open spec fn with_docs(acc: ExportsModel, items: Seq<Decl>) -> ExportsModel
    decreases items.len(),
{
    if items.len() == 0 {
        acc
    } else {
        with_doc(with_docs(acc, items.drop_last()), items.last())
    }
}

/// The keys of a list of entries.
pub open spec fn entry_names<V>(entries: Seq<(Seq<char>, V)>) -> Seq<Seq<char>> {
    entries.map_values(|e: (Seq<char>, V)| e.0)
}

/// What the module declares itself.
pub open spec fn local_exports(c: CheckerModel, program: Seq<Decl>) -> ExportsModel {
    let x = with_bindings(c, no_exports(), public_names(Seq::empty(), program));
    let x = with_type_decls(c, x, program);
    let x = with_all_private_ctors(c, x, program);
    let x = with_decl_infos(c, x, program);
    let x = with_arities(c, x, entry_names(x.type_constructors));
    let x = with_arities(c, x, entry_names(x.record_defs));
    let x = with_aliases(c, x, program);
    let x = with_all_kinds(c, x, entry_names(x.type_constructors));
    let x = with_all_kinds(c, x, entry_names(x.type_aliases));
    let x = with_all_effectful(x, program);
    with_docs(x, program)
}

fn constructor_names(v: &Vec<TypeConstructor>) -> (r: Vec<String>)
    ensures
        r.deep_view() == v@.map_values(|x: TypeConstructor| ctor_name(x)),
{
    let mut out: Vec<String> = Vec::new();
    let mut i: usize = 0;
    while i < v.len()
        invariant
            i <= v.len(),
            out.len() == i,
            forall|j: int| 0 <= j < i ==> #[trigger] out.deep_view()[j] == ctor_name(v@[j]),
        decreases v.len() - i,
    {
        push_value(&mut out, v[i].name.clone());
        i = i + 1;
    }
    assert(out.deep_view() =~= v@.map_values(|x: TypeConstructor| ctor_name(x)));
    out
}

/// Adds the public names that a declaration brings.
fn add_declared_names(names: &mut Vec<String>, decl: &Decl)
    ensures
        final(names).deep_view() == with_declared(old(names).deep_view(), *decl),
{
    let ghost names0 = names.deep_view();
    match decl {
        Decl::FunSignature { public, name, .. } | Decl::TypeAlias {
            public,
            name,
            ..
        } | Decl::RecordDef { public, name, .. } | Decl::HandlerDef { public, name, .. } => {
            if *public {
                proof {
                    add_new_one(names0, name@);
                }
                push_new(names, name.clone());
            }
        },
        Decl::TypeDef { public, opaque, name, variants, .. } => {
            if *public {
                proof {
                    add_new_one(names0, name@);
                }
                push_new(names, name.clone());
                if !*opaque {
                    let ctors = constructor_names(variants);
                    add_names(names, &ctors);
                    proof {
                        crate::seqs::add_new_in_turn(names0, seq![name@], ctors.deep_view());
                    }
                }
            }
        },
        _ => {},
    }
}

/// Adds the names that are not there yet.
pub fn add_names(names: &mut Vec<String>, more: &Vec<String>)
    ensures
        final(names).deep_view() == add_new(old(names).deep_view(), more.deep_view()),
{
    let ghost names0 = names.deep_view();
    let ghost all = more.deep_view();
    let mut i: usize = 0;
    assert(all.take(0) =~= Seq::empty());
    while i < more.len()
        invariant
            i <= more.len(),
            all == more.deep_view(),
            names.deep_view() == add_new(names0, all.take(i as int)),
        decreases more.len() - i,
    {
        proof {
            assert(all.take(i + 1).drop_last() =~= all.take(i as int));
            assert(all.take(i + 1).last() == all[i as int]);
        }
        push_new(names, more[i].clone());
        i = i + 1;
    }
    assert(all.take(i as int) =~= all);
}

fn add_public_names(acc: &mut Vec<String>, items: &Vec<Decl>)
    ensures
        final(acc).deep_view() == public_names(old(acc).deep_view(), items@),
{
    let ghost a0 = acc.deep_view();
    let ghost all = items@;
    let mut i: usize = 0;
    assert(all.take(0) =~= Seq::empty());
    while i < items.len()
        invariant
            i <= items.len(),
            all == items@,
            acc.deep_view() == public_names(a0, all.take(i as int)),
        decreases items.len() - i,
    {
        proof {
            assert(all.take(i + 1).drop_last() =~= all.take(i as int));
            assert(all.take(i + 1).last() == all[i as int]);
        }
        add_declared_names(acc, &items[i]);
        i = i + 1;
    }
    assert(all.take(i as int) =~= all);
}

/// The public names of a program, each once.
pub fn public_names_for_tc(program: &Vec<Decl>) -> (r: Vec<String>)
    ensures
        r.deep_view() == public_names(Seq::empty(), program@),
{
    let mut names: Vec<String> = Vec::new();
    assert(names.deep_view() =~= Seq::empty());
    add_public_names(&mut names, program);
    names
}

fn prefix_of(c: &Checker) -> (r: String)
    ensures
        r@ == module_prefix(c.deep_view()),
{
    match &c.current_module {
        Some(module) => module.clone(),
        None => String::new(),
    }
}

fn add_binding(c: &Checker, prefix: &str, x: &mut ModuleExports, name: &String)
    requires
        prefix@ == module_prefix(c.deep_view()),
    ensures
        final(x).deep_view() == with_binding(c.deep_view(), old(x).deep_view(), name@),
{
    let origin = canonical_export_name(prefix, name.as_str());
    if let Some(scheme) = c.env.get(name.as_str()) {
        push_value(&mut x.bindings, (name.clone(), scheme.dup()));
        x.binding_origins.insert(name.clone(), origin);
        if let Some(id) = c.env.def_id(name.as_str()) {
            x.def_ids.insert(name.clone(), id);
        }
    } else if let Some(scheme) = c.constructors.get(name) {
        push_value(&mut x.bindings, (name.clone(), scheme.dup()));
        x.binding_origins.insert(name.clone(), origin);
        if let Some(id) = c.lsp.constructor_def_ids.get(name) {
            x.def_ids.insert(name.clone(), *id);
        }
    }
}

fn add_bindings(c: &Checker, prefix: &str, acc: &mut ModuleExports, items: &Vec<String>)
    requires
        prefix@ == module_prefix(c.deep_view()),
    ensures
        final(acc).deep_view() == with_bindings(
            c.deep_view(),
            old(acc).deep_view(),
            items.deep_view(),
        ),
{
    let ghost a0 = acc.deep_view();
    let ghost all = items.deep_view();
    let mut i: usize = 0;
    assert(all.take(0) =~= Seq::empty());
    while i < items.len()
        invariant
            i <= items.len(),
            all == items.deep_view(),
            acc.deep_view() == with_bindings(c.deep_view(), a0, all.take(i as int)),
            prefix@ == module_prefix(c.deep_view()),
        decreases items.len() - i,
    {
        proof {
            assert(all.take(i + 1).drop_last() =~= all.take(i as int));
            assert(all.take(i + 1).last() == all[i as int]);
        }
        add_binding(c, prefix, acc, &items[i]);
        i = i + 1;
    }
    assert(all.take(i as int) =~= all);
}

fn add_type_decl(c: &Checker, prefix: &str, x: &mut ModuleExports, decl: &Decl)
    requires
        prefix@ == module_prefix(c.deep_view()),
    ensures
        final(x).deep_view() == with_type_decl(c.deep_view(), old(x).deep_view(), *decl),
{
    match decl {
        Decl::TypeDef { public, opaque, name, variants, .. } => {
            if *public {
                x.type_origins.insert(name.clone(), canonical_export_name(prefix, name.as_str()));
                let ctors: Vec<String> = if *opaque {
                    Vec::new()
                } else {
                    constructor_names(variants)
                };
                proof {
                    if *opaque {
                        assert(ctors.deep_view() =~= Seq::empty());
                    }
                }
                x.type_constructors.insert(name.clone(), ctors);
            }
        },
        Decl::RecordDef { public, name, .. } => {
            if *public {
                x.type_origins.insert(name.clone(), canonical_export_name(prefix, name.as_str()));
                let mut ctors: Vec<String> = Vec::new();
                ctors.push(name.clone());
                assert(ctors.deep_view() =~= seq![name@]);
                x.type_constructors.insert(name.clone(), ctors);
            }
        },
        _ => {},
    }
}

fn add_type_decls(c: &Checker, prefix: &str, acc: &mut ModuleExports, items: &Vec<Decl>)
    requires
        prefix@ == module_prefix(c.deep_view()),
    ensures
        final(acc).deep_view() == with_type_decls(c.deep_view(), old(acc).deep_view(), items@),
{
    let ghost a0 = acc.deep_view();
    let ghost all = items@;
    let mut i: usize = 0;
    assert(all.take(0) =~= Seq::empty());
    while i < items.len()
        invariant
            i <= items.len(),
            all == items@,
            acc.deep_view() == with_type_decls(c.deep_view(), a0, all.take(i as int)),
            prefix@ == module_prefix(c.deep_view()),
        decreases items.len() - i,
    {
        proof {
            assert(all.take(i + 1).drop_last() =~= all.take(i as int));
            assert(all.take(i + 1).last() == all[i as int]);
        }
        add_type_decl(c, prefix, acc, &items[i]);
        i = i + 1;
    }
    assert(all.take(i as int) =~= all);
}

fn add_registered_ctors(
    c: &Checker,
    prefix: &str,
    acc: &mut Vec<(String, Scheme)>,
    items: &Vec<TypeConstructor>,
)
    requires
        prefix@ == module_prefix(c.deep_view()),
    ensures
        final(acc).deep_view() == registered_ctors(c.deep_view(), old(acc).deep_view(), items@),
{
    let ghost a0 = acc.deep_view();
    let ghost all = items@;
    let mut i: usize = 0;
    assert(all.take(0) =~= Seq::empty());
    while i < items.len()
        invariant
            i <= items.len(),
            all == items@,
            acc.deep_view() == registered_ctors(c.deep_view(), a0, all.take(i as int)),
            prefix@ == module_prefix(c.deep_view()),
        decreases items.len() - i,
    {
        proof {
            assert(all.take(i + 1).drop_last() =~= all.take(i as int));
            assert(all.take(i + 1).last() == all[i as int]);
        }
        let name = &items[i].name;
        if let Some(scheme) = c.constructors.get(name) {
            push_value(acc, (canonical_export_name(prefix, name.as_str()), scheme.dup()));
        }
        i = i + 1;
    }
    assert(all.take(i as int) =~= all);
}

fn add_private_ctors(c: &Checker, prefix: &str, x: &mut ModuleExports, decl: &Decl)
    requires
        prefix@ == module_prefix(c.deep_view()),
    ensures
        final(x).deep_view() == with_private_ctors(c.deep_view(), old(x).deep_view(), *decl),
{
    match decl {
        Decl::TypeDef { public, opaque, name, variants, .. } => {
            if !*public && !*opaque {
                let mut ctors: Vec<(String, Scheme)> = Vec::new();
                assert(ctors.deep_view() =~= Seq::empty());
                add_registered_ctors(c, prefix, &mut ctors, variants);
                assert(ctors.deep_view().len() == ctors.len());
                if ctors.len() > 0 {
                    x.inlinable_constructors.insert(
                        canonical_export_name(prefix, name.as_str()),
                        ctors,
                    );
                }
            }
        },
        Decl::RecordDef { public, name, .. } => {
            if !*public {
                if let Some(scheme) = c.constructors.get(name) {
                    let canonical = canonical_export_name(prefix, name.as_str());
                    let mut ctors: Vec<(String, Scheme)> = Vec::new();
                    ctors.push((canonical.clone(), scheme.dup()));
                    assert(ctors.deep_view() =~= seq![(canonical@, scheme.deep_view())]);
                    x.inlinable_constructors.insert(canonical, ctors);
                }
            }
        },
        _ => {},
    }
}

fn add_all_private_ctors(c: &Checker, prefix: &str, acc: &mut ModuleExports, items: &Vec<Decl>)
    requires
        prefix@ == module_prefix(c.deep_view()),
    ensures
        final(acc).deep_view() == with_all_private_ctors(
            c.deep_view(),
            old(acc).deep_view(),
            items@,
        ),
{
    let ghost a0 = acc.deep_view();
    let ghost all = items@;
    let mut i: usize = 0;
    assert(all.take(0) =~= Seq::empty());
    while i < items.len()
        invariant
            i <= items.len(),
            all == items@,
            acc.deep_view() == with_all_private_ctors(c.deep_view(), a0, all.take(i as int)),
            prefix@ == module_prefix(c.deep_view()),
        decreases items.len() - i,
    {
        proof {
            assert(all.take(i + 1).drop_last() =~= all.take(i as int));
            assert(all.take(i + 1).last() == all[i as int]);
        }
        add_private_ctors(c, prefix, acc, &items[i]);
        i = i + 1;
    }
    assert(all.take(i as int) =~= all);
}

/// What the head of a trait argument stands for.
pub fn resolve_head(c: &Checker, t: &TypeExpr) -> (r: String)
    ensures
        r@ == resolved_head(c.deep_view(), *t),
{
    let id = match t.head_id() {
        Some(id) => id,
        None => t.id(),
    };
    match t.head_name() {
        Some(name) => c.resolved_type_name(id, name.as_str()),
        None => {
            let none = String::new();
            c.resolved_type_name(id, none.as_str())
        },
    }
}

/// What the heads of trait arguments stand for.
pub fn resolve_heads(c: &Checker, v: &Vec<TypeExpr>) -> (r: Vec<String>)
    ensures
        r.deep_view() == v@.map_values(|x: TypeExpr| resolved_head(c.deep_view(), x)),
{
    let mut out: Vec<String> = Vec::new();
    let mut i: usize = 0;
    while i < v.len()
        invariant
            i <= v.len(),
            out.len() == i,
            forall|j: int| 0 <= j < i ==> #[trigger] out.deep_view()[j] == resolved_head(
                c.deep_view(),
                v@[j],
            ),
        decreases v.len() - i,
    {
        push_value(&mut out, resolve_head(c, &v[i]));
        i = i + 1;
    }
    assert(out.deep_view() =~= v@.map_values(|x: TypeExpr| resolved_head(c.deep_view(), x)));
    out
}

fn resolved_builder_context(c: &Checker, prefix: &str, id: NodeId, context: &str) -> (r: Option<
    String,
>)
    requires
        prefix@ == module_prefix(c.deep_view()),
    ensures
        r.deep_view() == builder_context(c.deep_view(), id, context@),
{
    if let Some(name) = c.resolution.type_ref(id) {
        return Some(name.clone());
    }
    if let Some(name) = c.scope_map.resolve_type(context) {
        return Some(name.clone());
    }
    let canonical = canonical_export_name(prefix, context);
    if c.type_arity.contains_key(&canonical) {
        Some(canonical)
    } else {
        None
    }
}

fn resolved_builder_value(c: &Checker, prefix: &str, name: &str) -> (r: Option<String>)
    requires
        prefix@ == module_prefix(c.deep_view()),
    ensures
        r.deep_view() == builder_value(c.deep_view(), name@),
{
    if let Some(canonical) = c.scope_map.resolve_value(name) {
        return Some(canonical.clone());
    }
    if c.env.get(name).is_some() || c.constructors.has_name(name) {
        Some(canonical_export_name(prefix, name))
    } else {
        None
    }
}

/// The arguments of every impl target can be counted.
pub open spec fn targets_fit(program: Seq<Decl>) -> bool {
    forall|i: int| #![trigger program[i]] 0 <= i < program.len() ==> target_fits(program[i])
}

pub open spec fn target_fits(decl: Decl) -> bool {
    match decl {
        Decl::ImplDef { target_type_expr, .. } => match target_type_expr {
            Some(t) => app_args_of(t) <= usize::MAX,
            None => true,
        },
        _ => true,
    }
}

fn add_decl_info(c: &Checker, prefix: &str, x: &mut ModuleExports, decl: &Decl)
    requires
        prefix@ == module_prefix(c.deep_view()),
        target_fits(*decl),
    ensures
        final(x).deep_view() == with_decl_info(c.deep_view(), old(x).deep_view(), *decl),
{
    match decl {
        Decl::RecordDef { public, name, .. } => {
            let canonical = c.canonical_name(name.as_str());
            if *public {
                if let Some(info) = c.records.get(&canonical) {
                    x.record_defs.insert(name.clone(), info.dup());
                }
            }
        },
        Decl::TraitDef { public, name, .. } => {
            let canonical = c.canonical_name(name.as_str());
            if *public {
                if let Some(info) = c.trait_state.traits.get(&canonical) {
                    x.traits.insert(name.clone(), info.dup());
                    x.trait_origins.insert(name.clone(), canonical);
                }
            }
        },
        Decl::ImplDef {
            id,
            trait_name,
            trait_type_args,
            target_type,
            target_type_expr,
            type_params,
            ..
        } => {
            let resolved_trait = c.resolved_impl_trait_name(*id, trait_name.as_str());
            let resolved_target = c.resolved_impl_target_type_name(*id, target_type.as_str());
            let target = impl_target_key(resolved_target.as_str(), target_type_expr, type_params);
            let args = resolve_heads(c, trait_type_args);
            let key = (resolved_trait, args, target);
            assert(key.1.deep_view() =~= resolved_heads(c.deep_view(), trait_type_args@));
            if let Some(info) = c.trait_state.impls.get(&key) {
                let info = info.dup();
                x.trait_impls.insert(key, info);
            }
        },
        Decl::EffectDef { public, name, .. } => {
            let canonical = c.canonical_name(name.as_str());
            if *public {
                if let Some(info) = c.effects.get(&canonical) {
                    x.effects.insert(name.clone(), info.dup());
                    x.effect_origins.insert(name.clone(), canonical);
                }
            }
        },
        Decl::HandlerDef { public, name, .. } => {
            let canonical = c.canonical_name(name.as_str());
            if *public {
                if let Some(info) = c.handlers.get(&canonical) {
                    x.handlers.insert(name.clone(), info.dup());
                    x.handler_origins.insert(name.clone(), canonical);
                }
            }
        },
        Decl::RecordBuilderDef { public, id, context, start, field, .. } => {
            if *public {
                let context = resolved_builder_context(c, prefix, *id, context.as_str());
                let start = resolved_builder_value(c, prefix, start.as_str());
                let field = resolved_builder_value(c, prefix, field.as_str());
                match (context, start, field) {
                    (Some(context), Some(start), Some(field)) => {
                        let surface = after_last_dot(context.as_str()).to_owned();
                        x.record_builders.insert(
                            surface,
                            RecordBuilderInfo { context, start, field },
                        );
                    },
                    _ => {},
                }
            }
        },
        _ => {},
    }
}

fn add_decl_infos(c: &Checker, prefix: &str, acc: &mut ModuleExports, items: &Vec<Decl>)
    requires
        prefix@ == module_prefix(c.deep_view()),
        targets_fit(items@),
    ensures
        final(acc).deep_view() == with_decl_infos(c.deep_view(), old(acc).deep_view(), items@),
{
    let ghost a0 = acc.deep_view();
    let ghost all = items@;
    let mut i: usize = 0;
    assert(all.take(0) =~= Seq::empty());
    while i < items.len()
        invariant
            i <= items.len(),
            all == items@,
            acc.deep_view() == with_decl_infos(c.deep_view(), a0, all.take(i as int)),
            prefix@ == module_prefix(c.deep_view()),
            targets_fit(items@),
        decreases items.len() - i,
    {
        proof {
            assert(all.take(i + 1).drop_last() =~= all.take(i as int));
            assert(all.take(i + 1).last() == all[i as int]);
        }
        assert(target_fits(items@[i as int]));
        add_decl_info(c, prefix, acc, &items[i]);
        i = i + 1;
    }
    assert(all.take(i as int) =~= all);
}

fn add_arities(c: &Checker, prefix: &str, acc: &mut ModuleExports, items: &Vec<String>)
    requires
        prefix@ == module_prefix(c.deep_view()),
    ensures
        final(acc).deep_view() == with_arities(
            c.deep_view(),
            old(acc).deep_view(),
            items.deep_view(),
        ),
{
    let ghost a0 = acc.deep_view();
    let ghost all = items.deep_view();
    let mut i: usize = 0;
    assert(all.take(0) =~= Seq::empty());
    while i < items.len()
        invariant
            i <= items.len(),
            all == items.deep_view(),
            acc.deep_view() == with_arities(c.deep_view(), a0, all.take(i as int)),
            prefix@ == module_prefix(c.deep_view()),
        decreases items.len() - i,
    {
        proof {
            assert(all.take(i + 1).drop_last() =~= all.take(i as int));
            assert(all.take(i + 1).last() == all[i as int]);
        }
        let name = &items[i];
        let canonical = canonical_export_name(prefix, name.as_str());
        if let Some(arity) = c.type_arity.get(&canonical) {
            acc.type_arity.insert(name.clone(), *arity);
        }
        i = i + 1;
    }
    assert(all.take(i as int) =~= all);
}

fn add_aliases(c: &Checker, prefix: &str, acc: &mut ModuleExports, items: &Vec<Decl>)
    requires
        prefix@ == module_prefix(c.deep_view()),
    ensures
        final(acc).deep_view() == with_aliases(c.deep_view(), old(acc).deep_view(), items@),
{
    let ghost a0 = acc.deep_view();
    let ghost all = items@;
    let mut i: usize = 0;
    assert(all.take(0) =~= Seq::empty());
    while i < items.len()
        invariant
            i <= items.len(),
            all == items@,
            acc.deep_view() == with_aliases(c.deep_view(), a0, all.take(i as int)),
            prefix@ == module_prefix(c.deep_view()),
        decreases items.len() - i,
    {
        proof {
            assert(all.take(i + 1).drop_last() =~= all.take(i as int));
            assert(all.take(i + 1).last() == all[i as int]);
        }
        if let Decl::TypeAlias { public, name, .. } = &items[i] {
            let canonical = canonical_export_name(prefix, name.as_str());
            if *public {
                if let Some(info) = c.type_aliases.get(&canonical) {
                    acc.type_aliases.insert(name.clone(), info.dup());
                    if let Some(arity) = c.type_arity.get(&canonical) {
                        acc.type_arity.insert(name.clone(), *arity);
                    }
                    acc.type_origins.insert(name.clone(), canonical);
                }
            }
        }
        i = i + 1;
    }
    assert(all.take(i as int) =~= all);
}

fn add_kinds(c: &Checker, prefix: &str, acc: &mut ModuleExports, items: &Vec<String>)
    requires
        prefix@ == module_prefix(c.deep_view()),
    ensures
        final(acc).deep_view() == with_all_kinds(
            c.deep_view(),
            old(acc).deep_view(),
            items.deep_view(),
        ),
{
    let ghost a0 = acc.deep_view();
    let ghost all = items.deep_view();
    let mut i: usize = 0;
    assert(all.take(0) =~= Seq::empty());
    while i < items.len()
        invariant
            i <= items.len(),
            all == items.deep_view(),
            acc.deep_view() == with_all_kinds(c.deep_view(), a0, all.take(i as int)),
            prefix@ == module_prefix(c.deep_view()),
        decreases items.len() - i,
    {
        proof {
            assert(all.take(i + 1).drop_last() =~= all.take(i as int));
            assert(all.take(i + 1).last() == all[i as int]);
        }
        let name = &items[i];
        let canonical = canonical_export_name(prefix, name.as_str());
        if let Some(kinds) = c.type_param_kinds.get(&canonical) {
            acc.type_param_kinds.insert(name.clone(), kinds.dup());
        }
        i = i + 1;
    }
    assert(all.take(i as int) =~= all);
}

fn add_effectful(acc: &mut ModuleExports, items: &Vec<Decl>)
    ensures
        final(acc).deep_view() == with_all_effectful(old(acc).deep_view(), items@),
{
    let ghost a0 = acc.deep_view();
    let ghost all = items@;
    let mut i: usize = 0;
    assert(all.take(0) =~= Seq::empty());
    while i < items.len()
        invariant
            i <= items.len(),
            all == items@,
            acc.deep_view() == with_all_effectful(a0, all.take(i as int)),
        decreases items.len() - i,
    {
        proof {
            assert(all.take(i + 1).drop_last() =~= all.take(i as int));
            assert(all.take(i + 1).last() == all[i as int]);
        }
        if let Decl::FunSignature { public, name, effects, .. } = &items[i] {
            if *public && effects.len() > 0 {
                proof {
                    add_new_one(acc.effectful_funs.deep_view(), name@);
                }
                push_new(&mut acc.effectful_funs, name.clone());
            }
        }
        i = i + 1;
    }
    assert(all.take(i as int) =~= all);
}

fn doc_of<'a>(decl: &'a Decl) -> (r: Option<(&'a String, &'a Vec<String>)>)
    ensures
        match r {
            Some((name, doc)) => public_doc(*decl) == Some((name@, doc.deep_view())),
            None => public_doc(*decl) is None,
        },
{
    match decl {
        Decl::FunSignature { public, name, doc, .. } => if *public {
            Some((name, doc))
        } else {
            None
        },
        Decl::TypeDef { public, name, doc, .. } => if *public {
            Some((name, doc))
        } else {
            None
        },
        Decl::RecordDef { public, name, doc, .. } => if *public {
            Some((name, doc))
        } else {
            None
        },
        Decl::EffectDef { public, name, doc, .. } => if *public {
            Some((name, doc))
        } else {
            None
        },
        Decl::HandlerDef { public, name, doc, .. } => if *public {
            Some((name, doc))
        } else {
            None
        },
        Decl::TraitDef { public, name, doc, .. } => if *public {
            Some((name, doc))
        } else {
            None
        },
        _ => None,
    }
}

fn add_docs(acc: &mut ModuleExports, items: &Vec<Decl>)
    ensures
        final(acc).deep_view() == with_docs(old(acc).deep_view(), items@),
{
    let ghost a0 = acc.deep_view();
    let ghost all = items@;
    let mut i: usize = 0;
    assert(all.take(0) =~= Seq::empty());
    while i < items.len()
        invariant
            i <= items.len(),
            all == items@,
            acc.deep_view() == with_docs(a0, all.take(i as int)),
        decreases items.len() - i,
    {
        proof {
            assert(all.take(i + 1).drop_last() =~= all.take(i as int));
            assert(all.take(i + 1).last() == all[i as int]);
        }
        if let Some((name, doc)) = doc_of(&items[i]) {
            assert(doc.deep_view().len() == doc.len());
            if doc.len() > 0 {
                acc.doc_comments.insert(name.clone(), doc.dup());
            }
        }
        i = i + 1;
    }
    assert(all.take(i as int) =~= all);
}

/// The keys of a table.
pub fn table_names<V: DeepView>(t: &Table<String, V>) -> (r: Vec<String>)
    ensures
        r.deep_view() == entry_names(t.order()),
{
    let ghost all = t.order();
    let n = t.len();
    let mut out: Vec<String> = Vec::new();
    let mut i: usize = 0;
    while i < n
        invariant
            i <= n,
            n == all.len(),
            all == t.order(),
            out.len() == i,
            forall|j: int| 0 <= j < i ==> #[trigger] out.deep_view()[j] == all[j].0,
        decreases n - i,
    {
        push_value(&mut out, t.key(i).clone());
        i = i + 1;
    }
    assert(out.deep_view() =~= entry_names(all));
    out
}

fn collect_local_exports(c: &Checker, program: &Vec<Decl>) -> (r: ModuleExports)
    requires
        targets_fit(program@),
    ensures
        r.deep_view() == local_exports(c.deep_view(), program@),
{
    let prefix = prefix_of(c);
    let prefix = prefix.as_str();
    let names = public_names_for_tc(program);
    let mut x = ModuleExports::new();
    add_bindings(c, prefix, &mut x, &names);
    add_type_decls(c, prefix, &mut x, program);
    add_all_private_ctors(c, prefix, &mut x, program);
    add_decl_infos(c, prefix, &mut x, program);
    let types = table_names(&x.type_constructors);
    add_arities(c, prefix, &mut x, &types);
    let records = table_names(&x.record_defs);
    add_arities(c, prefix, &mut x, &records);
    add_aliases(c, prefix, &mut x, program);
    let types = table_names(&x.type_constructors);
    add_kinds(c, prefix, &mut x, &types);
    let aliases = table_names(&x.type_aliases);
    add_kinds(c, prefix, &mut x, &aliases);
    add_effectful(&mut x, program);
    add_docs(&mut x, program);
    x
}

/// An item that is re-exported: the module it comes from, its name there, and its
/// name here.
pub type ReExported = (Seq<char>, Seq<char>, Seq<char>);

pub open spec fn re_exported_item(module: Seq<char>, item: ExposedItem) -> ReExported {
    (module, item.name@, surface_of(item))
}

/// The items that a declaration re-exports.
pub open spec fn re_exported_by(
    loaded: Seq<(Seq<char>, ExportsModel)>,
    decl: Decl,
) -> Seq<ReExported> {
    match decl {
        Decl::Import { module, exposing, .. } => {
            let name = joined(module.deep_view(), "."@);
            match exposing {
                Some(Exposing::Items(items)) => items@.filter(
                    |i: ExposedItem| i.public,
                ).map_values(|i: ExposedItem| re_exported_item(name, i)),
                Some(Exposing::All { public, .. }) => match at_key(loaded, name) {
                    Some(x) => if public {
                        all_exposed_names(x).map_values(|n: Seq<char>| (name, n, n))
                    } else {
                        Seq::empty()
                    },
                    None => Seq::empty(),
                },
                None => Seq::empty(),
            }
        },
        _ => Seq::empty(),
    }
}

pub open spec fn with_re_exported(
    loaded: Seq<(Seq<char>, ExportsModel)>,
    items: Seq<ReExported>,
    decl: Decl,
) -> Seq<ReExported> {
    items + re_exported_by(loaded, decl)
}

/// The items that a program re-exports.
pub open spec fn re_exported(
    loaded: Seq<(Seq<char>, ExportsModel)>,
    acc: Seq<ReExported>,
    items: Seq<Decl>,
) -> Seq<ReExported>
    decreases items.len(),
{
    if items.len() == 0 {
        acc
    } else {
        with_re_exported(loaded, re_exported(loaded, acc, items.drop_last()), items.last())
    }
}

/// The first entry with a key.
pub open spec fn first_at<V>(entries: Seq<(Seq<char>, V)>, k: Seq<char>) -> Option<V>
    decreases entries.len(),
{
    if entries.len() == 0 {
        None
    } else {
        match first_at(entries.drop_last(), k) {
            Some(v) => Some(v),
            None => if entries.last().0 == k {
                Some(entries.last().1)
            } else {
                None
            },
        }
    }
}

pub proof fn first_at_stays<V>(entries: Seq<(Seq<char>, V)>, k: Seq<char>, n: int)
    requires
        0 <= n <= entries.len(),
        first_at(entries.take(n), k) is Some,
    ensures
        first_at(entries, k) == first_at(entries.take(n), k),
    decreases entries.len(),
{
    if n < entries.len() {
        assert(entries.drop_last().take(n) =~= entries.take(n));
        first_at_stays(entries.drop_last(), k, n);
    } else {
        assert(entries.take(n) =~= entries);
    }
}

/// The first binding of a name.
pub fn find_binding<'a>(bindings: &'a Vec<(String, Scheme)>, name: &str) -> (r: Option<&'a Scheme>)
    ensures
        r.deep_view() == first_at(bindings.deep_view(), name@),
{
    let ghost all = bindings.deep_view();
    let mut i: usize = 0;
    assert(all.take(0) =~= Seq::empty());
    while i < bindings.len()
        invariant
            i <= bindings.len(),
            all == bindings.deep_view(),
            first_at(all.take(i as int), name@) is None,
        decreases bindings.len() - i,
    {
        proof {
            assert(all.take(i + 1).drop_last() =~= all.take(i as int));
            assert(all.take(i + 1).last() == all[i as int]);
        }
        if text_eq(bindings[i].0.as_str(), name) {
            proof {
                first_at_stays(all, name@, i + 1);
            }
            return Some(&bindings[i].1);
        }
        i = i + 1;
    }
    assert(all.take(i as int) =~= all);
    None
}

/// Where a re-exported name comes from.
pub open spec fn re_export_origin(
    origins: Seq<(Seq<char>, Seq<char>)>,
    item: ReExported,
) -> Seq<char> {
    match at_key(origins, item.1) {
        Some(origin) => origin,
        None => dotted(item.0, item.1),
    }
}

/// The doc comment of a re-exported name, where there is none yet.
pub open spec fn with_item_doc(
    x: ExportsModel,
    from: ExportsModel,
    item: ReExported,
) -> ExportsModel {
    match at_key(from.doc_comments, item.1) {
        Some(doc) => ExportsModel { doc_comments: put_new(x.doc_comments, item.2, doc), ..x },
        None => x,
    }
}

/// Exports with a re-exported value, unless the name is taken.
pub open spec fn with_value_of(
    x: ExportsModel,
    from: ExportsModel,
    item: ReExported,
) -> ExportsModel {
    match first_at(from.bindings, item.1) {
        Some(scheme) => if has_key(x.bindings, item.2) {
            x
        } else {
            with_item_doc(
                ExportsModel {
                    bindings: x.bindings.push((item.2, scheme)),
                    binding_origins: put(
                        x.binding_origins,
                        item.2,
                        re_export_origin(from.binding_origins, item),
                    ),
                    def_ids: match at_key(from.def_ids, item.1) {
                        Some(id) => put(x.def_ids, item.2, id),
                        None => x.def_ids,
                    },
                    ..x
                },
                from,
                item,
            )
        },
        None => x,
    }
}

pub open spec fn with_value_reexport(
    loaded: Seq<(Seq<char>, ExportsModel)>,
    x: ExportsModel,
    item: ReExported,
) -> ExportsModel {
    match at_key(loaded, item.0) {
        Some(from) => with_value_of(x, from, item),
        None => x,
    }
}

/// A constructor under its own name, or under the new name of the type where it is
/// named like the type.
pub open spec fn surfaced(item: ReExported, ctor: Seq<char>) -> Seq<char> {
    if ctor == item.1 {
        item.2
    } else {
        ctor
    }
}

/// Exports with a constructor of a re-exported type, unless the name is taken.
pub open spec fn with_ctor_of(
    from: ExportsModel,
    item: ReExported,
    x: ExportsModel,
    ctor: Seq<char>,
) -> ExportsModel {
    let surface = surfaced(item, ctor);
    match first_at(from.bindings, ctor) {
        Some(scheme) => if has_key(x.bindings, surface) {
            x
        } else {
            ExportsModel {
                bindings: x.bindings.push((surface, scheme)),
                binding_origins: put(
                    x.binding_origins,
                    surface,
                    re_export_origin(from.binding_origins, (item.0, ctor, surface)),
                ),
                def_ids: match at_key(from.def_ids, ctor) {
                    Some(id) => put(x.def_ids, surface, id),
                    None => x.def_ids,
                },
                ..x
            }
        },
        None => x,
    }
}

pub open spec fn with_ctors_of(
    from: ExportsModel,
    item: ReExported,
    acc: ExportsModel,
    items: Seq<Seq<char>>,
) -> ExportsModel
    decreases items.len(),
{
    if items.len() == 0 {
        acc
    } else {
        with_ctor_of(from, item, with_ctors_of(from, item, acc, items.drop_last()), items.last())
    }
}

/// An impl for a type.
pub open spec fn with_impl_for(
    target: Seq<char>,
    impls: Seq<((Seq<char>, Seq<Seq<char>>, Seq<char>), ImplModel)>,
    e: ((Seq<char>, Seq<Seq<char>>, Seq<char>), ImplModel),
) -> Seq<((Seq<char>, Seq<Seq<char>>, Seq<char>), ImplModel)> {
    if e.0.2 == target {
        put_new(impls, e.0, e.1)
    } else {
        impls
    }
}

/// An impl of a trait.
pub open spec fn with_impl_of(
    trait_name: Seq<char>,
    impls: Seq<((Seq<char>, Seq<Seq<char>>, Seq<char>), ImplModel)>,
    e: ((Seq<char>, Seq<Seq<char>>, Seq<char>), ImplModel),
) -> Seq<((Seq<char>, Seq<Seq<char>>, Seq<char>), ImplModel)> {
    if e.0.0 == trait_name {
        put_new(impls, e.0, e.1)
    } else {
        impls
    }
}

/// Impls with those for a type.
pub open spec fn with_impls_for(
    target: Seq<char>,
    acc: Seq<((Seq<char>, Seq<Seq<char>>, Seq<char>), ImplModel)>,
    items: Seq<((Seq<char>, Seq<Seq<char>>, Seq<char>), ImplModel)>,
) -> Seq<((Seq<char>, Seq<Seq<char>>, Seq<char>), ImplModel)>
    decreases items.len(),
{
    if items.len() == 0 {
        acc
    } else {
        with_impl_for(target, with_impls_for(target, acc, items.drop_last()), items.last())
    }
}

/// Impls with those of a trait.
pub open spec fn with_impls_of(
    trait_name: Seq<char>,
    acc: Seq<((Seq<char>, Seq<Seq<char>>, Seq<char>), ImplModel)>,
    items: Seq<((Seq<char>, Seq<Seq<char>>, Seq<char>), ImplModel)>,
) -> Seq<((Seq<char>, Seq<Seq<char>>, Seq<char>), ImplModel)>
    decreases items.len(),
{
    if items.len() == 0 {
        acc
    } else {
        with_impl_of(trait_name, with_impls_of(trait_name, acc, items.drop_last()), items.last())
    }
}

/// Exports with a re-exported type, unless the name is taken: its impls, kinds,
/// alias, record, record builder, constructors and doc comment come with it.
pub open spec fn with_type_of(
    x: ExportsModel,
    from: ExportsModel,
    item: ReExported,
) -> ExportsModel {
    match at_key(from.type_arity, item.1) {
        Some(arity) => if has_key(x.type_arity, item.2) {
            x
        } else {
            let origin = re_export_origin(from.type_origins, item);
            let x1 = ExportsModel {
                type_arity: put(x.type_arity, item.2, arity),
                type_origins: put(x.type_origins, item.2, origin),
                trait_impls: with_impls_for(origin, x.trait_impls, from.trait_impls),
                type_param_kinds: match at_key(from.type_param_kinds, item.1) {
                    Some(kinds) => put(x.type_param_kinds, item.2, kinds),
                    None => x.type_param_kinds,
                },
                type_aliases: match at_key(from.type_aliases, item.1) {
                    Some(info) => put(x.type_aliases, item.2, info),
                    None => x.type_aliases,
                },
                record_defs: match at_key(from.record_defs, item.1) {
                    Some(info) => put(x.record_defs, item.2, info),
                    None => x.record_defs,
                },
                record_builders: match at_key(from.record_builders, item.1) {
                    Some(builder) => put(x.record_builders, item.2, builder),
                    None => x.record_builders,
                },
                ..x
            };
            let x2 = match at_key(from.type_constructors, item.1) {
                Some(ctors) => with_ctors_of(
                    from,
                    item,
                    ExportsModel {
                        type_constructors: put(
                            x1.type_constructors,
                            item.2,
                            ctors.map_values(|ctor: Seq<char>| surfaced(item, ctor)),
                        ),
                        ..x1
                    },
                    ctors,
                ),
                None => x1,
            };
            with_item_doc(x2, from, item)
        },
        None => x,
    }
}

/// Exports with a re-exported trait, unless the name is taken: its impls and doc
/// comment come with it.
pub open spec fn with_trait_of(
    x: ExportsModel,
    from: ExportsModel,
    item: ReExported,
) -> ExportsModel {
    match at_key(from.traits, item.1) {
        Some(info) => if has_key(x.traits, item.2) {
            x
        } else {
            let origin = re_export_origin(from.trait_origins, item);
            with_item_doc(
                ExportsModel {
                    traits: put(x.traits, item.2, info),
                    trait_origins: put(x.trait_origins, item.2, origin),
                    trait_impls: with_impls_of(origin, x.trait_impls, from.trait_impls),
                    ..x
                },
                from,
                item,
            )
        },
        None => x,
    }
}

pub open spec fn with_type_reexport(
    loaded: Seq<(Seq<char>, ExportsModel)>,
    x: ExportsModel,
    item: ReExported,
) -> ExportsModel {
    match at_key(loaded, item.0) {
        Some(from) => with_trait_of(with_type_of(x, from, item), from, item),
        None => x,
    }
}

/// Exports with a re-exported effect, unless the name is taken.
pub open spec fn with_effect_of(
    x: ExportsModel,
    from: ExportsModel,
    item: ReExported,
) -> ExportsModel {
    match at_key(from.effects, item.1) {
        Some(info) => if has_key(x.effects, item.2) {
            x
        } else {
            with_item_doc(
                ExportsModel {
                    effects: put(x.effects, item.2, info),
                    effect_origins: put(
                        x.effect_origins,
                        item.2,
                        re_export_origin(from.effect_origins, item),
                    ),
                    ..x
                },
                from,
                item,
            )
        },
        None => x,
    }
}

/// Exports with a re-exported handler, unless the name is taken.
pub open spec fn with_handler_of(
    x: ExportsModel,
    from: ExportsModel,
    item: ReExported,
) -> ExportsModel {
    match at_key(from.handlers, item.1) {
        Some(info) => if has_key(x.handlers, item.2) {
            x
        } else {
            with_item_doc(
                ExportsModel {
                    handlers: put(x.handlers, item.2, info),
                    handler_origins: put(
                        x.handler_origins,
                        item.2,
                        re_export_origin(from.handler_origins, item),
                    ),
                    ..x
                },
                from,
                item,
            )
        },
        None => x,
    }
}

pub open spec fn with_effect_reexport(
    loaded: Seq<(Seq<char>, ExportsModel)>,
    x: ExportsModel,
    item: ReExported,
) -> ExportsModel {
    match at_key(loaded, item.0) {
        Some(from) => with_handler_of(with_effect_of(x, from, item), from, item),
        None => x,
    }
}

pub open spec fn with_effectful_reexport(
    loaded: Seq<(Seq<char>, ExportsModel)>,
    x: ExportsModel,
    item: ReExported,
) -> ExportsModel {
    match at_key(loaded, item.0) {
        Some(from) => if from.effectful_funs.contains(item.1) {
            ExportsModel { effectful_funs: add_new(x.effectful_funs, seq![item.2]), ..x }
        } else {
            x
        },
        None => x,
    }
}

pub open spec fn with_value_reexports(
    loaded: Seq<(Seq<char>, ExportsModel)>,
    acc: ExportsModel,
    items: Seq<ReExported>,
) -> ExportsModel
    decreases items.len(),
{
    if items.len() == 0 {
        acc
    } else {
        with_value_reexport(
            loaded,
            with_value_reexports(loaded, acc, items.drop_last()),
            items.last(),
        )
    }
}

pub open spec fn with_type_reexports(
    loaded: Seq<(Seq<char>, ExportsModel)>,
    acc: ExportsModel,
    items: Seq<ReExported>,
) -> ExportsModel
    decreases items.len(),
{
    if items.len() == 0 {
        acc
    } else {
        with_type_reexport(
            loaded,
            with_type_reexports(loaded, acc, items.drop_last()),
            items.last(),
        )
    }
}

pub open spec fn with_effect_reexports(
    loaded: Seq<(Seq<char>, ExportsModel)>,
    acc: ExportsModel,
    items: Seq<ReExported>,
) -> ExportsModel
    decreases items.len(),
{
    if items.len() == 0 {
        acc
    } else {
        with_effect_reexport(
            loaded,
            with_effect_reexports(loaded, acc, items.drop_last()),
            items.last(),
        )
    }
}

pub open spec fn with_effectful_reexports(
    loaded: Seq<(Seq<char>, ExportsModel)>,
    acc: ExportsModel,
    items: Seq<ReExported>,
) -> ExportsModel
    decreases items.len(),
{
    if items.len() == 0 {
        acc
    } else {
        with_effectful_reexport(
            loaded,
            with_effectful_reexports(loaded, acc, items.drop_last()),
            items.last(),
        )
    }
}

/// All that a typechecked module exports: what it declares itself, then what it
/// re-exports under names that are still free.
pub open spec fn collected_exports(c: CheckerModel, program: Seq<Decl>) -> ExportsModel {
    let items = re_exported(c.exports, Seq::empty(), program);
    let x = local_exports(c, program);
    let x = with_value_reexports(c.exports, x, items);
    let x = with_type_reexports(c.exports, x, items);
    let x = with_effect_reexports(c.exports, x, items);
    with_effectful_reexports(c.exports, x, items)
}

/// Adds the items that a declaration re-exports.
fn add_re_exported(
    loaded: &Table<String, ModuleExports>,
    out: &mut Vec<(String, String, String)>,
    decl: &Decl,
)
    ensures
        final(out).deep_view() == with_re_exported(
            loaded.order(),
            old(out).deep_view(),
            *decl,
        ),
{
    let ghost out0 = out.deep_view();
    if let Decl::Import { module, exposing, .. } = decl {
        let name = join_text(module, ".");
        match exposing {
            Some(Exposing::Items(items)) => {
                let ghost keep = |i: ExposedItem| i.public;
                let ghost make = |i: ExposedItem| re_exported_item(name@, i);
                let mut i: usize = 0;
                proof {
                    reveal(Seq::filter);
                    assert(items@.take(0) =~= Seq::empty());
                    assert(out0 + items@.take(0).filter(keep).map_values(make) =~= out0);
                }
                while i < items.len()
                    invariant
                        i <= items.len(),
                        keep == (|i: ExposedItem| i.public),
                        make == (|i: ExposedItem| re_exported_item(name@, i)),
                        out.deep_view() == out0 + items@.take(i as int).filter(keep).map_values(
                            make,
                        ),
                    decreases items.len() - i,
                {
                    let item = &items[i];
                    let ghost done = items@.take(i as int);
                    proof {
                        reveal(Seq::filter);
                        assert(items@.take(i + 1).drop_last() =~= done);
                        assert(items@.take(i + 1).last() == *item);
                        if item.public {
                            assert(done.filter(keep).push(*item).map_values(make)
                                =~= done.filter(keep).map_values(make).push(make(*item)));
                            assert(out0 + done.filter(keep).map_values(make).push(make(*item))
                                =~= (out0 + done.filter(keep).map_values(make)).push(make(*item)));
                        }
                    }
                    if item.public {
                        push_value(
                            out,
                            (name.clone(), item.name.clone(), item.surface_name().clone()),
                        );
                    }
                    i = i + 1;
                }
                assert(items@.take(i as int) =~= items@);
            },
            Some(Exposing::All { public, .. }) => {
                if *public {
                    if let Some(x) = loaded.get(&name) {
                        let items = synthesize_all_exposed(x, true);
                        let ghost names = all_exposed_names(x.deep_view());
                        let ghost make = |n: Seq<char>| (name@, n, n);
                        let mut i: usize = 0;
                        assert(out0 + names.take(0).map_values(make) =~= out0);
                        while i < items.len()
                            invariant
                                i <= items.len(),
                                make == (|n: Seq<char>| (name@, n, n)),
                                names == items@.map_values(|i: ExposedItem| i.name@),
                                out.deep_view() == out0 + names.take(i as int).map_values(make),
                            decreases items.len() - i,
                        {
                            let n = &items[i].name;
                            proof {
                                assert(names[i as int] == n@);
                                assert(out0 + names.take(i + 1).map_values(make) =~= (out0
                                    + names.take(i as int).map_values(make)).push(make(n@)));
                            }
                            push_value(out, (name.clone(), n.clone(), n.clone()));
                            i = i + 1;
                        }
                        assert(names.take(i as int) =~= names);
                    }
                }
                assert(out0 + Seq::<ReExported>::empty() =~= out0);
            },
            None => {
                assert(out0 + Seq::<ReExported>::empty() =~= out0);
            },
        }
    } else {
        assert(out0 + Seq::<ReExported>::empty() =~= out0);
    }
}

fn add_all_re_exported(
    loaded: &Table<String, ModuleExports>,
    acc: &mut Vec<(String, String, String)>,
    items: &Vec<Decl>,
)
    ensures
        final(acc).deep_view() == re_exported(loaded.order(), old(acc).deep_view(), items@),
{
    let ghost a0 = acc.deep_view();
    let ghost all = items@;
    let mut i: usize = 0;
    assert(all.take(0) =~= Seq::empty());
    while i < items.len()
        invariant
            i <= items.len(),
            all == items@,
            acc.deep_view() == re_exported(loaded.order(), a0, all.take(i as int)),
        decreases items.len() - i,
    {
        proof {
            assert(all.take(i + 1).drop_last() =~= all.take(i as int));
            assert(all.take(i + 1).last() == all[i as int]);
        }
        add_re_exported(loaded, acc, &items[i]);
        i = i + 1;
    }
    assert(all.take(i as int) =~= all);
}

fn item_origin(origins: &Table<String, String>, module: &str, name: &str) -> (r: String)
    ensures
        forall|surface: Seq<char>|
            r@ == #[trigger] re_export_origin(origins.order(), (module@, name@, surface)),
{
    match origins.named(name) {
        Some(origin) => origin.clone(),
        None => dot_join(module, name),
    }
}

fn add_item_doc(x: &mut ModuleExports, from: &ModuleExports, item: &(String, String, String))
    ensures
        final(x).deep_view() == with_item_doc(
            old(x).deep_view(),
            from.deep_view(),
            item.deep_view(),
        ),
{
    if let Some(doc) = from.doc_comments.get(&item.1) {
        x.doc_comments.insert_if_absent(item.2.clone(), doc.dup());
    }
}

fn add_value_of(x: &mut ModuleExports, from: &ModuleExports, item: &(String, String, String))
    ensures
        final(x).deep_view() == with_value_of(
            old(x).deep_view(),
            from.deep_view(),
            item.deep_view(),
        ),
{
    if let Some(scheme) = find_binding(&from.bindings, item.1.as_str()) {
        if !crate::import_scope::has_binding(&x.bindings, item.2.as_str()) {
            let origin = item_origin(&from.binding_origins, item.0.as_str(), item.1.as_str());
            assert(origin@ == re_export_origin(from.binding_origins.order(), item.deep_view()));
            push_value(&mut x.bindings, (item.2.clone(), scheme.dup()));
            x.binding_origins.insert(item.2.clone(), origin);
            if let Some(id) = from.def_ids.get(&item.1) {
                x.def_ids.insert(item.2.clone(), *id);
            }
            add_item_doc(x, from, item);
        }
    }
}

fn add_ctors_of(
    from: &ModuleExports,
    item: &(String, String, String),
    acc: &mut ModuleExports,
    items: &Vec<String>,
)
    ensures
        final(acc).deep_view() == with_ctors_of(
            from.deep_view(),
            item.deep_view(),
            old(acc).deep_view(),
            items.deep_view(),
        ),
{
    let ghost a0 = acc.deep_view();
    let ghost all = items.deep_view();
    let mut i: usize = 0;
    assert(all.take(0) =~= Seq::empty());
    while i < items.len()
        invariant
            i <= items.len(),
            all == items.deep_view(),
            acc.deep_view() == with_ctors_of(
                from.deep_view(),
                item.deep_view(),
                a0,
                all.take(i as int),
            ),
        decreases items.len() - i,
    {
        proof {
            assert(all.take(i + 1).drop_last() =~= all.take(i as int));
            assert(all.take(i + 1).last() == all[i as int]);
        }
        let ctor = &items[i];
        let surface = if text_eq(ctor.as_str(), item.1.as_str()) {
            item.2.clone()
        } else {
            ctor.clone()
        };
        if let Some(scheme) = find_binding(&from.bindings, ctor.as_str()) {
            if !crate::import_scope::has_binding(&acc.bindings, surface.as_str()) {
                let origin = item_origin(&from.binding_origins, item.0.as_str(), ctor.as_str());
                assert(origin@ == re_export_origin(
                    from.binding_origins.order(),
                    (item.0@, ctor@, surface@),
                ));
                push_value(&mut acc.bindings, (surface.clone(), scheme.dup()));
                acc.binding_origins.insert(surface.clone(), origin);
                if let Some(id) = from.def_ids.get(ctor) {
                    acc.def_ids.insert(surface, *id);
                }
            }
        }
        i = i + 1;
    }
    assert(all.take(i as int) =~= all);
}

fn add_impls_for(
    target: &str,
    acc: &mut Table<(String, Vec<String>, String), ImplInfo>,
    items: &Table<(String, Vec<String>, String), ImplInfo>,
)
    ensures
        final(acc).order() == with_impls_for(target@, old(acc).order(), items.order()),
{
    let ghost a0 = acc.order();
    let ghost all = items.order();
    let n = items.len();
    let mut i: usize = 0;
    assert(all.take(0) =~= Seq::empty());
    while i < n
        invariant
            i <= n,
            all == items.order(),
            n == all.len(),
            acc.order() == with_impls_for(target@, a0, all.take(i as int)),
        decreases n - i,
    {
        proof {
            assert(all.take(i + 1).drop_last() =~= all.take(i as int));
            assert(all.take(i + 1).last() == all[i as int]);
        }
        let key = items.key(i);
        if text_eq(key.2.as_str(), target) {
            acc.insert_if_absent(key.dup(), items.value(i).dup());
        }
        i = i + 1;
    }
    assert(all.take(i as int) =~= all);
}

fn add_impls_of(
    trait_name: &str,
    acc: &mut Table<(String, Vec<String>, String), ImplInfo>,
    items: &Table<(String, Vec<String>, String), ImplInfo>,
)
    ensures
        final(acc).order() == with_impls_of(trait_name@, old(acc).order(), items.order()),
{
    let ghost a0 = acc.order();
    let ghost all = items.order();
    let n = items.len();
    let mut i: usize = 0;
    assert(all.take(0) =~= Seq::empty());
    while i < n
        invariant
            i <= n,
            all == items.order(),
            n == all.len(),
            acc.order() == with_impls_of(trait_name@, a0, all.take(i as int)),
        decreases n - i,
    {
        proof {
            assert(all.take(i + 1).drop_last() =~= all.take(i as int));
            assert(all.take(i + 1).last() == all[i as int]);
        }
        let key = items.key(i);
        if text_eq(key.0.as_str(), trait_name) {
            acc.insert_if_absent(key.dup(), items.value(i).dup());
        }
        i = i + 1;
    }
    assert(all.take(i as int) =~= all);
}

fn surface_ctors(item: &(String, String, String), v: &Vec<String>) -> (r: Vec<String>)
    ensures
        r.deep_view() == v.deep_view().map_values(|x: Seq<char>| surfaced(item.deep_view(), x)),
{
    let mut out: Vec<String> = Vec::new();
    let mut i: usize = 0;
    while i < v.len()
        invariant
            i <= v.len(),
            out.len() == i,
            forall|j: int| 0 <= j < i ==> #[trigger] out.deep_view()[j] == surfaced(
                item.deep_view(),
                v.deep_view()[j],
            ),
        decreases v.len() - i,
    {
        let s = if text_eq(v[i].as_str(), item.1.as_str()) {
            item.2.clone()
        } else {
            v[i].clone()
        };
        push_value(&mut out, s);
        i = i + 1;
    }
    assert(out.deep_view() =~= v.deep_view().map_values(|x: Seq<char>| surfaced(
        item.deep_view(),
        x,
    )));
    out
}

fn add_type_of(x: &mut ModuleExports, from: &ModuleExports, item: &(String, String, String))
    ensures
        final(x).deep_view() == with_type_of(
            old(x).deep_view(),
            from.deep_view(),
            item.deep_view(),
        ),
{
    let name = &item.1;
    let surface = &item.2;
    if let Some(arity) = from.type_arity.get(name) {
        if !x.type_arity.contains_key(surface) {
            let origin = item_origin(&from.type_origins, item.0.as_str(), name.as_str());
            assert(origin@ == re_export_origin(from.type_origins.order(), item.deep_view()));
            x.type_arity.insert(surface.clone(), *arity);
            x.type_origins.insert(surface.clone(), origin.clone());
            add_impls_for(origin.as_str(), &mut x.trait_impls, &from.trait_impls);
            if let Some(kinds) = from.type_param_kinds.get(name) {
                x.type_param_kinds.insert(surface.clone(), kinds.dup());
            }
            if let Some(info) = from.type_aliases.get(name) {
                x.type_aliases.insert(surface.clone(), info.dup());
            }
            if let Some(info) = from.record_defs.get(name) {
                x.record_defs.insert(surface.clone(), info.dup());
            }
            if let Some(builder) = from.record_builders.get(name) {
                x.record_builders.insert(surface.clone(), builder.dup());
            }
            if let Some(ctors) = from.type_constructors.get(name) {
                x.type_constructors.insert(surface.clone(), surface_ctors(item, ctors));
                add_ctors_of(from, item, x, ctors);
            }
            add_item_doc(x, from, item);
        }
    }
}

fn add_trait_of(x: &mut ModuleExports, from: &ModuleExports, item: &(String, String, String))
    ensures
        final(x).deep_view() == with_trait_of(
            old(x).deep_view(),
            from.deep_view(),
            item.deep_view(),
        ),
{
    if let Some(info) = from.traits.get(&item.1) {
        if !x.traits.contains_key(&item.2) {
            let origin = item_origin(&from.trait_origins, item.0.as_str(), item.1.as_str());
            assert(origin@ == re_export_origin(from.trait_origins.order(), item.deep_view()));
            x.traits.insert(item.2.clone(), info.dup());
            x.trait_origins.insert(item.2.clone(), origin.clone());
            add_impls_of(origin.as_str(), &mut x.trait_impls, &from.trait_impls);
            add_item_doc(x, from, item);
        }
    }
}

fn add_effect_of(x: &mut ModuleExports, from: &ModuleExports, item: &(String, String, String))
    ensures
        final(x).deep_view() == with_effect_of(
            old(x).deep_view(),
            from.deep_view(),
            item.deep_view(),
        ),
{
    if let Some(info) = from.effects.get(&item.1) {
        if !x.effects.contains_key(&item.2) {
            let origin = item_origin(&from.effect_origins, item.0.as_str(), item.1.as_str());
            assert(origin@ == re_export_origin(from.effect_origins.order(), item.deep_view()));
            x.effects.insert(item.2.clone(), info.dup());
            x.effect_origins.insert(item.2.clone(), origin);
            add_item_doc(x, from, item);
        }
    }
}

fn add_handler_of(x: &mut ModuleExports, from: &ModuleExports, item: &(String, String, String))
    ensures
        final(x).deep_view() == with_handler_of(
            old(x).deep_view(),
            from.deep_view(),
            item.deep_view(),
        ),
{
    if let Some(info) = from.handlers.get(&item.1) {
        if !x.handlers.contains_key(&item.2) {
            let origin = item_origin(&from.handler_origins, item.0.as_str(), item.1.as_str());
            assert(origin@ == re_export_origin(from.handler_origins.order(), item.deep_view()));
            x.handlers.insert(item.2.clone(), info.dup());
            x.handler_origins.insert(item.2.clone(), origin);
            add_item_doc(x, from, item);
        }
    }
}

fn collect_value_reexports(
    loaded: &Table<String, ModuleExports>,
    acc: &mut ModuleExports,
    items: &Vec<(String, String, String)>,
)
    ensures
        final(acc).deep_view() == with_value_reexports(
            loaded.order(),
            old(acc).deep_view(),
            items.deep_view(),
        ),
{
    let ghost a0 = acc.deep_view();
    let ghost all = items.deep_view();
    let mut i: usize = 0;
    assert(all.take(0) =~= Seq::empty());
    while i < items.len()
        invariant
            i <= items.len(),
            all == items.deep_view(),
            acc.deep_view() == with_value_reexports(loaded.order(), a0, all.take(i as int)),
        decreases items.len() - i,
    {
        proof {
            assert(all.take(i + 1).drop_last() =~= all.take(i as int));
            assert(all.take(i + 1).last() == all[i as int]);
        }
        let item = &items[i];
        if let Some(from) = loaded.get(&item.0) {
            add_value_of(acc, from, item);
        }
        i = i + 1;
    }
    assert(all.take(i as int) =~= all);
}

fn collect_type_and_trait_reexports(
    loaded: &Table<String, ModuleExports>,
    acc: &mut ModuleExports,
    items: &Vec<(String, String, String)>,
)
    ensures
        final(acc).deep_view() == with_type_reexports(
            loaded.order(),
            old(acc).deep_view(),
            items.deep_view(),
        ),
{
    let ghost a0 = acc.deep_view();
    let ghost all = items.deep_view();
    let mut i: usize = 0;
    assert(all.take(0) =~= Seq::empty());
    while i < items.len()
        invariant
            i <= items.len(),
            all == items.deep_view(),
            acc.deep_view() == with_type_reexports(loaded.order(), a0, all.take(i as int)),
        decreases items.len() - i,
    {
        proof {
            assert(all.take(i + 1).drop_last() =~= all.take(i as int));
            assert(all.take(i + 1).last() == all[i as int]);
        }
        let item = &items[i];
        if let Some(from) = loaded.get(&item.0) {
            add_type_of(acc, from, item);
            add_trait_of(acc, from, item);
        }
        i = i + 1;
    }
    assert(all.take(i as int) =~= all);
}

fn collect_effect_and_handler_reexports(
    loaded: &Table<String, ModuleExports>,
    acc: &mut ModuleExports,
    items: &Vec<(String, String, String)>,
)
    ensures
        final(acc).deep_view() == with_effect_reexports(
            loaded.order(),
            old(acc).deep_view(),
            items.deep_view(),
        ),
{
    let ghost a0 = acc.deep_view();
    let ghost all = items.deep_view();
    let mut i: usize = 0;
    assert(all.take(0) =~= Seq::empty());
    while i < items.len()
        invariant
            i <= items.len(),
            all == items.deep_view(),
            acc.deep_view() == with_effect_reexports(loaded.order(), a0, all.take(i as int)),
        decreases items.len() - i,
    {
        proof {
            assert(all.take(i + 1).drop_last() =~= all.take(i as int));
            assert(all.take(i + 1).last() == all[i as int]);
        }
        let item = &items[i];
        if let Some(from) = loaded.get(&item.0) {
            add_effect_of(acc, from, item);
            add_handler_of(acc, from, item);
        }
        i = i + 1;
    }
    assert(all.take(i as int) =~= all);
}

fn collect_effectful_reexports(
    loaded: &Table<String, ModuleExports>,
    acc: &mut ModuleExports,
    items: &Vec<(String, String, String)>,
)
    ensures
        final(acc).deep_view() == with_effectful_reexports(
            loaded.order(),
            old(acc).deep_view(),
            items.deep_view(),
        ),
{
    let ghost a0 = acc.deep_view();
    let ghost all = items.deep_view();
    let mut i: usize = 0;
    assert(all.take(0) =~= Seq::empty());
    while i < items.len()
        invariant
            i <= items.len(),
            all == items.deep_view(),
            acc.deep_view() == with_effectful_reexports(loaded.order(), a0, all.take(i as int)),
        decreases items.len() - i,
    {
        proof {
            assert(all.take(i + 1).drop_last() =~= all.take(i as int));
            assert(all.take(i + 1).last() == all[i as int]);
        }
        let item = &items[i];
        if let Some(from) = loaded.get(&item.0) {
            if crate::values::contains_value(&from.effectful_funs, &item.1) {
                proof {
                    add_new_one(acc.effectful_funs.deep_view(), item.2@);
                }
                push_new(&mut acc.effectful_funs, item.2.clone());
            }
        }
        i = i + 1;
    }
    assert(all.take(i as int) =~= all);
}

impl ModuleExports {
    /// Collects all public exports of a typechecked module.
    pub fn collect(program: &Vec<Decl>, checker: &Checker) -> (r: Self)
        requires
            targets_fit(program@),
        ensures
            r.deep_view() == collected_exports(checker.deep_view(), program@),
    {
        let mut items: Vec<(String, String, String)> = Vec::new();
        assert(items.deep_view() =~= Seq::empty());
        add_all_re_exported(&checker.exports, &mut items, program);
        let mut x = collect_local_exports(checker, program);
        collect_value_reexports(&checker.exports, &mut x, &items);
        collect_type_and_trait_reexports(&checker.exports, &mut x, &items);
        collect_effect_and_handler_reexports(&checker.exports, &mut x, &items);
        collect_effectful_reexports(&checker.exports, &mut x, &items);
        x
    }
}

/// Whether each entry has the value that `of` gives its key, and no key occurs twice.
pub open spec fn entries_are<K, V>(entries: Seq<(K, V)>, of: spec_fn(K) -> Option<V>) -> bool {
    &&& distinct_keys(entries)
    &&& forall|k: K| #[trigger] has_key(entries, k) ==> at_key(entries, k) == of(k)
}

proof fn put_entries_are<K, V>(entries: Seq<(K, V)>, of: spec_fn(K) -> Option<V>, k: K, v: V)
    requires
        entries_are(entries, of),
        of(k) == Some(v),
    ensures
        entries_are(put(entries, k, v), of),
        forall|other: K| #[trigger]
            has_key(put(entries, k, v), other) <==> other == k || has_key(entries, other),
{
    put_then_get(entries, k, v, k);
    assert forall|other: K| #[trigger]
        has_key(put(entries, k, v), other) <==> other == k || has_key(entries, other) by {
        key_is_put(entries, k, v, other);
    }
    assert forall|other: K| #[trigger] has_key(put(entries, k, v), other) implies at_key(
        put(entries, k, v),
        other,
    ) == of(other) by {
        put_then_get(entries, k, v, other);
    }
}

proof fn put_new_keeps<K, V>(entries: Seq<(K, V)>, k: K, v: V, other: K)
    requires
        distinct_keys(entries),
    ensures
        distinct_keys(put_new(entries, k, v)),
        has_key(entries, other) ==> has_key(put_new(entries, k, v), other) && at_key(
            put_new(entries, k, v),
            other,
        ) == at_key(entries, other),
        has_key(put_new(entries, k, v), other) <==> has_key(entries, other) || other == k,
        !has_key(entries, k) ==> at_key(put_new(entries, k, v), k) == Some(v),
{
    put_then_get(entries, k, v, other);
    put_then_get(entries, k, v, k);
    key_is_put(entries, k, v, other);
}

/// The registered record, trait, effect and handler of a name of the module.
pub open spec fn own_record(c: CheckerModel) -> spec_fn(Seq<char>) -> Option<RecordModel> {
    |k: Seq<char>| at_key(c.records, local_name(c.current_module, k))
}

pub open spec fn own_trait_info(c: CheckerModel) -> spec_fn(Seq<char>) -> Option<TraitModel> {
    |k: Seq<char>| at_key(c.trait_state.traits, local_name(c.current_module, k))
}

pub open spec fn own_effect(c: CheckerModel) -> spec_fn(Seq<char>) -> Option<EffectModel> {
    |k: Seq<char>| at_key(c.effects, local_name(c.current_module, k))
}

pub open spec fn own_handler(c: CheckerModel) -> spec_fn(Seq<char>) -> Option<HandlerModel> {
    |k: Seq<char>| at_key(c.handlers, local_name(c.current_module, k))
}

pub open spec fn own_impl(c: CheckerModel) -> spec_fn(
    (Seq<char>, Seq<Seq<char>>, Seq<char>),
) -> Option<ImplModel> {
    |k: (Seq<char>, Seq<Seq<char>>, Seq<char>)| at_key(c.trait_state.impls, k)
}

pub open spec fn own_origin(c: CheckerModel) -> spec_fn(Seq<char>) -> Option<Seq<char>> {
    |k: Seq<char>| Some(local_name(c.current_module, k))
}

/// Whether exports have of each record, trait, impl, effect and handler what is
/// registered, under the name that the module gives it.
pub open spec fn tells_what_is_registered(c: CheckerModel, x: ExportsModel) -> bool {
    &&& entries_are(x.record_defs, own_record(c))
    &&& entries_are(x.traits, own_trait_info(c))
    &&& entries_are(x.trait_origins, own_origin(c))
    &&& entries_are(x.trait_impls, own_impl(c))
    &&& entries_are(x.effects, own_effect(c))
    &&& entries_are(x.effect_origins, own_origin(c))
    &&& entries_are(x.handlers, own_handler(c))
    &&& entries_are(x.handler_origins, own_origin(c))
}

/// The key of an impl: its trait, the heads of the arguments, and its target, each as
/// name resolution found it.
pub open spec fn impl_key(c: CheckerModel, decl: Decl) -> Option<
    (Seq<char>, Seq<Seq<char>>, Seq<char>),
> {
    match decl {
        Decl::ImplDef {
            id,
            trait_name,
            trait_type_args,
            target_type,
            target_type_expr,
            type_params,
            ..
        } => Some(
            (
                resolved_name(c.resolution.impl_traits, id, trait_name@),
                Seq::new(trait_type_args@.len(), |i: int| resolved_head(c, trait_type_args@[i])),
                target_key_of(
                    resolved_name(c.resolution.impl_targets, id, target_type@),
                    target_type_expr,
                    type_params@,
                ),
            ),
        ),
        _ => None,
    }
}

/// Whether exports have the information on a declaration: every registered impl, and the
/// registered records, traits, effects and handlers that are public.
pub open spec fn has_info(c: CheckerModel, x: ExportsModel, decl: Decl) -> bool {
    match decl {
        Decl::ImplDef { .. } => has_key(c.trait_state.impls, impl_key(c, decl)->0) ==> has_key(
            x.trait_impls,
            impl_key(c, decl)->0,
        ),
        Decl::RecordDef { public, name, .. } => public && has_key(
            c.records,
            local_name(c.current_module, name@),
        ) ==> has_key(x.record_defs, name@),
        Decl::TraitDef { public, name, .. } => public && has_key(
            c.trait_state.traits,
            local_name(c.current_module, name@),
        ) ==> has_key(x.traits, name@) && has_key(x.trait_origins, name@),
        Decl::EffectDef { public, name, .. } => public && has_key(
            c.effects,
            local_name(c.current_module, name@),
        ) ==> has_key(x.effects, name@) && has_key(x.effect_origins, name@),
        Decl::HandlerDef { public, name, .. } => public && has_key(
            c.handlers,
            local_name(c.current_module, name@),
        ) ==> has_key(x.handlers, name@) && has_key(x.handler_origins, name@),
        _ => true,
    }
}

/// Whether a name is that of a public trait, effect or handler of a program.
pub open spec fn is_public_trait(decl: Decl, k: Seq<char>) -> bool {
    decl matches Decl::TraitDef { public, name, .. } && public && name@ == k
}

pub open spec fn is_public_effect(decl: Decl, k: Seq<char>) -> bool {
    decl matches Decl::EffectDef { public, name, .. } && public && name@ == k
}

pub open spec fn is_public_handler(decl: Decl, k: Seq<char>) -> bool {
    decl matches Decl::HandlerDef { public, name, .. } && public && name@ == k
}

pub open spec fn is_public_record(decl: Decl, k: Seq<char>) -> bool {
    decl matches Decl::RecordDef { public, name, .. } && public && name@ == k
}

proof fn info_is_added(c: CheckerModel, x: ExportsModel, decl: Decl)
    requires
        tells_what_is_registered(c, x),
    ensures
        ({
            let after = with_decl_info(c, x, decl);
            &&& tells_what_is_registered(c, after)
            &&& has_info(c, after, decl)
            &&& forall|k: (Seq<char>, Seq<Seq<char>>, Seq<char>)| #[trigger]
                has_key(after.trait_impls, k) <==> has_key(x.trait_impls, k) || has_key(
                    c.trait_state.impls,
                    k,
                ) && impl_key(c, decl) == Some(k)
            &&& forall|k: Seq<char>| #[trigger]
                has_key(after.traits, k) <==> has_key(x.traits, k) || has_key(
                    c.trait_state.traits,
                    local_name(c.current_module, k),
                ) && is_public_trait(decl, k)
            &&& forall|k: Seq<char>| #[trigger]
                has_key(after.effects, k) <==> has_key(x.effects, k) || has_key(
                    c.effects,
                    local_name(c.current_module, k),
                ) && is_public_effect(decl, k)
            &&& forall|k: Seq<char>| #[trigger]
                has_key(after.handlers, k) <==> has_key(x.handlers, k) || has_key(
                    c.handlers,
                    local_name(c.current_module, k),
                ) && is_public_handler(decl, k)
            &&& forall|k: Seq<char>| #[trigger]
                has_key(after.record_defs, k) <==> has_key(x.record_defs, k) || has_key(
                    c.records,
                    local_name(c.current_module, k),
                ) && is_public_record(decl, k)
            &&& forall|k: Seq<char>|
                has_key(x.trait_origins, k) ==> #[trigger] has_key(after.trait_origins, k)
            &&& forall|k: Seq<char>|
                has_key(x.effect_origins, k) ==> #[trigger] has_key(after.effect_origins, k)
            &&& forall|k: Seq<char>|
                has_key(x.handler_origins, k) ==> #[trigger] has_key(after.handler_origins, k)
        }),
{
    match decl {
        Decl::RecordDef { public, name, .. } => {
            if let Some(info) = at_key(c.records, local_name(c.current_module, name@)) {
                if public {
                    put_entries_are(x.record_defs, own_record(c), name@, info);
                }
            }
        },
        Decl::TraitDef { public, name, .. } => {
            let canonical = local_name(c.current_module, name@);
            if let Some(info) = at_key(c.trait_state.traits, canonical) {
                if public {
                    put_entries_are(x.traits, own_trait_info(c), name@, info);
                    put_entries_are(x.trait_origins, own_origin(c), name@, canonical);
                }
            }
        },
        Decl::ImplDef { trait_type_args, .. } => {
            let key = impl_key(c, decl)->0;
            assert(resolved_heads(c, trait_type_args@) =~= key.1);
            if let Some(info) = at_key(c.trait_state.impls, key) {
                put_entries_are(x.trait_impls, own_impl(c), key, info);
            }
        },
        Decl::EffectDef { public, name, .. } => {
            let canonical = local_name(c.current_module, name@);
            if let Some(info) = at_key(c.effects, canonical) {
                if public {
                    put_entries_are(x.effects, own_effect(c), name@, info);
                    put_entries_are(x.effect_origins, own_origin(c), name@, canonical);
                }
            }
        },
        Decl::HandlerDef { public, name, .. } => {
            let canonical = local_name(c.current_module, name@);
            if let Some(info) = at_key(c.handlers, canonical) {
                if public {
                    put_entries_are(x.handlers, own_handler(c), name@, info);
                    put_entries_are(x.handler_origins, own_origin(c), name@, canonical);
                }
            }
        },
        _ => {},
    }
}

/// Whether exports have the information on all of some declarations, and on nothing
/// else.
spec fn has_infos(c: CheckerModel, x: ExportsModel, items: Seq<Decl>) -> bool {
    &&& tells_what_is_registered(c, x)
    &&& forall|i: int| 0 <= i < items.len() ==> has_info(c, x, #[trigger] items[i])
    &&& forall|k: (Seq<char>, Seq<Seq<char>>, Seq<char>)| #[trigger]
        has_key(x.trait_impls, k) ==> exists|i: int|
            0 <= i < items.len() && impl_key(c, #[trigger] items[i]) == Some(k)
    &&& forall|k: Seq<char>| #[trigger]
        has_key(x.traits, k) ==> exists|i: int|
            0 <= i < items.len() && is_public_trait(#[trigger] items[i], k)
    &&& forall|k: Seq<char>| #[trigger]
        has_key(x.effects, k) ==> exists|i: int|
            0 <= i < items.len() && is_public_effect(#[trigger] items[i], k)
    &&& forall|k: Seq<char>| #[trigger]
        has_key(x.handlers, k) ==> exists|i: int|
            0 <= i < items.len() && is_public_handler(#[trigger] items[i], k)
    &&& forall|k: Seq<char>| #[trigger]
        has_key(x.record_defs, k) ==> exists|i: int|
            0 <= i < items.len() && is_public_record(#[trigger] items[i], k)
}

proof fn infos_are_added(c: CheckerModel, acc: ExportsModel, items: Seq<Decl>)
    requires
        has_infos(c, acc, Seq::empty()),
    ensures
        has_infos(c, with_decl_infos(c, acc, items), items),
    decreases items.len(),
{
    if items.len() == 0 {
        assert(items =~= Seq::empty());
    } else {
        let init = items.drop_last();
        infos_are_added(c, acc, init);
        let x = with_decl_infos(c, acc, init);
        let after = with_decl_infos(c, acc, items);
        info_is_added(c, x, items.last());
        assert(forall|i: int| 0 <= i < init.len() ==> #[trigger] items[i] == init[i]);
        assert(forall|i: int| 0 <= i < init.len() ==> items[i] == #[trigger] init[i]);
        assert(items[items.len() - 1] == items.last());
        assert forall|i: int| 0 <= i < items.len() implies has_info(
            c,
            after,
            #[trigger] items[i],
        ) by {
            if i < init.len() {
                assert(has_info(c, x, init[i]));
            }
        }
    }
}

proof fn bindings_add_no_info(c: CheckerModel, acc: ExportsModel, items: Seq<Seq<char>>)
    ensures
        ({
            let x = with_bindings(c, acc, items);
            x == ExportsModel {
                bindings: x.bindings,
                binding_origins: x.binding_origins,
                def_ids: x.def_ids,
                ..acc
            }
        }),
    decreases items.len(),
{
    if items.len() > 0 {
        bindings_add_no_info(c, acc, items.drop_last());
    }
}

proof fn types_add_no_info(c: CheckerModel, acc: ExportsModel, items: Seq<Decl>)
    ensures
        ({
            let x = with_type_decls(c, acc, items);
            x == ExportsModel {
                type_origins: x.type_origins,
                type_constructors: x.type_constructors,
                ..acc
            }
        }),
        ({
            let x = with_all_private_ctors(c, acc, items);
            x == ExportsModel { inlinable_constructors: x.inlinable_constructors, ..acc }
        }),
        ({
            let x = with_aliases(c, acc, items);
            x == ExportsModel {
                type_origins: x.type_origins,
                type_aliases: x.type_aliases,
                type_arity: x.type_arity,
                ..acc
            }
        }),
        ({
            let x = with_all_effectful(acc, items);
            x == ExportsModel { effectful_funs: x.effectful_funs, ..acc }
        }),
        ({
            let x = with_docs(acc, items);
            x == ExportsModel { doc_comments: x.doc_comments, ..acc }
        }),
    decreases items.len(),
{
    if items.len() > 0 {
        types_add_no_info(c, acc, items.drop_last());
    }
}

proof fn arities_add_no_info(c: CheckerModel, acc: ExportsModel, items: Seq<Seq<char>>)
    ensures
        ({
            let x = with_arities(c, acc, items);
            x == ExportsModel { type_arity: x.type_arity, ..acc }
        }),
        ({
            let x = with_all_kinds(c, acc, items);
            x == ExportsModel { type_param_kinds: x.type_param_kinds, ..acc }
        }),
    decreases items.len(),
{
    if items.len() > 0 {
        arities_add_no_info(c, acc, items.drop_last());
    }
}

proof fn local_infos(c: CheckerModel, program: Seq<Decl>)
    ensures
        has_infos(c, local_exports(c, program), program),
{
    let x1 = with_bindings(c, no_exports(), public_names(Seq::empty(), program));
    bindings_add_no_info(c, no_exports(), public_names(Seq::empty(), program));
    let x2 = with_type_decls(c, x1, program);
    types_add_no_info(c, x1, program);
    let x3 = with_all_private_ctors(c, x2, program);
    types_add_no_info(c, x2, program);
    assert(has_infos(c, x3, Seq::empty()));
    let x4 = with_decl_infos(c, x3, program);
    infos_are_added(c, x3, program);
    let x5 = with_arities(c, x4, entry_names(x4.type_constructors));
    arities_add_no_info(c, x4, entry_names(x4.type_constructors));
    let x6 = with_arities(c, x5, entry_names(x5.record_defs));
    arities_add_no_info(c, x5, entry_names(x5.record_defs));
    let x7 = with_aliases(c, x6, program);
    types_add_no_info(c, x6, program);
    let x8 = with_all_kinds(c, x7, entry_names(x7.type_constructors));
    arities_add_no_info(c, x7, entry_names(x7.type_constructors));
    let x9 = with_all_kinds(c, x8, entry_names(x8.type_aliases));
    arities_add_no_info(c, x8, entry_names(x8.type_aliases));
    let x10 = with_all_effectful(x9, program);
    types_add_no_info(c, x9, program);
    types_add_no_info(c, x10, program);
    let x = local_exports(c, program);
    assert forall|i: int| 0 <= i < program.len() implies has_info(c, x, #[trigger] program[i]) by {
        assert(has_info(c, x4, program[i]));
    }
}

/// Whether exports still have the impls, traits, effects and handlers that there were,
/// each with the same information.
pub open spec fn keeps_infos(x: ExportsModel, after: ExportsModel) -> bool {
    &&& keeps_entries(x.trait_impls, after.trait_impls)
    &&& keeps_entries(x.traits, after.traits)
    &&& keeps_entries(x.effects, after.effects)
    &&& keeps_entries(x.handlers, after.handlers)
    &&& x.bindings.is_prefix_of(after.bindings)
}

pub open spec fn keeps_entries<K, V>(entries: Seq<(K, V)>, after: Seq<(K, V)>) -> bool {
    &&& distinct_keys(after)
    &&& forall|k: K| #[trigger]
        has_key(entries, k) ==> has_key(after, k) && at_key(after, k) == at_key(entries, k)
}

proof fn keeping_in_turn(a: ExportsModel, b: ExportsModel, c: ExportsModel)
    requires
        keeps_infos(a, b),
        keeps_infos(b, c),
    ensures
        keeps_infos(a, c),
{
    assert forall|i: int| 0 <= i < a.bindings.len() implies #[trigger] c.bindings[i]
        == a.bindings[i] by {
        assert(b.bindings[i] == a.bindings[i]);
    }
    assert(a.bindings =~= c.bindings.subrange(0, a.bindings.len() as int));
}

/// Setting a value under a new key keeps the entries that there are.
pub proof fn put_keeps_entries<K, V>(entries: Seq<(K, V)>, k: K, v: V)
    requires
        distinct_keys(entries),
        !has_key(entries, k),
    ensures
        keeps_entries(entries, put(entries, k, v)),
{
    put_then_get(entries, k, v, k);
    assert forall|other: K| #[trigger] has_key(entries, other) implies has_key(
        put(entries, k, v),
        other,
    ) && at_key(put(entries, k, v), other) == at_key(entries, other) by {
        key_is_put(entries, k, v, other);
        put_then_get(entries, k, v, other);
    }
}

proof fn impls_for_keep(
    target: Seq<char>,
    acc: Seq<((Seq<char>, Seq<Seq<char>>, Seq<char>), ImplModel)>,
    items: Seq<((Seq<char>, Seq<Seq<char>>, Seq<char>), ImplModel)>,
)
    requires
        distinct_keys(acc),
    ensures
        keeps_entries(acc, with_impls_for(target, acc, items)),
        forall|i: int|
            0 <= i < items.len() && (#[trigger] items[i]).0.2 == target ==> has_key(
                with_impls_for(target, acc, items),
                items[i].0,
            ),
        keeps_entries(acc, with_impls_of(target, acc, items)),
        forall|i: int|
            0 <= i < items.len() && (#[trigger] items[i]).0.0 == target ==> has_key(
                with_impls_of(target, acc, items),
                items[i].0,
            ),
    decreases items.len(),
{
    if items.len() > 0 {
        let init = items.drop_last();
        impls_for_keep(target, acc, init);
        let e = items.last();
        assert(forall|i: int| 0 <= i < init.len() ==> #[trigger] items[i] == init[i]);
        assert(forall|i: int| 0 <= i < init.len() ==> items[i] == #[trigger] init[i]);
        let a = with_impls_for(target, acc, init);
        let b = with_impls_of(target, acc, init);
        assert forall|k: (Seq<char>, Seq<Seq<char>>, Seq<char>)| has_key(a, k) implies #[trigger] has_key(
            put_new(a, e.0, e.1),
            k,
        ) && at_key(put_new(a, e.0, e.1), k) == at_key(a, k) by {
            put_new_keeps(a, e.0, e.1, k);
        }
        assert forall|k: (Seq<char>, Seq<Seq<char>>, Seq<char>)| has_key(b, k) implies #[trigger] has_key(
            put_new(b, e.0, e.1),
            k,
        ) && at_key(put_new(b, e.0, e.1), k) == at_key(b, k) by {
            put_new_keeps(b, e.0, e.1, k);
        }
        put_new_keeps(a, e.0, e.1, e.0);
        put_new_keeps(b, e.0, e.1, e.0);
    }
}

proof fn ctors_keep_infos(
    from: ExportsModel,
    item: ReExported,
    acc: ExportsModel,
    items: Seq<Seq<char>>,
)
    ensures
        ({
            let x = with_ctors_of(from, item, acc, items);
            &&& x == ExportsModel {
                bindings: x.bindings,
                binding_origins: x.binding_origins,
                def_ids: x.def_ids,
                ..acc
            }
            &&& acc.bindings.is_prefix_of(x.bindings)
        }),
    decreases items.len(),
{
    if items.len() > 0 {
        ctors_keep_infos(from, item, acc, items.drop_last());
        let before = with_ctors_of(from, item, acc, items.drop_last()).bindings;
        let after = with_ctors_of(from, item, acc, items).bindings;
        assert(after.subrange(0, acc.bindings.len() as int) =~= before.subrange(
            0,
            acc.bindings.len() as int,
        ));
    } else {
        assert(acc.bindings.subrange(0, acc.bindings.len() as int) =~= acc.bindings);
    }
}

/// Whether no key of the information occurs twice.
spec fn infos_are_distinct(x: ExportsModel) -> bool {
    &&& distinct_keys(x.trait_impls)
    &&& distinct_keys(x.traits)
    &&& distinct_keys(x.effects)
    &&& distinct_keys(x.handlers)
}

/// A re-exported value, type, trait, effect or handler takes nothing away of what is
/// exported, and after it the name is exported. Impls for the type and of the trait come
/// with them.
pub proof fn re_exporting_adds(
    loaded: Seq<(Seq<char>, ExportsModel)>,
    x: ExportsModel,
    item: ReExported,
)
    requires
        distinct_keys(x.trait_impls),
        distinct_keys(x.traits),
        distinct_keys(x.effects),
        distinct_keys(x.handlers),
    ensures
        keeps_infos(x, with_value_reexport(loaded, x, item)),
        keeps_infos(x, with_type_reexport(loaded, x, item)),
        keeps_infos(x, with_effect_reexport(loaded, x, item)),
        keeps_infos(x, with_effectful_reexport(loaded, x, item)),
        at_key(loaded, item.0) matches Some(from) ==> {
            &&& first_at(from.bindings, item.1) is Some ==> has_key(
                with_value_reexport(loaded, x, item).bindings,
                item.2,
            )
            &&& !has_key(x.bindings, item.2) && first_at(from.bindings, item.1) is Some ==> {
                &&& with_value_reexport(loaded, x, item).bindings == x.bindings.push(
                    (item.2, first_at(from.bindings, item.1)->0),
                )
            }
            &&& has_key(from.traits, item.1) ==> has_key(
                with_type_reexport(loaded, x, item).traits,
                item.2,
            )
            &&& !has_key(x.traits, item.2) ==> at_key(
                with_type_reexport(loaded, x, item).traits,
                item.2,
            ) == at_key(from.traits, item.1)
            &&& has_key(from.effects, item.1) ==> has_key(
                with_effect_reexport(loaded, x, item).effects,
                item.2,
            )
            &&& !has_key(x.effects, item.2) ==> at_key(
                with_effect_reexport(loaded, x, item).effects,
                item.2,
            ) == at_key(from.effects, item.1)
            &&& has_key(from.handlers, item.1) ==> has_key(
                with_effect_reexport(loaded, x, item).handlers,
                item.2,
            )
            &&& !has_key(x.handlers, item.2) ==> at_key(
                with_effect_reexport(loaded, x, item).handlers,
                item.2,
            ) == at_key(from.handlers, item.1)
            &&& from.effectful_funs.contains(item.1) ==> with_effectful_reexport(
                loaded,
                x,
                item,
            ).effectful_funs.contains(item.2)
            &&& has_key(from.type_arity, item.1) && !has_key(x.type_arity, item.2)
                ==> forall|i: int|
                0 <= i < from.trait_impls.len() && (#[trigger] from.trait_impls[i]).0.2
                    == re_export_origin(from.type_origins, item) ==> has_key(
                    with_type_reexport(loaded, x, item).trait_impls,
                    from.trait_impls[i].0,
                )
            &&& has_key(from.traits, item.1) && !has_key(x.traits, item.2) ==> forall|i: int|
                0 <= i < from.trait_impls.len() && (#[trigger] from.trait_impls[i]).0.0
                    == re_export_origin(from.trait_origins, item) ==> has_key(
                    with_type_reexport(loaded, x, item).trait_impls,
                    from.trait_impls[i].0,
                )
        },
{
    assert(x.bindings.subrange(0, x.bindings.len() as int) =~= x.bindings);
    assert(keeps_infos(x, x));
    if let Some(from) = at_key(loaded, item.0) {
        if let Some(scheme) = first_at(from.bindings, item.1) {
            let after = x.bindings.push((item.2, scheme));
            assert(after[x.bindings.len() as int].0 == item.2);
            assert(after.subrange(0, x.bindings.len() as int) =~= x.bindings);
        }
        let typed = with_type_of(x, from, item);
        if has_key(from.type_arity, item.1) && !has_key(x.type_arity, item.2) {
            let origin = re_export_origin(from.type_origins, item);
            impls_for_keep(origin, x.trait_impls, from.trait_impls);
            if let Some(ctors) = at_key(from.type_constructors, item.1) {
                let arity = at_key(from.type_arity, item.1)->0;
                let x1 = ExportsModel {
                    type_arity: put(x.type_arity, item.2, arity),
                    type_origins: put(x.type_origins, item.2, origin),
                    trait_impls: with_impls_for(origin, x.trait_impls, from.trait_impls),
                    type_param_kinds: match at_key(from.type_param_kinds, item.1) {
                        Some(kinds) => put(x.type_param_kinds, item.2, kinds),
                        None => x.type_param_kinds,
                    },
                    type_aliases: match at_key(from.type_aliases, item.1) {
                        Some(info) => put(x.type_aliases, item.2, info),
                        None => x.type_aliases,
                    },
                    record_defs: match at_key(from.record_defs, item.1) {
                        Some(info) => put(x.record_defs, item.2, info),
                        None => x.record_defs,
                    },
                    record_builders: match at_key(from.record_builders, item.1) {
                        Some(builder) => put(x.record_builders, item.2, builder),
                        None => x.record_builders,
                    },
                    ..x
                };
                ctors_keep_infos(
                    from,
                    item,
                    ExportsModel {
                        type_constructors: put(
                            x1.type_constructors,
                            item.2,
                            ctors.map_values(|ctor: Seq<char>| surfaced(item, ctor)),
                        ),
                        ..x1
                    },
                    ctors,
                );
            }
        }
        assert(keeps_infos(x, typed));
        if let Some(info) = at_key(from.traits, item.1) {
            if !has_key(typed.traits, item.2) {
                put_keeps_entries(typed.traits, item.2, info);
                put_then_get(typed.traits, item.2, info, item.2);
                key_is_put(typed.traits, item.2, info, item.2);
                impls_for_keep(
                    re_export_origin(from.trait_origins, item),
                    typed.trait_impls,
                    from.trait_impls,
                );
            }
        }
        if let Some(info) = at_key(from.effects, item.1) {
            if !has_key(x.effects, item.2) {
                put_keeps_entries(x.effects, item.2, info);
                put_then_get(x.effects, item.2, info, item.2);
                key_is_put(x.effects, item.2, info, item.2);
            }
        }
        if let Some(info) = at_key(from.handlers, item.1) {
            if !has_key(x.handlers, item.2) {
                put_keeps_entries(x.handlers, item.2, info);
                put_then_get(x.handlers, item.2, info, item.2);
                key_is_put(x.handlers, item.2, info, item.2);
            }
        }
        if from.effectful_funs.contains(item.1) {
            add_new_contains(x.effectful_funs, seq![item.2], item.2);
            assert(seq![item.2][0] == item.2);
        }
    }
}

proof fn re_exports_keep_infos(
    loaded: Seq<(Seq<char>, ExportsModel)>,
    acc: ExportsModel,
    items: Seq<ReExported>,
)
    requires
        infos_are_distinct(acc),
    ensures
        keeps_infos(acc, with_value_reexports(loaded, acc, items)),
        keeps_infos(acc, with_type_reexports(loaded, acc, items)),
        keeps_infos(acc, with_effect_reexports(loaded, acc, items)),
        keeps_infos(acc, with_effectful_reexports(loaded, acc, items)),
    decreases items.len(),
{
    if items.len() == 0 {
        assert(acc.bindings.subrange(0, acc.bindings.len() as int) =~= acc.bindings);
    } else {
        let init = items.drop_last();
        re_exports_keep_infos(loaded, acc, init);
        let a = with_value_reexports(loaded, acc, init);
        let b = with_type_reexports(loaded, acc, init);
        let c = with_effect_reexports(loaded, acc, init);
        let d = with_effectful_reexports(loaded, acc, init);
        re_exporting_adds(loaded, a, items.last());
        re_exporting_adds(loaded, b, items.last());
        re_exporting_adds(loaded, c, items.last());
        re_exporting_adds(loaded, d, items.last());
        keeping_in_turn(acc, a, with_value_reexports(loaded, acc, items));
        keeping_in_turn(acc, b, with_type_reexports(loaded, acc, items));
        keeping_in_turn(acc, c, with_effect_reexports(loaded, acc, items));
        keeping_in_turn(acc, d, with_effectful_reexports(loaded, acc, items));
    }
}

proof fn collecting_keeps_local(c: CheckerModel, program: Seq<Decl>)
    requires
        infos_are_distinct(local_exports(c, program)),
    ensures
        keeps_infos(local_exports(c, program), collected_exports(c, program)),
{
    let items = re_exported(c.exports, Seq::empty(), program);
    let x0 = local_exports(c, program);
    let x1 = with_value_reexports(c.exports, x0, items);
    re_exports_keep_infos(c.exports, x0, items);
    let x2 = with_type_reexports(c.exports, x1, items);
    re_exports_keep_infos(c.exports, x1, items);
    let x3 = with_effect_reexports(c.exports, x2, items);
    re_exports_keep_infos(c.exports, x2, items);
    re_exports_keep_infos(c.exports, x3, items);
    let x4 = with_effectful_reexports(c.exports, x3, items);
    keeping_in_turn(x0, x1, x2);
    keeping_in_turn(x0, x2, x3);
    keeping_in_turn(x0, x3, x4);
}

/// What a module declares is exported as it is registered: every impl, under its
/// resolved key, and the public traits, effects and handlers, under their names.
pub proof fn declarations_are_exported(c: CheckerModel, program: Seq<Decl>, i: int)
    requires
        0 <= i < program.len(),
    ensures
        ({
            let x = collected_exports(c, program);
            match program[i] {
                Decl::ImplDef { .. } => {
                    let key = impl_key(c, program[i])->0;
                    has_key(c.trait_state.impls, key) ==> at_key(x.trait_impls, key) == at_key(
                        c.trait_state.impls,
                        key,
                    )
                },
                Decl::TraitDef { public, name, .. } => {
                    let own = local_name(c.current_module, name@);
                    public && has_key(c.trait_state.traits, own) ==> at_key(x.traits, name@)
                        == at_key(c.trait_state.traits, own)
                },
                Decl::EffectDef { public, name, .. } => {
                    let own = local_name(c.current_module, name@);
                    public && has_key(c.effects, own) ==> at_key(x.effects, name@) == at_key(
                        c.effects,
                        own,
                    )
                },
                Decl::HandlerDef { public, name, .. } => {
                    let own = local_name(c.current_module, name@);
                    public && has_key(c.handlers, own) ==> at_key(x.handlers, name@) == at_key(
                        c.handlers,
                        own,
                    )
                },
                _ => true,
            }
        }),
{
    local_infos(c, program);
    let x0 = local_exports(c, program);
    assert(has_info(c, x0, program[i]));
    collecting_keeps_local(c, program);
}

/// Of what a module declares itself, just what is public is exported, beside the impls;
/// each as it is registered, and from the module.
pub proof fn private_declarations_are_not_exported(c: CheckerModel, program: Seq<Decl>)
    ensures
        ({
            let x = local_exports(c, program);
            &&& tells_what_is_registered(c, x)
            &&& forall|k: (Seq<char>, Seq<Seq<char>>, Seq<char>)| #[trigger]
                has_key(x.trait_impls, k) ==> exists|i: int|
                    0 <= i < program.len() && impl_key(c, #[trigger] program[i]) == Some(k)
            &&& forall|k: Seq<char>| #[trigger]
                has_key(x.traits, k) ==> exists|i: int|
                    0 <= i < program.len() && is_public_trait(#[trigger] program[i], k)
            &&& forall|k: Seq<char>| #[trigger]
                has_key(x.effects, k) ==> exists|i: int|
                    0 <= i < program.len() && is_public_effect(#[trigger] program[i], k)
            &&& forall|k: Seq<char>| #[trigger]
                has_key(x.handlers, k) ==> exists|i: int|
                    0 <= i < program.len() && is_public_handler(#[trigger] program[i], k)
            &&& forall|k: Seq<char>| #[trigger]
                has_key(x.record_defs, k) ==> exists|i: int|
                    0 <= i < program.len() && is_public_record(#[trigger] program[i], k)
            &&& forall|i: int|
                0 <= i < program.len() ==> has_info(c, x, #[trigger] program[i])
        }),
{
    local_infos(c, program);
}

/// The value of the first entry with a key is found, and nothing where no entry has it.
pub proof fn first_entries_are_found<V>(entries: Seq<(Seq<char>, V)>, k: Seq<char>)
    ensures
        match first_at(entries, k) {
            Some(v) => exists|i: int|
                0 <= i < entries.len() && #[trigger] entries[i] == (k, v) && forall|j: int|
                    0 <= j < i ==> (#[trigger] entries[j]).0 != k,
            None => forall|j: int| 0 <= j < entries.len() ==> (#[trigger] entries[j]).0 != k,
        },
    decreases entries.len(),
{
    if entries.len() > 0 {
        let init = entries.drop_last();
        first_entries_are_found(init, k);
        assert(forall|j: int| 0 <= j < init.len() ==> #[trigger] entries[j] == init[j]);
        assert(entries[entries.len() - 1] == entries.last());
        if let Some(v) = first_at(init, k) {
            let i = choose|i: int|
                0 <= i < init.len() && #[trigger] init[i] == (k, v) && forall|j: int|
                    0 <= j < i ==> (#[trigger] init[j]).0 != k;
            assert(entries[i] == (k, v));
            assert forall|j: int| 0 <= j < i implies (#[trigger] entries[j]).0 != k by {
                assert(init[j].0 != k);
            }
        } else if entries.last().0 == k {
            assert(entries[entries.len() - 1] == (k, entries.last().1));
        }
    }
}

/// Whether a declaration makes a name public: that of a function, type, alias, record or
/// handler, or of a constructor of a type that is not opaque.
pub open spec fn makes_public(decl: Decl, k: Seq<char>) -> bool {
    match decl {
        Decl::FunSignature { public, name, .. } => public && name@ == k,
        Decl::TypeDef { public, opaque, name, variants, .. } => public && (name@ == k || !opaque
            && exists|i: int| 0 <= i < variants@.len() && (#[trigger] variants@[i]).name@ == k),
        Decl::TypeAlias { public, name, .. } => public && name@ == k,
        Decl::RecordDef { public, name, .. } => public && name@ == k,
        Decl::HandlerDef { public, name, .. } => public && name@ == k,
        _ => false,
    }
}

proof fn one_contains<A>(a: A, x: A)
    ensures
        seq![a].contains(x) <==> a == x,
{
    assert(seq![a][0] == a);
}

proof fn declared_are_public(decl: Decl, k: Seq<char>)
    ensures
        declared_names(decl).contains(k) <==> makes_public(decl, k),
{
    match decl {
        Decl::FunSignature { name, .. } => {
            one_contains(name@, k);
        },
        Decl::TypeDef { name, variants, opaque, public, .. } => {
            one_contains(name@, k);
            if public && !opaque {
                let names = ctor_names(variants@);
                let all = seq![name@] + names;
                if all.contains(k) {
                    let i = choose|i: int| 0 <= i < all.len() && all[i] == k;
                    if i > 0 {
                        assert(names[i - 1] == variants@[i - 1].name@);
                    }
                }
                if name@ == k {
                    assert(all[0] == k);
                }
                if exists|i: int| 0 <= i < variants@.len() && (#[trigger] variants@[i]).name@ == k {
                    let i = choose|i: int|
                        0 <= i < variants@.len() && (#[trigger] variants@[i]).name@ == k;
                    assert(all[i + 1] == k);
                }
            }
        },
        Decl::TypeAlias { name, .. } => {
            one_contains(name@, k);
        },
        Decl::RecordDef { name, .. } => {
            one_contains(name@, k);
        },
        Decl::HandlerDef { name, .. } => {
            one_contains(name@, k);
        },
        _ => {},
    }
}

/// Just the names that some declaration makes public are public.
pub proof fn public_names_are_those_made_public(program: Seq<Decl>, k: Seq<char>)
    ensures
        public_names(Seq::empty(), program).contains(k) <==> exists|i: int|
            0 <= i < program.len() && makes_public(#[trigger] program[i], k),
    decreases program.len(),
{
    if program.len() > 0 {
        let init = program.drop_last();
        public_names_are_those_made_public(init, k);
        declared_are_public(program.last(), k);
        add_new_contains(public_names(Seq::empty(), init), declared_names(program.last()), k);
        assert(forall|i: int| 0 <= i < init.len() ==> #[trigger] program[i] == init[i]);
        assert(forall|i: int| 0 <= i < init.len() ==> program[i] == #[trigger] init[i]);
        assert(program[program.len() - 1] == program.last());
    }
}

/// What a name of the module is bound to: its binding, or else that of a constructor.
pub open spec fn own_binding(c: CheckerModel, k: Seq<char>) -> Option<SchemeModel> {
    match at_key(c.env.bindings, k) {
        Some(scheme) => Some(scheme),
        None => at_key(c.constructors, k),
    }
}

proof fn bindings_are_added(c: CheckerModel, acc: ExportsModel, items: Seq<Seq<char>>, k: Seq<char>)
    requires
        acc.bindings.len() == 0,
        acc.binding_origins.len() == 0,
    ensures
        ({
            let x = with_bindings(c, acc, items);
            &&& first_at(x.bindings, k) == (if items.contains(k) {
                own_binding(c, k)
            } else {
                None
            })
            &&& distinct_keys(x.binding_origins)
            &&& at_key(x.binding_origins, k) == (if items.contains(k) && own_binding(c, k) is Some {
                Some(exported_name(module_prefix(c), k))
            } else {
                None
            })
        }),
    decreases items.len(),
{
    if items.len() > 0 {
        let init = items.drop_last();
        bindings_are_added(c, acc, init, k);
        let before = with_bindings(c, acc, init);
        let after = with_bindings(c, acc, items);
        let name = items.last();
        assert(items =~= init.push(name));
        push_contains(init, name, k);
        if let Some(scheme) = own_binding(c, name) {
            assert(after.bindings == before.bindings.push((name, scheme)));
            assert(after.bindings.drop_last() =~= before.bindings);
            put_then_get(
                before.binding_origins,
                name,
                exported_name(module_prefix(c), name),
                k,
            );
            put_then_get(
                before.binding_origins,
                name,
                exported_name(module_prefix(c), name),
                name,
            );
        }
    }
}

/// Of its own names, a module binds just the public ones for others, each to what it is
/// bound to in the module, and as coming from the module.
pub proof fn public_names_are_bound(c: CheckerModel, program: Seq<Decl>, k: Seq<char>)
    ensures
        ({
            let x = local_exports(c, program);
            let public = exists|i: int|
                0 <= i < program.len() && makes_public(#[trigger] program[i], k);
            &&& first_at(x.bindings, k) == (if public {
                own_binding(c, k)
            } else {
                None
            })
            &&& at_key(x.binding_origins, k) == (if public && own_binding(c, k) is Some {
                Some(exported_name(module_prefix(c), k))
            } else {
                None
            })
        }),
{
    public_names_are_those_made_public(program, k);
    let names = public_names(Seq::empty(), program);
    bindings_are_added(c, no_exports(), names, k);
    let x1 = with_bindings(c, no_exports(), names);
    later_parts_keep_bindings(c, x1, program);
}

proof fn infos_keep_bindings(c: CheckerModel, acc: ExportsModel, items: Seq<Decl>)
    ensures
        ({
            let x = with_decl_infos(c, acc, items);
            &&& x.bindings == acc.bindings
            &&& x.binding_origins == acc.binding_origins
            &&& x.type_constructors == acc.type_constructors
            &&& x.type_origins == acc.type_origins
        }),
    decreases items.len(),
{
    if items.len() > 0 {
        infos_keep_bindings(c, acc, items.drop_last());
    }
}

proof fn later_parts_keep_bindings(c: CheckerModel, x1: ExportsModel, program: Seq<Decl>)
    requires
        x1 == with_bindings(c, no_exports(), public_names(Seq::empty(), program)),
    ensures
        local_exports(c, program).bindings == x1.bindings,
        local_exports(c, program).binding_origins == x1.binding_origins,
        local_exports(c, program).type_constructors == with_type_decls(
            c,
            x1,
            program,
        ).type_constructors,
{
    let x2 = with_type_decls(c, x1, program);
    types_add_no_info(c, x1, program);
    let x3 = with_all_private_ctors(c, x2, program);
    types_add_no_info(c, x2, program);
    let x4 = with_decl_infos(c, x3, program);
    infos_keep_bindings(c, x3, program);
    let x5 = with_arities(c, x4, entry_names(x4.type_constructors));
    arities_add_no_info(c, x4, entry_names(x4.type_constructors));
    let x6 = with_arities(c, x5, entry_names(x5.record_defs));
    arities_add_no_info(c, x5, entry_names(x5.record_defs));
    let x7 = with_aliases(c, x6, program);
    types_add_no_info(c, x6, program);
    let x8 = with_all_kinds(c, x7, entry_names(x7.type_constructors));
    arities_add_no_info(c, x7, entry_names(x7.type_constructors));
    let x9 = with_all_kinds(c, x8, entry_names(x8.type_aliases));
    arities_add_no_info(c, x8, entry_names(x8.type_aliases));
    let x10 = with_all_effectful(x9, program);
    types_add_no_info(c, x9, program);
    types_add_no_info(c, x10, program);
}

/// Whether a declaration is that of a public type with some constructors for others: all
/// of them, or none of an opaque one. A record has itself.
pub open spec fn is_public_type(decl: Decl, k: Seq<char>, ctors: Seq<Seq<char>>) -> bool {
    match decl {
        Decl::TypeDef { public, opaque, name, variants, .. } => {
            &&& public
            &&& name@ == k
            &&& if opaque {
                ctors.len() == 0
            } else {
                &&& ctors.len() == variants@.len()
                &&& forall|i: int|
                    0 <= i < ctors.len() ==> #[trigger] ctors[i] == variants@[i].name@
            }
        },
        Decl::RecordDef { public, name, .. } => public && name@ == k && ctors == seq![k],
        _ => false,
    }
}

proof fn types_are_added(c: CheckerModel, acc: ExportsModel, items: Seq<Decl>, k: Seq<char>)
    requires
        acc.type_constructors.len() == 0,
    ensures
        ({
            let x = with_type_decls(c, acc, items);
            &&& distinct_keys(x.type_constructors)
            &&& match at_key(x.type_constructors, k) {
                Some(ctors) => exists|i: int|
                    0 <= i < items.len() && is_public_type(#[trigger] items[i], k, ctors),
                None => forall|i: int, ctors: Seq<Seq<char>>|
                    0 <= i < items.len() ==> !#[trigger] is_public_type(items[i], k, ctors),
            }
        }),
    decreases items.len(),
{
    if items.len() > 0 {
        let init = items.drop_last();
        types_are_added(c, acc, init, k);
        let before = with_type_decls(c, acc, init).type_constructors;
        let after = with_type_decls(c, acc, items).type_constructors;
        let decl = items.last();
        let last = items.len() - 1;
        assert(items[last] == decl);
        assert(forall|i: int| 0 <= i < init.len() ==> #[trigger] items[i] == init[i]);
        match decl {
            Decl::TypeDef { public, opaque, name, variants, .. } => {
                if public {
                    let ctors = if opaque {
                        Seq::empty()
                    } else {
                        ctor_names(variants@)
                    };
                    put_then_get(before, name@, ctors, k);
                    put_then_get(before, name@, ctors, name@);
                    assert(is_public_type(items[last], name@, ctors));
                }
            },
            Decl::RecordDef { public, name, .. } => {
                if public {
                    put_then_get(before, name@, seq![name@], k);
                    put_then_get(before, name@, seq![name@], name@);
                    assert(is_public_type(items[last], name@, seq![name@]));
                }
            },
            _ => {},
        }
        match at_key(after, k) {
            Some(ctors) => {
                if at_key(before, k) == Some(ctors) {
                    let i = choose|i: int|
                        0 <= i < init.len() && is_public_type(#[trigger] init[i], k, ctors);
                    assert(is_public_type(items[i], k, ctors));
                }
            },
            None => {
                assert forall|i: int, ctors: Seq<Seq<char>>|
                    0 <= i < items.len() implies !#[trigger] is_public_type(items[i], k, ctors) by {
                    if i < init.len() {
                        assert(!is_public_type(init[i], k, ctors));
                    }
                }
            },
        }
    }
}

/// Just the public types of a module are exported, with their constructors; an opaque
/// type has none for others.
pub proof fn public_types_are_exported(c: CheckerModel, program: Seq<Decl>, k: Seq<char>)
    ensures
        match at_key(local_exports(c, program).type_constructors, k) {
            Some(ctors) => exists|i: int|
                0 <= i < program.len() && is_public_type(#[trigger] program[i], k, ctors),
            None => forall|i: int, ctors: Seq<Seq<char>>|
                0 <= i < program.len() ==> !#[trigger] is_public_type(program[i], k, ctors),
        },
{
    let names = public_names(Seq::empty(), program);
    let x1 = with_bindings(c, no_exports(), names);
    bindings_add_no_info(c, no_exports(), names);
    later_parts_keep_bindings(c, x1, program);
    types_are_added(c, x1, program, k);
}

/// Whether an import re-exports an item: it is exposed as public, under its alias where
/// it has one; or all that the module exports is.
pub open spec fn is_re_exported_by(
    loaded: Seq<(Seq<char>, ExportsModel)>,
    decl: Decl,
    item: ReExported,
) -> bool {
    match decl {
        Decl::Import { module, exposing, .. } => {
            &&& item.0 == joined(module.deep_view(), "."@)
            &&& match exposing {
                Some(Exposing::Items(items)) => exists|i: int|
                    0 <= i < items@.len() && (#[trigger] items@[i]).public && item.1
                        == items@[i].name@ && item.2 == surface_of(items@[i]),
                Some(Exposing::All { public, .. }) => public && item.1 == item.2 && has_key(
                    loaded,
                    item.0,
                ) && all_exposed_names(at_key(loaded, item.0)->0).contains(item.1),
                None => false,
            }
        },
        _ => false,
    }
}

proof fn re_exports_of_one(
    loaded: Seq<(Seq<char>, ExportsModel)>,
    decl: Decl,
    item: ReExported,
)
    ensures
        re_exported_by(loaded, decl).contains(item) <==> is_re_exported_by(loaded, decl, item),
{
    if let Decl::Import { module, exposing, .. } = decl {
        let name = joined(module.deep_view(), "."@);
        match exposing {
            Some(Exposing::Items(items)) => {
                let keep = |i: ExposedItem| i.public;
                let kept = items@.filter(keep);
                let all = kept.map_values(|i: ExposedItem| re_exported_item(name, i));
                if all.contains(item) {
                    let x = choose|x: int| 0 <= x < all.len() && all[x] == item;
                    filter_contains(items@, keep, kept[x]);
                    assert(kept.contains(kept[x]));
                    let i = choose|i: int| 0 <= i < items@.len() && items@[i] == kept[x];
                    assert(items@[i].public);
                }
                if is_re_exported_by(loaded, decl, item) {
                    let i = choose|i: int|
                        0 <= i < items@.len() && (#[trigger] items@[i]).public && item.1
                            == items@[i].name@ && item.2 == surface_of(items@[i]);
                    filter_contains(items@, keep, items@[i]);
                    assert(items@.contains(items@[i]));
                    let x = choose|x: int| 0 <= x < kept.len() && kept[x] == items@[i];
                    assert(all[x] == item);
                }
            },
            Some(Exposing::All { public, .. }) => {
                if let Some(from) = at_key(loaded, name) {
                    let names = all_exposed_names(from);
                    let all = names.map_values(|n: Seq<char>| (name, n, n));
                    if all.contains(item) {
                        let x = choose|x: int| 0 <= x < all.len() && all[x] == item;
                        assert(names[x] == item.1);
                    }
                    if names.contains(item.1) {
                        let x = choose|x: int| 0 <= x < names.len() && names[x] == item.1;
                        assert(all[x] == (name, item.1, item.1));
                    }
                }
            },
            None => {},
        }
    }
}

/// A program re-exports just the items that one of its imports does.
pub proof fn imports_re_export_what_they_say(
    loaded: Seq<(Seq<char>, ExportsModel)>,
    program: Seq<Decl>,
    item: ReExported,
)
    ensures
        re_exported(loaded, Seq::empty(), program).contains(item) <==> exists|i: int|
            0 <= i < program.len() && is_re_exported_by(loaded, #[trigger] program[i], item),
    decreases program.len(),
{
    if program.len() > 0 {
        let init = program.drop_last();
        imports_re_export_what_they_say(loaded, init, item);
        re_exports_of_one(loaded, program.last(), item);
        let a = re_exported(loaded, Seq::empty(), init);
        let b = re_exported_by(loaded, program.last());
        if (a + b).contains(item) {
            let x = choose|x: int| 0 <= x < (a + b).len() && (a + b)[x] == item;
            if x < a.len() {
                assert(a[x] == item);
            } else {
                assert(b[x - a.len()] == item);
            }
        }
        if a.contains(item) {
            let x = choose|x: int| 0 <= x < a.len() && a[x] == item;
            assert((a + b)[x] == item);
        }
        if b.contains(item) {
            let x = choose|x: int| 0 <= x < b.len() && b[x] == item;
            assert((a + b)[a.len() + x] == item);
        }
        assert(forall|i: int| 0 <= i < init.len() ==> #[trigger] program[i] == init[i]);
        assert(forall|i: int| 0 <= i < init.len() ==> program[i] == #[trigger] init[i]);
        assert(program[program.len() - 1] == program.last());
    }
}

} // verus!
