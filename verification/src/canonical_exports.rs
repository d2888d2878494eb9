//! What loading a module makes known: its exports, under their canonical names.

use vstd::prelude::*;
use crate::ast::{surface_of, ExposedItem, NodeId};
use crate::checker::{Checker, CheckerModel, LspModel, TraitStateModel};
use crate::codegen_info::{arrow_count, ctor_arity};
use crate::exports::{keeps_entries, put_keeps_entries};
use crate::import_scope::{
    import_scope, is_type_name, names_type, origin_name, origin_of, resolve_import,
};
use crate::diagnostics::{an_error_at, Diag, Diagnostic};
use crate::infos::{
    EffectDefInfo, EffectModel, ExportsModel, HandlerInfo, HandlerModel, MethodModel,
    ModuleExports, RecordInfo, RecordModel, TraitInfo, TraitMethodInfo, TraitModel,
};
use crate::schemes::{AliasModel, EnvModel, Scheme, SchemeModel, TypeAliasInfo, TypeEnv};
use crate::scope::merged_scopes;
use crate::seqs::{add_new, add_new_one, push_new};
use crate::table::{
    at_key, distinct_keys, has_key, put, put_all_new, put_new, put_then_get, Table,
};
use crate::text::{dot_join, dotted, text_eq};
use crate::token::Span;
use crate::traits::key_is_put;
use crate::values::{contains_name, push_value, Dup};

verus! {

/// The last binding of a name.
pub open spec fn binding_of(bindings: Seq<(Seq<char>, SchemeModel)>, name: Seq<char>) -> Option<
    SchemeModel,
>
    decreases bindings.len(),
{
    if bindings.len() == 0 {
        None
    } else if bindings.last().0 == name {
        Some(bindings.last().1)
    } else {
        binding_of(bindings.drop_last(), name)
    }
}

fn find_last_binding<'a>(bindings: &'a Vec<(String, Scheme)>, name: &str) -> (r: Option<&'a Scheme>)
    ensures
        r.deep_view() == binding_of(bindings.deep_view(), name@),
        r matches Some(s) ==> exists|i: int|
            0 <= i < bindings.len() && (#[trigger] bindings.deep_view()[i]).1 == s.deep_view(),
{
    let ghost all = bindings.deep_view();
    let mut n: usize = bindings.len();
    assert(all.take(n as int) =~= all);
    while n > 0
        invariant
            n <= bindings.len(),
            all == bindings.deep_view(),
            binding_of(all, name@) == binding_of(all.take(n as int), name@),
        decreases n,
    {
        n = n - 1;
        proof {
            assert(all.take(n + 1).drop_last() =~= all.take(n as int));
            assert(all.take(n + 1).last() == all[n as int]);
        }
        if text_eq(bindings[n].0.as_str(), name) {
            assert(bindings.deep_view()[n as int].1 == bindings@[n as int].1.deep_view());
            return Some(&bindings[n].1);
        }
    }
    assert(all.take(0) =~= Seq::empty());
    None
}

pub open spec fn option_view(s: Option<&str>) -> Option<Seq<char>> {
    match s {
        Some(s) => Some(s@),
        None => None,
    }
}

/// The environment with a binding, and where it is defined if that is known.
pub open spec fn with_env_binding(
    env: EnvModel,
    name: Seq<char>,
    scheme: SchemeModel,
    def: Option<NodeId>,
) -> EnvModel {
    EnvModel {
        bindings: put(env.bindings, name, scheme),
        def_ids: match def {
            Some(id) => put(env.def_ids, name, id),
            None => env.def_ids,
        },
    }
}

fn bind_in_env(env: &mut TypeEnv, name: String, scheme: Scheme, def: Option<&NodeId>)
    ensures
        final(env)@ == with_env_binding(old(env)@, name@, scheme.deep_view(), def.deep_view()),
{
    match def {
        Some(id) => env.insert_with_def(name, scheme, *id),
        None => env.insert(name, scheme),
    }
}

/// The documentation with that of an exported name, unless there is some already.
pub open spec fn with_export_doc(
    c: CheckerModel,
    x: ExportsModel,
    name: Seq<char>,
    key: Seq<char>,
) -> CheckerModel {
    match at_key(x.doc_comments, name) {
        Some(doc) => CheckerModel {
            lsp: LspModel {
                imported_docs: put_new(c.lsp.imported_docs, key, doc),
                ..c.lsp
            },
            ..c
        },
        None => c,
    }
}

fn add_export_doc(c: &mut Checker, x: &ModuleExports, name: &str, key: String)
    ensures
        final(c).deep_view() == with_export_doc(
            old(c).deep_view(),
            x.deep_view(),
            name@,
            key@,
        ),
{
    if let Some(doc) = x.doc_comments.named(name) {
        c.lsp.imported_docs.insert_if_absent(key, doc.dup());
    }
}

/// The state with a method of an exported trait, unless it is bound already.
pub open spec fn with_export_method(
    x: ExportsModel,
    canonical: Seq<char>,
    c: CheckerModel,
    m: MethodModel,
) -> CheckerModel {
    let name = dotted(canonical, m.name);
    if has_key(c.env.bindings, name) {
        c
    } else {
        CheckerModel {
            env: with_env_binding(c.env, name, m.scheme, at_key(x.def_ids, m.name)),
            ..c
        }
    }
}

pub open spec fn with_export_methods(
    x: ExportsModel,
    canonical: Seq<char>,
    acc: CheckerModel,
    items: Seq<MethodModel>,
) -> CheckerModel
    decreases items.len(),
{
    if items.len() == 0 {
        acc
    } else {
        with_export_method(
            x,
            canonical,
            with_export_methods(x, canonical, acc, items.drop_last()),
            items.last(),
        )
    }
}

fn add_export_methods(
    x: &ModuleExports,
    canonical: &str,
    acc: &mut Checker,
    items: &Vec<TraitMethodInfo>,
)
    ensures
        final(acc).deep_view() == with_export_methods(
            x.deep_view(),
            canonical@,
            old(acc).deep_view(),
            items.deep_view(),
        ),
{
    let ghost a0 = acc.deep_view();
    let ghost all = items.deep_view();
    let mut i: usize = 0;
    assert(all.take(0) =~= Seq::empty());
    while i < items.len()
        invariant
            i <= items.len(),
            all == items.deep_view(),
            acc.deep_view() == with_export_methods(
                x.deep_view(),
                canonical@,
                a0,
                all.take(i as int),
            ),
        decreases items.len() - i,
    {
        proof {
            assert(all.take(i + 1).drop_last() =~= all.take(i as int));
            assert(all.take(i + 1).last() == all[i as int]);
        }
        let m = &items[i];
        let name = dot_join(canonical, m.name.as_str());
        let bound = acc.env.get(name.as_str()).is_some();
        if !bound {
            bind_in_env(&mut acc.env, name, m.scheme.dup(), x.def_ids.get(&m.name));
        }
        i = i + 1;
    }
    assert(all.take(i as int) =~= all);
}

/// The state with an exported trait and its methods.
pub open spec fn with_export_trait(
    x: ExportsModel,
    module: Seq<char>,
    c: CheckerModel,
    t: (Seq<char>, TraitModel),
) -> CheckerModel {
    let canonical = origin_of(x.trait_origins, module, t.0);
    let c1 = CheckerModel {
        trait_state: TraitStateModel {
            traits: put_new(c.trait_state.traits, canonical, t.1),
            ..c.trait_state
        },
        ..c
    };
    with_export_methods(x, canonical, with_export_doc(c1, x, t.0, t.0), t.1.methods)
}

pub open spec fn with_export_traits(
    x: ExportsModel,
    module: Seq<char>,
    acc: CheckerModel,
    items: Seq<(Seq<char>, TraitModel)>,
) -> CheckerModel
    decreases items.len(),
{
    if items.len() == 0 {
        acc
    } else {
        with_export_trait(
            x,
            module,
            with_export_traits(x, module, acc, items.drop_last()),
            items.last(),
        )
    }
}

fn add_export_traits(
    x: &ModuleExports,
    module: &str,
    acc: &mut Checker,
    items: &Table<String, TraitInfo>,
)
    ensures
        final(acc).deep_view() == with_export_traits(
            x.deep_view(),
            module@,
            old(acc).deep_view(),
            items.order(),
        ),
{
    let ghost a0 = acc.deep_view();
    let ghost all = items.order();
    let n = items.len();
    let mut i: usize = 0;
    assert(all.take(0) =~= Seq::empty());
    while i < n
        invariant
            i <= n,
            all == items.order(),
            n == all.len(),
            acc.deep_view() == with_export_traits(x.deep_view(), module@, a0, all.take(i as int)),
        decreases n - i,
    {
        proof {
            assert(all.take(i + 1).drop_last() =~= all.take(i as int));
            assert(all.take(i + 1).last() == all[i as int]);
        }
        let name = items.key(i);
        let info = items.value(i);
        let canonical = origin_name(&x.trait_origins, module, name.as_str());
        acc.trait_state.traits.insert_if_absent(canonical.clone(), info.dup());
        add_export_doc(acc, x, name.as_str(), name.clone());
        add_export_methods(x, canonical.as_str(), acc, &info.methods);
        i = i + 1;
    }
    assert(all.take(i as int) =~= all);
}

/// The state with an exported effect.
pub open spec fn with_export_effect(
    x: ExportsModel,
    module: Seq<char>,
    c: CheckerModel,
    e: (Seq<char>, EffectModel),
) -> CheckerModel {
    with_export_doc(
        CheckerModel {
            effects: put_new(c.effects, origin_of(x.effect_origins, module, e.0), e.1),
            ..c
        },
        x,
        e.0,
        e.0,
    )
}

pub open spec fn with_export_effects(
    x: ExportsModel,
    module: Seq<char>,
    acc: CheckerModel,
    items: Seq<(Seq<char>, EffectModel)>,
) -> CheckerModel
    decreases items.len(),
{
    if items.len() == 0 {
        acc
    } else {
        with_export_effect(
            x,
            module,
            with_export_effects(x, module, acc, items.drop_last()),
            items.last(),
        )
    }
}

fn add_export_effects(
    x: &ModuleExports,
    module: &str,
    acc: &mut Checker,
    items: &Table<String, EffectDefInfo>,
)
    ensures
        final(acc).deep_view() == with_export_effects(
            x.deep_view(),
            module@,
            old(acc).deep_view(),
            items.order(),
        ),
{
    let ghost a0 = acc.deep_view();
    let ghost all = items.order();
    let n = items.len();
    let mut i: usize = 0;
    assert(all.take(0) =~= Seq::empty());
    while i < n
        invariant
            i <= n,
            all == items.order(),
            n == all.len(),
            acc.deep_view() == with_export_effects(x.deep_view(), module@, a0, all.take(i as int)),
        decreases n - i,
    {
        proof {
            assert(all.take(i + 1).drop_last() =~= all.take(i as int));
            assert(all.take(i + 1).last() == all[i as int]);
        }
        let name = items.key(i);
        let canonical = origin_name(&x.effect_origins, module, name.as_str());
        acc.effects.insert_if_absent(canonical, items.value(i).dup());
        add_export_doc(acc, x, name.as_str(), name.clone());
        i = i + 1;
    }
    assert(all.take(i as int) =~= all);
}

/// The name under which an import exposes a name.
pub open spec fn exposed_as(items: Seq<ExposedItem>, name: Seq<char>) -> Option<Seq<char>>
    decreases items.len(),
{
    if items.len() == 0 {
        None
    } else {
        match exposed_as(items.drop_last(), name) {
            Some(surface) => Some(surface),
            None => if items.last().name@ == name {
                Some(surface_of(items.last()))
            } else {
                None
            },
        }
    }
}

proof fn exposed_as_stays(items: Seq<ExposedItem>, name: Seq<char>, n: int)
    requires
        0 <= n <= items.len(),
        exposed_as(items.take(n), name) is Some,
    ensures
        exposed_as(items, name) == exposed_as(items.take(n), name),
    decreases items.len(),
{
    if n < items.len() {
        assert(items.drop_last().take(n) =~= items.take(n));
        exposed_as_stays(items.drop_last(), name, n);
    } else {
        assert(items.take(n) =~= items);
    }
}

fn find_exposed(items: &Vec<ExposedItem>, name: &str) -> (r: Option<String>)
    ensures
        r.deep_view() == exposed_as(items@, name@),
{
    let ghost all = items@;
    let mut i: usize = 0;
    assert(all.take(0) =~= Seq::empty());
    while i < items.len()
        invariant
            i <= items.len(),
            all == items@,
            exposed_as(all.take(i as int), name@) is None,
        decreases items.len() - i,
    {
        proof {
            assert(all.take(i + 1).drop_last() =~= all.take(i as int));
            assert(all.take(i + 1).last() == all[i as int]);
        }
        if text_eq(items[i].name.as_str(), name) {
            proof {
                exposed_as_stays(all, name@, i + 1);
            }
            return Some(items[i].surface_name().clone());
        }
        i = i + 1;
    }
    assert(all.take(i as int) =~= all);
    None
}

/// The state with an exported handler; also under the name that the import exposes
/// it as.
pub open spec fn with_export_handler(
    x: ExportsModel,
    module: Seq<char>,
    exposing: Seq<ExposedItem>,
    c: CheckerModel,
    h: (Seq<char>, HandlerModel),
) -> CheckerModel {
    let own = put_new(c.handlers, origin_of(x.handler_origins, module, h.0), h.1);
    with_export_doc(
        CheckerModel {
            handlers: match exposed_as(exposing, h.0) {
                Some(surface) => put_new(own, surface, h.1),
                None => own,
            },
            ..c
        },
        x,
        h.0,
        h.0,
    )
}

pub open spec fn with_export_handlers(
    x: ExportsModel,
    module: Seq<char>,
    exposing: Seq<ExposedItem>,
    acc: CheckerModel,
    items: Seq<(Seq<char>, HandlerModel)>,
) -> CheckerModel
    decreases items.len(),
{
    if items.len() == 0 {
        acc
    } else {
        with_export_handler(
            x,
            module,
            exposing,
            with_export_handlers(x, module, exposing, acc, items.drop_last()),
            items.last(),
        )
    }
}

fn add_export_handlers(
    x: &ModuleExports,
    module: &str,
    exposing: &Vec<ExposedItem>,
    acc: &mut Checker,
    items: &Table<String, HandlerInfo>,
)
    ensures
        final(acc).deep_view() == with_export_handlers(
            x.deep_view(),
            module@,
            exposing@,
            old(acc).deep_view(),
            items.order(),
        ),
{
    let ghost a0 = acc.deep_view();
    let ghost all = items.order();
    let n = items.len();
    let mut i: usize = 0;
    assert(all.take(0) =~= Seq::empty());
    while i < n
        invariant
            i <= n,
            all == items.order(),
            n == all.len(),
            acc.deep_view() == with_export_handlers(
                x.deep_view(),
                module@,
                exposing@,
                a0,
                all.take(i as int),
            ),
        decreases n - i,
    {
        proof {
            assert(all.take(i + 1).drop_last() =~= all.take(i as int));
            assert(all.take(i + 1).last() == all[i as int]);
        }
        let name = items.key(i);
        let info = items.value(i);
        let canonical = origin_name(&x.handler_origins, module, name.as_str());
        acc.handlers.insert_if_absent(canonical, info.dup());
        if let Some(surface) = find_exposed(exposing, name.as_str()) {
            acc.handlers.insert_if_absent(surface, info.dup());
        }
        add_export_doc(acc, x, name.as_str(), name.clone());
        i = i + 1;
    }
    assert(all.take(i as int) =~= all);
}

pub open spec fn with_export_arity(
    x: ExportsModel,
    module: Seq<char>,
    entries: Seq<(Seq<char>, usize)>,
    e: (Seq<char>, usize),
) -> Seq<(Seq<char>, usize)> {
    put_new(entries, origin_of(x.type_origins, module, e.0), e.1)
}

pub open spec fn with_export_arities(
    x: ExportsModel,
    module: Seq<char>,
    acc: Seq<(Seq<char>, usize)>,
    items: Seq<(Seq<char>, usize)>,
) -> Seq<(Seq<char>, usize)>
    decreases items.len(),
{
    if items.len() == 0 {
        acc
    } else {
        with_export_arity(
            x,
            module,
            with_export_arities(x, module, acc, items.drop_last()),
            items.last(),
        )
    }
}

fn add_export_arities(
    x: &ModuleExports,
    module: &str,
    acc: &mut Table<String, usize>,
    items: &Table<String, usize>,
)
    ensures
        final(acc).order() == with_export_arities(
            x.deep_view(),
            module@,
            old(acc).order(),
            items.order(),
        ),
{
    let ghost a0 = acc.order();
    let ghost all = items.order();
    let n = items.len();
    let mut i: usize = 0;
    assert(all.take(0) =~= Seq::empty());
    while i < n
        invariant
            i <= n,
            all == items.order(),
            n == all.len(),
            acc.order() == with_export_arities(x.deep_view(), module@, a0, all.take(i as int)),
        decreases n - i,
    {
        proof {
            assert(all.take(i + 1).drop_last() =~= all.take(i as int));
            assert(all.take(i + 1).last() == all[i as int]);
        }
        let canonical = origin_name(&x.type_origins, module, items.key(i).as_str());
        acc.insert_if_absent(canonical, *items.value(i));
        i = i + 1;
    }
    assert(all.take(i as int) =~= all);
}

pub open spec fn with_export_kinds(
    x: ExportsModel,
    module: Seq<char>,
    entries: Seq<(Seq<char>, Seq<crate::ast::Kind>)>,
    e: (Seq<char>, Seq<crate::ast::Kind>),
) -> Seq<(Seq<char>, Seq<crate::ast::Kind>)> {
    put_new(entries, origin_of(x.type_origins, module, e.0), e.1)
}

pub open spec fn with_export_all_kinds(
    x: ExportsModel,
    module: Seq<char>,
    acc: Seq<(Seq<char>, Seq<crate::ast::Kind>)>,
    items: Seq<(Seq<char>, Seq<crate::ast::Kind>)>,
) -> Seq<(Seq<char>, Seq<crate::ast::Kind>)>
    decreases items.len(),
{
    if items.len() == 0 {
        acc
    } else {
        with_export_kinds(
            x,
            module,
            with_export_all_kinds(x, module, acc, items.drop_last()),
            items.last(),
        )
    }
}

fn add_export_all_kinds(
    x: &ModuleExports,
    module: &str,
    acc: &mut Table<String, Vec<crate::ast::Kind>>,
    items: &Table<String, Vec<crate::ast::Kind>>,
)
    ensures
        final(acc).order() == with_export_all_kinds(
            x.deep_view(),
            module@,
            old(acc).order(),
            items.order(),
        ),
{
    let ghost a0 = acc.order();
    let ghost all = items.order();
    let n = items.len();
    let mut i: usize = 0;
    assert(all.take(0) =~= Seq::empty());
    while i < n
        invariant
            i <= n,
            all == items.order(),
            n == all.len(),
            acc.order() == with_export_all_kinds(x.deep_view(), module@, a0, all.take(i as int)),
        decreases n - i,
    {
        proof {
            assert(all.take(i + 1).drop_last() =~= all.take(i as int));
            assert(all.take(i + 1).last() == all[i as int]);
        }
        let canonical = origin_name(&x.type_origins, module, items.key(i).as_str());
        acc.insert_if_absent(canonical, items.value(i).dup());
        i = i + 1;
    }
    assert(all.take(i as int) =~= all);
}

pub open spec fn with_export_alias(
    x: ExportsModel,
    module: Seq<char>,
    entries: Seq<(Seq<char>, AliasModel)>,
    e: (Seq<char>, AliasModel),
) -> Seq<(Seq<char>, AliasModel)> {
    put_new(entries, origin_of(x.type_origins, module, e.0), e.1)
}

pub open spec fn with_export_aliases(
    x: ExportsModel,
    module: Seq<char>,
    acc: Seq<(Seq<char>, AliasModel)>,
    items: Seq<(Seq<char>, AliasModel)>,
) -> Seq<(Seq<char>, AliasModel)>
    decreases items.len(),
{
    if items.len() == 0 {
        acc
    } else {
        with_export_alias(
            x,
            module,
            with_export_aliases(x, module, acc, items.drop_last()),
            items.last(),
        )
    }
}

fn add_export_aliases(
    x: &ModuleExports,
    module: &str,
    acc: &mut Table<String, TypeAliasInfo>,
    items: &Table<String, TypeAliasInfo>,
)
    ensures
        final(acc).order() == with_export_aliases(
            x.deep_view(),
            module@,
            old(acc).order(),
            items.order(),
        ),
{
    let ghost a0 = acc.order();
    let ghost all = items.order();
    let n = items.len();
    let mut i: usize = 0;
    assert(all.take(0) =~= Seq::empty());
    while i < n
        invariant
            i <= n,
            all == items.order(),
            n == all.len(),
            acc.order() == with_export_aliases(x.deep_view(), module@, a0, all.take(i as int)),
        decreases n - i,
    {
        proof {
            assert(all.take(i + 1).drop_last() =~= all.take(i as int));
            assert(all.take(i + 1).last() == all[i as int]);
        }
        let canonical = origin_name(&x.type_origins, module, items.key(i).as_str());
        acc.insert_if_absent(canonical, items.value(i).dup());
        i = i + 1;
    }
    assert(all.take(i as int) =~= all);
}

pub open spec fn with_export_record(
    x: ExportsModel,
    module: Seq<char>,
    entries: Seq<(Seq<char>, RecordModel)>,
    e: (Seq<char>, RecordModel),
) -> Seq<(Seq<char>, RecordModel)> {
    put_new(entries, origin_of(x.type_origins, module, e.0), e.1)
}

pub open spec fn with_export_records(
    x: ExportsModel,
    module: Seq<char>,
    acc: Seq<(Seq<char>, RecordModel)>,
    items: Seq<(Seq<char>, RecordModel)>,
) -> Seq<(Seq<char>, RecordModel)>
    decreases items.len(),
{
    if items.len() == 0 {
        acc
    } else {
        with_export_record(
            x,
            module,
            with_export_records(x, module, acc, items.drop_last()),
            items.last(),
        )
    }
}

fn add_export_records(
    x: &ModuleExports,
    module: &str,
    acc: &mut Table<String, RecordInfo>,
    items: &Table<String, RecordInfo>,
)
    ensures
        final(acc).order() == with_export_records(
            x.deep_view(),
            module@,
            old(acc).order(),
            items.order(),
        ),
{
    let ghost a0 = acc.order();
    let ghost all = items.order();
    let n = items.len();
    let mut i: usize = 0;
    assert(all.take(0) =~= Seq::empty());
    while i < n
        invariant
            i <= n,
            all == items.order(),
            n == all.len(),
            acc.order() == with_export_records(x.deep_view(), module@, a0, all.take(i as int)),
        decreases n - i,
    {
        proof {
            assert(all.take(i + 1).drop_last() =~= all.take(i as int));
            assert(all.take(i + 1).last() == all[i as int]);
        }
        let canonical = origin_name(&x.type_origins, module, items.key(i).as_str());
        acc.insert_if_absent(canonical, items.value(i).dup());
        i = i + 1;
    }
    assert(all.take(i as int) =~= all);
}

pub open spec fn with_export_fun(
    x: ExportsModel,
    module: Seq<char>,
    funs: Seq<Seq<char>>,
    name: Seq<char>,
) -> Seq<Seq<char>> {
    add_new(funs, seq![origin_of(x.binding_origins, module, name)])
}

pub open spec fn with_export_funs(
    x: ExportsModel,
    module: Seq<char>,
    acc: Seq<Seq<char>>,
    items: Seq<Seq<char>>,
) -> Seq<Seq<char>>
    decreases items.len(),
{
    if items.len() == 0 {
        acc
    } else {
        with_export_fun(
            x,
            module,
            with_export_funs(x, module, acc, items.drop_last()),
            items.last(),
        )
    }
}

fn add_export_funs(x: &ModuleExports, module: &str, acc: &mut Vec<String>, items: &Vec<String>)
    ensures
        final(acc).deep_view() == with_export_funs(
            x.deep_view(),
            module@,
            old(acc).deep_view(),
            items.deep_view(),
        ),
{
    let ghost a0 = acc.deep_view();
    let ghost all = items.deep_view();
    let mut i: usize = 0;
    assert(all.take(0) =~= Seq::empty());
    while i < items.len()
        invariant
            i <= items.len(),
            all == items.deep_view(),
            acc.deep_view() == with_export_funs(x.deep_view(), module@, a0, all.take(i as int)),
        decreases items.len() - i,
    {
        proof {
            assert(all.take(i + 1).drop_last() =~= all.take(i as int));
            assert(all.take(i + 1).last() == all[i as int]);
        }
        let canonical = origin_name(&x.binding_origins, module, items[i].as_str());
        proof {
            add_new_one(acc.deep_view(), canonical@);
        }
        push_new(acc, canonical);
        i = i + 1;
    }
    assert(all.take(i as int) =~= all);
}

/// The state with an exported binding, and its documentation also under the prefix
/// of the import.
pub open spec fn with_export_binding(
    x: ExportsModel,
    module: Seq<char>,
    prefix: Option<Seq<char>>,
    c: CheckerModel,
    b: (Seq<char>, SchemeModel),
) -> CheckerModel {
    let canonical = origin_of(x.binding_origins, module, b.0);
    let c1 = CheckerModel {
        env: with_env_binding(c.env, canonical, b.1, at_key(x.def_ids, b.0)),
        ..c
    };
    let c2 = with_export_doc(c1, x, b.0, canonical);
    match prefix {
        Some(p) => if p != module {
            with_export_doc(c2, x, b.0, dotted(p, b.0))
        } else {
            c2
        },
        None => c2,
    }
}

pub open spec fn with_export_bindings(
    x: ExportsModel,
    module: Seq<char>,
    prefix: Option<Seq<char>>,
    acc: CheckerModel,
    items: Seq<(Seq<char>, SchemeModel)>,
) -> CheckerModel
    decreases items.len(),
{
    if items.len() == 0 {
        acc
    } else {
        with_export_binding(
            x,
            module,
            prefix,
            with_export_bindings(x, module, prefix, acc, items.drop_last()),
            items.last(),
        )
    }
}

fn add_export_bindings(
    x: &ModuleExports,
    module: &str,
    prefix: Option<&str>,
    acc: &mut Checker,
    items: &Vec<(String, Scheme)>,
)
    ensures
        final(acc).deep_view() == with_export_bindings(
            x.deep_view(),
            module@,
            option_view(prefix),
            old(acc).deep_view(),
            items.deep_view(),
        ),
{
    let ghost a0 = acc.deep_view();
    let ghost all = items.deep_view();
    let mut i: usize = 0;
    assert(all.take(0) =~= Seq::empty());
    while i < items.len()
        invariant
            i <= items.len(),
            all == items.deep_view(),
            acc.deep_view() == with_export_bindings(
                x.deep_view(),
                module@,
                option_view(prefix),
                a0,
                all.take(i as int),
            ),
        decreases items.len() - i,
    {
        proof {
            assert(all.take(i + 1).drop_last() =~= all.take(i as int));
            assert(all.take(i + 1).last() == all[i as int]);
        }
        let name = items[i].0.as_str();
        let canonical = origin_name(&x.binding_origins, module, name);
        bind_in_env(
            &mut acc.env,
            canonical.clone(),
            items[i].1.dup(),
            x.def_ids.get(&items[i].0),
        );
        add_export_doc(acc, x, name, canonical);
        if let Some(p) = prefix {
            if !text_eq(p, module) {
                add_export_doc(acc, x, name, dot_join(p, name));
            }
        }
        i = i + 1;
    }
    assert(all.take(i as int) =~= all);
}

/// The state and the variants of a type, with an exported constructor.
pub open spec fn with_export_ctor(
    x: ExportsModel,
    module: Seq<char>,
    acc: (CheckerModel, Seq<(Seq<char>, usize)>),
    name: Seq<char>,
) -> (CheckerModel, Seq<(Seq<char>, usize)>) {
    let canonical = origin_of(x.binding_origins, module, name);
    match binding_of(x.bindings, name) {
        Some(scheme) => (
            CheckerModel {
                constructors: put(acc.0.constructors, canonical, scheme),
                lsp: LspModel {
                    constructor_def_ids: match at_key(x.def_ids, name) {
                        Some(id) => put(acc.0.lsp.constructor_def_ids, canonical, id),
                        None => acc.0.lsp.constructor_def_ids,
                    },
                    ..acc.0.lsp
                },
                ..acc.0
            },
            acc.1.push((canonical, arrow_count(scheme.ty) as usize)),
        ),
        None => acc,
    }
}

pub open spec fn with_export_ctors(
    x: ExportsModel,
    module: Seq<char>,
    acc: (CheckerModel, Seq<(Seq<char>, usize)>),
    items: Seq<Seq<char>>,
) -> (CheckerModel, Seq<(Seq<char>, usize)>)
    decreases items.len(),
{
    if items.len() == 0 {
        acc
    } else {
        with_export_ctor(
            x,
            module,
            with_export_ctors(x, module, acc, items.drop_last()),
            items.last(),
        )
    }
}

/// Variants of a type, unless there are some already or it has none.
pub open spec fn with_variants(
    c: CheckerModel,
    name: Seq<char>,
    variants: Seq<(Seq<char>, usize)>,
) -> CheckerModel {
    if !has_key(c.adt_variants, name) && variants.len() > 0 {
        CheckerModel { adt_variants: put(c.adt_variants, name, variants), ..c }
    } else {
        c
    }
}

pub open spec fn with_export_type(
    x: ExportsModel,
    module: Seq<char>,
    c: CheckerModel,
    t: (Seq<char>, Seq<Seq<char>>),
) -> CheckerModel {
    let done = with_export_ctors(x, module, (c, Seq::empty()), t.1);
    with_variants(done.0, t.0, done.1)
}

/// The state with the constructors of exported types.
pub open spec fn with_export_types(
    x: ExportsModel,
    module: Seq<char>,
    acc: CheckerModel,
    items: Seq<(Seq<char>, Seq<Seq<char>>)>,
) -> CheckerModel
    decreases items.len(),
{
    if items.len() == 0 {
        acc
    } else {
        with_export_type(
            x,
            module,
            with_export_types(x, module, acc, items.drop_last()),
            items.last(),
        )
    }
}

/// Whether the numbers of fields of all constructors fit.
pub open spec fn fields_fit(x: ExportsModel) -> bool {
    &&& forall|i: int|
        0 <= i < x.bindings.len() ==> arrow_count((#[trigger] x.bindings[i]).1.ty) <= usize::MAX
    &&& forall|i: int, j: int|
        0 <= i < x.inlinable_constructors.len() && 0 <= j < x.inlinable_constructors[i].1.len()
            ==> arrow_count((#[trigger] x.inlinable_constructors[i].1[j]).1.ty) <= usize::MAX
}

fn add_export_ctors(
    x: &ModuleExports,
    module: &str,
    c: &mut Checker,
    items: &Vec<String>,
) -> (r: Vec<
    (String, usize),
>)
    requires
        fields_fit(x.deep_view()),
    ensures
        (final(c).deep_view(), r.deep_view()) == with_export_ctors(
            x.deep_view(),
            module@,
            (old(c).deep_view(), Seq::empty()),
            items.deep_view(),
        ),
{
    let ghost c0 = c.deep_view();
    let ghost all = items.deep_view();
    let mut variants: Vec<(String, usize)> = Vec::new();
    let mut i: usize = 0;
    assert(all.take(0) =~= Seq::empty());
    assert(variants.deep_view() =~= Seq::empty());
    while i < items.len()
        invariant
            i <= items.len(),
            all == items.deep_view(),
            fields_fit(x.deep_view()),
            (c.deep_view(), variants.deep_view()) == with_export_ctors(
                x.deep_view(),
                module@,
                (c0, Seq::empty()),
                all.take(i as int),
            ),
        decreases items.len() - i,
    {
        proof {
            assert(all.take(i + 1).drop_last() =~= all.take(i as int));
            assert(all.take(i + 1).last() == all[i as int]);
        }
        let canonical = origin_name(&x.binding_origins, module, items[i].as_str());
        if let Some(scheme) = find_last_binding(&x.bindings, items[i].as_str()) {
            c.constructors.insert(canonical.clone(), scheme.dup());
            if let Some(id) = x.def_ids.get(&items[i]) {
                c.lsp.constructor_def_ids.insert(canonical.clone(), *id);
            }
            push_value(&mut variants, (canonical, ctor_arity(&scheme.ty)));
        }
        i = i + 1;
    }
    assert(all.take(i as int) =~= all);
    variants
}

fn add_variants(c: &mut Checker, name: &String, variants: Vec<(String, usize)>)
    ensures
        final(c).deep_view() == with_variants(old(c).deep_view(), name@, variants.deep_view()),
{
    assert(variants.deep_view().len() == variants.len());
    if !c.adt_variants.contains_key(name) && variants.len() > 0 {
        c.adt_variants.insert(name.clone(), variants);
    }
}

fn add_export_types(
    x: &ModuleExports,
    module: &str,
    acc: &mut Checker,
    items: &Table<String, Vec<String>>,
)
    requires
        fields_fit(x.deep_view()),
    ensures
        final(acc).deep_view() == with_export_types(
            x.deep_view(),
            module@,
            old(acc).deep_view(),
            items.order(),
        ),
{
    let ghost a0 = acc.deep_view();
    let ghost all = items.order();
    let n = items.len();
    let mut i: usize = 0;
    assert(all.take(0) =~= Seq::empty());
    while i < n
        invariant
            i <= n,
            all == items.order(),
            n == all.len(),
            acc.deep_view() == with_export_types(x.deep_view(), module@, a0, all.take(i as int)),
            fields_fit(x.deep_view()),
        decreases n - i,
    {
        proof {
            assert(all.take(i + 1).drop_last() =~= all.take(i as int));
            assert(all.take(i + 1).last() == all[i as int]);
        }
        let variants = add_export_ctors(x, module, acc, items.value(i));
        add_variants(acc, items.key(i), variants);
        i = i + 1;
    }
    assert(all.take(i as int) =~= all);
}

/// The state and the variants of a private type, with a constructor.
pub open spec fn with_hidden_ctor(
    acc: (Seq<(Seq<char>, SchemeModel)>, Seq<(Seq<char>, usize)>),
    k: (Seq<char>, SchemeModel),
) -> (Seq<(Seq<char>, SchemeModel)>, Seq<(Seq<char>, usize)>) {
    (put_new(acc.0, k.0, k.1), acc.1.push((k.0, arrow_count(k.1.ty) as usize)))
}

pub open spec fn with_hidden_ctors(
    acc: (Seq<(Seq<char>, SchemeModel)>, Seq<(Seq<char>, usize)>),
    items: Seq<(Seq<char>, SchemeModel)>,
) -> (Seq<(Seq<char>, SchemeModel)>, Seq<(Seq<char>, usize)>)
    decreases items.len(),
{
    if items.len() == 0 {
        acc
    } else {
        with_hidden_ctor(with_hidden_ctors(acc, items.drop_last()), items.last())
    }
}

/// The state with the constructors of a private type.
pub open spec fn with_hidden_type(
    c: CheckerModel,
    t: (Seq<char>, Seq<(Seq<char>, SchemeModel)>),
) -> CheckerModel {
    let done = with_hidden_ctors((c.constructors, Seq::empty()), t.1);
    with_variants(CheckerModel { constructors: done.0, ..c }, t.0, done.1)
}

pub open spec fn with_hidden_types(
    acc: CheckerModel,
    items: Seq<(Seq<char>, Seq<(Seq<char>, SchemeModel)>)>,
) -> CheckerModel
    decreases items.len(),
{
    if items.len() == 0 {
        acc
    } else {
        with_hidden_type(with_hidden_types(acc, items.drop_last()), items.last())
    }
}

fn add_hidden_ctors(ctors: &mut Table<String, Scheme>, items: &Vec<(String, Scheme)>) -> (r: Vec<
    (String, usize),
>)
    requires
        forall|j: int|
            0 <= j < items.len() ==> arrow_count((#[trigger] items.deep_view()[j]).1.ty)
                <= usize::MAX,
    ensures
        (final(ctors).order(), r.deep_view()) == with_hidden_ctors(
            (old(ctors).order(), Seq::empty()),
            items.deep_view(),
        ),
{
    let ghost t0 = ctors.order();
    let ghost all = items.deep_view();
    let mut variants: Vec<(String, usize)> = Vec::new();
    let mut i: usize = 0;
    assert(all.take(0) =~= Seq::empty());
    assert(variants.deep_view() =~= Seq::empty());
    while i < items.len()
        invariant
            i <= items.len(),
            all == items.deep_view(),
            forall|j: int|
                0 <= j < items.len() ==> arrow_count((#[trigger] items.deep_view()[j]).1.ty)
                    <= usize::MAX,
            (ctors.order(), variants.deep_view()) == with_hidden_ctors(
                (t0, Seq::empty()),
                all.take(i as int),
            ),
        decreases items.len() - i,
    {
        proof {
            assert(all.take(i + 1).drop_last() =~= all.take(i as int));
            assert(all.take(i + 1).last() == all[i as int]);
            assert(all[i as int].1.ty == items@[i as int].1.ty@);
        }
        ctors.insert_if_absent(items[i].0.clone(), items[i].1.dup());
        push_value(&mut variants, (items[i].0.clone(), ctor_arity(&items[i].1.ty)));
        i = i + 1;
    }
    assert(all.take(i as int) =~= all);
    variants
}

fn add_hidden_types(acc: &mut Checker, items: &Table<String, Vec<(String, Scheme)>>)
    requires
        forall|i: int, j: int|
            0 <= i < items.order().len() && 0 <= j < items.order()[i].1.len() ==> arrow_count(
                (#[trigger] items.order()[i].1[j]).1.ty,
            ) <= usize::MAX,
    ensures
        final(acc).deep_view() == with_hidden_types(old(acc).deep_view(), items.order()),
{
    let ghost a0 = acc.deep_view();
    let ghost all = items.order();
    let n = items.len();
    let mut i: usize = 0;
    assert(all.take(0) =~= Seq::empty());
    while i < n
        invariant
            i <= n,
            all == items.order(),
            n == all.len(),
            acc.deep_view() == with_hidden_types(a0, all.take(i as int)),
            forall|i: int, j: int|
                0 <= i < all.len() && 0 <= j < all[i].1.len() ==> arrow_count(
                    (#[trigger] all[i].1[j]).1.ty,
                ) <= usize::MAX,
        decreases n - i,
    {
        proof {
            assert(all.take(i + 1).drop_last() =~= all.take(i as int));
            assert(all.take(i + 1).last() == all[i as int]);
        }
        let ctors = items.value(i);
        proof {
            assert(all[i as int].1 == ctors.deep_view());
            assert forall|j: int| 0 <= j < ctors.len() implies arrow_count(
                (#[trigger] ctors.deep_view()[j]).1.ty,
            ) <= usize::MAX by {
                assert(all[i as int].1[j] == ctors.deep_view()[j]);
            }
        }
        let variants = add_hidden_ctors(&mut acc.constructors, ctors);
        add_variants(acc, items.key(i), variants);
        i = i + 1;
    }
    assert(all.take(i as int) =~= all);
}

/// The state with the exports of a module under their canonical names. A module is
/// registered once.
pub open spec fn with_canonical_exports(
    c: CheckerModel,
    x: ExportsModel,
    module: Seq<char>,
    prefix: Option<Seq<char>>,
    exposing: Seq<ExposedItem>,
) -> CheckerModel {
    if c.registered_canonical.contains(module) {
        c
    } else {
        let c0 = CheckerModel {
            registered_canonical: c.registered_canonical.push(module),
            ..c
        };
        let c1 = with_export_traits(x, module, c0, x.traits);
        let c2 = CheckerModel {
            trait_state: TraitStateModel {
                impls: put_all_new(c1.trait_state.impls, x.trait_impls),
                ..c1.trait_state
            },
            ..c1
        };
        let c3 = with_export_effects(x, module, c2, x.effects);
        let c4 = with_export_handlers(x, module, exposing, c3, x.handlers);
        let c5 = CheckerModel {
            type_arity: with_export_arities(x, module, c4.type_arity, x.type_arity),
            type_param_kinds: with_export_all_kinds(
                x,
                module,
                c4.type_param_kinds,
                x.type_param_kinds,
            ),
            type_aliases: with_export_aliases(x, module, c4.type_aliases, x.type_aliases),
            known_funs: with_export_funs(x, module, c4.known_funs, x.effectful_funs),
            ..c4
        };
        let c6 = with_export_bindings(x, module, prefix, c5, x.bindings);
        let c7 = with_export_types(x, module, c6, x.type_constructors);
        let c8 = with_hidden_types(c7, x.inlinable_constructors);
        CheckerModel {
            records: with_export_records(x, module, c8.records, x.record_defs),
            ..c8
        }
    }
}

impl Checker {
    /// Makes the exports of a module known under their canonical names. This is
    /// what loading a module does; which other names an import brings into scope is
    /// a matter of its own. `prefix` and `exposing` are those of the import, if
    /// there is one.
    pub fn register_module_canonical_exports(
        &mut self,
        exports: &ModuleExports,
        module_name: &str,
        prefix: Option<&str>,
        exposing: &Vec<ExposedItem>,
    )
        requires
            fields_fit(exports.deep_view()),
        ensures
            final(self).deep_view() == with_canonical_exports(
                old(self).deep_view(),
                exports.deep_view(),
                module_name@,
                option_view(prefix),
                exposing@,
            ),
    {
        if contains_name(&self.registered_canonical, module_name) {
            return;
        }
        push_value(&mut self.registered_canonical, module_name.to_owned());
        add_export_traits(exports, module_name, self, &exports.traits);
        self.trait_state.impls.put_all_new(&exports.trait_impls);
        add_export_effects(exports, module_name, self, &exports.effects);
        add_export_handlers(exports, module_name, exposing, self, &exports.handlers);
        add_export_arities(exports, module_name, &mut self.type_arity, &exports.type_arity);
        add_export_all_kinds(
            exports,
            module_name,
            &mut self.type_param_kinds,
            &exports.type_param_kinds,
        );
        add_export_aliases(exports, module_name, &mut self.type_aliases, &exports.type_aliases);
        add_export_funs(exports, module_name, &mut self.known_funs, &exports.effectful_funs);
        add_export_bindings(exports, module_name, prefix, self, &exports.bindings);
        add_export_types(exports, module_name, self, &exports.type_constructors);
        add_hidden_types(self, &exports.inlinable_constructors);
        add_export_records(exports, module_name, &mut self.records, &exports.record_defs);
    }
}

/// A module that is registered already changes nothing.
pub proof fn registering_twice_is_registering_once(
    c: CheckerModel,
    x: ExportsModel,
    module: Seq<char>,
    prefix: Option<Seq<char>>,
    exposing: Seq<ExposedItem>,
    other: ExportsModel,
)
    ensures
        ({
            let once = with_canonical_exports(c, x, module, prefix, exposing);
            with_canonical_exports(once, other, module, prefix, exposing) == once
        }),
{
    let once = with_canonical_exports(c, x, module, prefix, exposing);
    assert(once.registered_canonical.contains(module)) by {
        if !c.registered_canonical.contains(module) {
            let c0 = CheckerModel {
                registered_canonical: c.registered_canonical.push(module),
                ..c
            };
            registering_keeps(c0, x, module, prefix, exposing);
            assert(c0.registered_canonical[c.registered_canonical.len() as int] == module);
        }
    }
}

/// Loading a module brings no names into scope: that is what imports do.
pub proof fn loading_brings_nothing_into_scope(
    c: CheckerModel,
    x: ExportsModel,
    module: Seq<char>,
    prefix: Option<Seq<char>>,
    exposing: Seq<ExposedItem>,
)
    ensures
        with_canonical_exports(c, x, module, prefix, exposing).scope_map == c.scope_map,
{
    if !c.registered_canonical.contains(module) {
        let c0 = CheckerModel {
            registered_canonical: c.registered_canonical.push(module),
            ..c
        };
        registering_keeps(c0, x, module, prefix, exposing);
    }
}

proof fn registering_keeps(
    c0: CheckerModel,
    x: ExportsModel,
    module: Seq<char>,
    prefix: Option<Seq<char>>,
    exposing: Seq<ExposedItem>,
)
    ensures
        ({
            let c1 = with_export_traits(x, module, c0, x.traits);
            let c2 = CheckerModel {
                trait_state: TraitStateModel {
                    impls: put_all_new(c1.trait_state.impls, x.trait_impls),
                    ..c1.trait_state
                },
                ..c1
            };
            let c3 = with_export_effects(x, module, c2, x.effects);
            let c4 = with_export_handlers(x, module, exposing, c3, x.handlers);
            let c5 = CheckerModel {
                type_arity: with_export_arities(x, module, c4.type_arity, x.type_arity),
                type_param_kinds: with_export_all_kinds(
                    x,
                    module,
                    c4.type_param_kinds,
                    x.type_param_kinds,
                ),
                type_aliases: with_export_aliases(x, module, c4.type_aliases, x.type_aliases),
                known_funs: with_export_funs(x, module, c4.known_funs, x.effectful_funs),
                ..c4
            };
            let c6 = with_export_bindings(x, module, prefix, c5, x.bindings);
            let c7 = with_export_types(x, module, c6, x.type_constructors);
            let c8 = with_hidden_types(c7, x.inlinable_constructors);
            c8.registered_canonical == c0.registered_canonical && c8.scope_map == c0.scope_map
        }),
{
    traits_keep_registered(x, module, c0, x.traits);
    let c1 = with_export_traits(x, module, c0, x.traits);
    let c2 = CheckerModel {
        trait_state: TraitStateModel {
            impls: put_all_new(c1.trait_state.impls, x.trait_impls),
            ..c1.trait_state
        },
        ..c1
    };
    effects_keep_registered(x, module, c2, x.effects);
    let c3 = with_export_effects(x, module, c2, x.effects);
    handlers_keep_registered(x, module, exposing, c3, x.handlers);
    let c4 = with_export_handlers(x, module, exposing, c3, x.handlers);
    let c5 = CheckerModel {
        type_arity: with_export_arities(x, module, c4.type_arity, x.type_arity),
        type_param_kinds: with_export_all_kinds(
            x,
            module,
            c4.type_param_kinds,
            x.type_param_kinds,
        ),
        type_aliases: with_export_aliases(x, module, c4.type_aliases, x.type_aliases),
        known_funs: with_export_funs(x, module, c4.known_funs, x.effectful_funs),
        ..c4
    };
    bindings_keep_registered(x, module, prefix, c5, x.bindings);
    let c6 = with_export_bindings(x, module, prefix, c5, x.bindings);
    types_keep_registered(x, module, c6, x.type_constructors);
    let c7 = with_export_types(x, module, c6, x.type_constructors);
    hidden_types_keep_registered(c7, x.inlinable_constructors);
}

proof fn methods_keep_registered(
    x: ExportsModel,
    canonical: Seq<char>,
    c: CheckerModel,
    items: Seq<MethodModel>,
)
    ensures
        with_export_methods(x, canonical, c, items).registered_canonical == c.registered_canonical,
        with_export_methods(x, canonical, c, items).scope_map == c.scope_map,
    decreases items.len(),
{
    if items.len() > 0 {
        methods_keep_registered(x, canonical, c, items.drop_last());
    }
}

proof fn ctors_keep_registered(
    x: ExportsModel,
    module: Seq<char>,
    acc: (CheckerModel, Seq<(Seq<char>, usize)>),
    items: Seq<Seq<char>>,
)
    ensures
        with_export_ctors(x, module, acc, items).0.registered_canonical
            == acc.0.registered_canonical,
        with_export_ctors(x, module, acc, items).0.scope_map
            == acc.0.scope_map,
    decreases items.len(),
{
    if items.len() > 0 {
        ctors_keep_registered(x, module, acc, items.drop_last());
    }
}

proof fn traits_keep_registered(
    x: ExportsModel,
    module: Seq<char>,
    c: CheckerModel,
    items: Seq<(Seq<char>, TraitModel)>,
)
    ensures
        with_export_traits(x, module, c, items).registered_canonical == c.registered_canonical,
        with_export_traits(x, module, c, items).scope_map == c.scope_map,
    decreases items.len(),
{
    if items.len() > 0 {
        traits_keep_registered(x, module, c, items.drop_last());
        let before = with_export_traits(x, module, c, items.drop_last());
        let t = items.last();
        let canonical = origin_of(x.trait_origins, module, t.0);
        let c1 = CheckerModel {
            trait_state: TraitStateModel {
                traits: put_new(before.trait_state.traits, canonical, t.1),
                ..before.trait_state
            },
            ..before
        };
        methods_keep_registered(x, canonical, with_export_doc(c1, x, t.0, t.0), t.1.methods);
    }
}

proof fn effects_keep_registered(
    x: ExportsModel,
    module: Seq<char>,
    c: CheckerModel,
    items: Seq<(Seq<char>, EffectModel)>,
)
    ensures
        with_export_effects(x, module, c, items).registered_canonical == c.registered_canonical,
        with_export_effects(x, module, c, items).scope_map == c.scope_map,
    decreases items.len(),
{
    if items.len() > 0 {
        effects_keep_registered(x, module, c, items.drop_last());
    }
}

proof fn handlers_keep_registered(
    x: ExportsModel,
    module: Seq<char>,
    exposing: Seq<ExposedItem>,
    c: CheckerModel,
    items: Seq<(Seq<char>, HandlerModel)>,
)
    ensures
        with_export_handlers(
            x,
            module,
            exposing,
            c,
            items,
        ).registered_canonical == c.registered_canonical,
        with_export_handlers(
            x,
            module,
            exposing,
            c,
            items,
        ).scope_map == c.scope_map,
    decreases items.len(),
{
    if items.len() > 0 {
        handlers_keep_registered(x, module, exposing, c, items.drop_last());
    }
}

proof fn bindings_keep_registered(
    x: ExportsModel,
    module: Seq<char>,
    prefix: Option<Seq<char>>,
    c: CheckerModel,
    items: Seq<(Seq<char>, SchemeModel)>,
)
    ensures
        with_export_bindings(
            x,
            module,
            prefix,
            c,
            items,
        ).registered_canonical == c.registered_canonical,
        with_export_bindings(
            x,
            module,
            prefix,
            c,
            items,
        ).scope_map == c.scope_map,
    decreases items.len(),
{
    if items.len() > 0 {
        bindings_keep_registered(x, module, prefix, c, items.drop_last());
    }
}

proof fn types_keep_registered(
    x: ExportsModel,
    module: Seq<char>,
    c: CheckerModel,
    items: Seq<(Seq<char>, Seq<Seq<char>>)>,
)
    ensures
        with_export_types(x, module, c, items).registered_canonical == c.registered_canonical,
        with_export_types(x, module, c, items).scope_map == c.scope_map,
    decreases items.len(),
{
    if items.len() > 0 {
        types_keep_registered(x, module, c, items.drop_last());
        let before = with_export_types(x, module, c, items.drop_last());
        ctors_keep_registered(x, module, (before, Seq::empty()), items.last().1);
    }
}

proof fn hidden_types_keep_registered(
    c: CheckerModel,
    items: Seq<(Seq<char>, Seq<(Seq<char>, SchemeModel)>)>,
)
    ensures
        with_hidden_types(c, items).registered_canonical == c.registered_canonical,
        with_hidden_types(c, items).scope_map == c.scope_map,
    decreases items.len(),
{
    if items.len() > 0 {
        hidden_types_keep_registered(c, items.drop_last());
    }
}

/// The variants of an exposed type, and the places of its constructors.
pub open spec fn with_exposed_ctor(
    x: ExportsModel,
    module: Seq<char>,
    acc: (Seq<(Seq<char>, NodeId)>, Seq<(Seq<char>, usize)>),
    name: Seq<char>,
) -> (Seq<(Seq<char>, NodeId)>, Seq<(Seq<char>, usize)>) {
    let canonical = origin_of(x.binding_origins, module, name);
    match binding_of(x.bindings, name) {
        Some(scheme) => (
            match at_key(x.def_ids, name) {
                Some(id) => put_new(acc.0, canonical, id),
                None => acc.0,
            },
            acc.1.push((canonical, arrow_count(scheme.ty) as usize)),
        ),
        None => acc,
    }
}

pub open spec fn with_exposed_ctors(
    x: ExportsModel,
    module: Seq<char>,
    acc: (Seq<(Seq<char>, NodeId)>, Seq<(Seq<char>, usize)>),
    items: Seq<Seq<char>>,
) -> (Seq<(Seq<char>, NodeId)>, Seq<(Seq<char>, usize)>)
    decreases items.len(),
{
    if items.len() == 0 {
        acc
    } else {
        with_exposed_ctor(
            x,
            module,
            with_exposed_ctors(x, module, acc, items.drop_last()),
            items.last(),
        )
    }
}

/// Whether a name is that of a constructor of an exported type.
pub open spec fn is_exported_ctor(x: ExportsModel, name: Seq<char>) -> bool {
    exists|i: int|
        0 <= i < x.type_constructors.len() && (#[trigger] x.type_constructors[i]).1.contains(name)
}

fn exports_ctor(x: &ModuleExports, name: &str) -> (r: bool)
    ensures
        r == is_exported_ctor(x.deep_view(), name@),
{
    let ghost all = x.deep_view().type_constructors;
    let types = &x.type_constructors;
    let n = types.len();
    let mut i: usize = 0;
    while i < n
        invariant
            i <= n,
            n == all.len(),
            all == types.order(),
            all == x.deep_view().type_constructors,
            forall|j: int| 0 <= j < i ==> !(#[trigger] all[j]).1.contains(name@),
        decreases n - i,
    {
        if contains_name(types.value(i), name) {
            assert(all[i as int].1.contains(name@));
            return true;
        }
        i = i + 1;
    }
    false
}

/// The state with what an exposed type brings along: its fields if it is a record,
/// its constructors, and its place if it is a constructor.
pub open spec fn with_exposed_type(
    x: ExportsModel,
    module: Seq<char>,
    c: CheckerModel,
    item: ExposedItem,
) -> CheckerModel {
    let name = item.name@;
    let surface = surface_of(item);
    let c1 = match at_key(x.record_defs, name) {
        Some(record) => CheckerModel {
            records: put(c.records, origin_of(x.type_origins, module, name), record),
            ..c
        },
        None => c,
    };
    let c2 = match at_key(x.type_constructors, name) {
        Some(ctors) => {
            let done = with_exposed_ctors(
                x,
                module,
                (c1.lsp.constructor_def_ids, Seq::empty()),
                ctors,
            );
            CheckerModel {
                lsp: LspModel { constructor_def_ids: done.0, ..c1.lsp },
                adt_variants: if done.1.len() > 0 {
                    put_new(c1.adt_variants, surface, done.1)
                } else {
                    c1.adt_variants
                },
                ..c1
            }
        },
        None => c1,
    };
    if is_exported_ctor(x, name) {
        match at_key(x.def_ids, name) {
            Some(id) => CheckerModel {
                lsp: LspModel {
                    constructor_def_ids: put_new(c2.lsp.constructor_def_ids, surface, id),
                    ..c2.lsp
                },
                ..c2
            },
            None => c2,
        }
    } else {
        c2
    }
}

/// The state with what an exposed name brings along.
pub open spec fn with_exposed_item(
    x: ExportsModel,
    module: Seq<char>,
    c: CheckerModel,
    item: ExposedItem,
) -> CheckerModel {
    with_export_doc(
        if names_type(item.name@) {
            with_exposed_type(x, module, c, item)
        } else {
            c
        },
        x,
        item.name@,
        surface_of(item),
    )
}

pub open spec fn with_exposed_items(
    x: ExportsModel,
    module: Seq<char>,
    acc: CheckerModel,
    items: Seq<ExposedItem>,
) -> CheckerModel
    decreases items.len(),
{
    if items.len() == 0 {
        acc
    } else {
        with_exposed_item(
            x,
            module,
            with_exposed_items(x, module, acc, items.drop_last()),
            items.last(),
        )
    }
}

fn add_exposed_ctors(
    x: &ModuleExports,
    module: &str,
    def_ids: &mut Table<String, NodeId>,
    items: &Vec<String>,
) -> (r: Vec<(String, usize)>)
    requires
        fields_fit(x.deep_view()),
    ensures
        (final(def_ids).order(), r.deep_view()) == with_exposed_ctors(
            x.deep_view(),
            module@,
            (old(def_ids).order(), Seq::empty()),
            items.deep_view(),
        ),
{
    let ghost t0 = def_ids.order();
    let ghost all = items.deep_view();
    let mut variants: Vec<(String, usize)> = Vec::new();
    let mut i: usize = 0;
    assert(all.take(0) =~= Seq::empty());
    assert(variants.deep_view() =~= Seq::empty());
    while i < items.len()
        invariant
            i <= items.len(),
            all == items.deep_view(),
            fields_fit(x.deep_view()),
            (def_ids.order(), variants.deep_view()) == with_exposed_ctors(
                x.deep_view(),
                module@,
                (t0, Seq::empty()),
                all.take(i as int),
            ),
        decreases items.len() - i,
    {
        proof {
            assert(all.take(i + 1).drop_last() =~= all.take(i as int));
            assert(all.take(i + 1).last() == all[i as int]);
        }
        let canonical = origin_name(&x.binding_origins, module, items[i].as_str());
        if let Some(scheme) = find_last_binding(&x.bindings, items[i].as_str()) {
            if let Some(id) = x.def_ids.get(&items[i]) {
                def_ids.insert_if_absent(canonical.clone(), *id);
            }
            push_value(&mut variants, (canonical, ctor_arity(&scheme.ty)));
        }
        i = i + 1;
    }
    assert(all.take(i as int) =~= all);
    variants
}

fn add_exposed_type(x: &ModuleExports, module: &str, c: &mut Checker, item: &ExposedItem)
    requires
        fields_fit(x.deep_view()),
    ensures
        final(c).deep_view() == with_exposed_type(
            x.deep_view(),
            module@,
            old(c).deep_view(),
            *item,
        ),
{
    let name = &item.name;
    let surface = item.surface_name();
    if let Some(record) = x.record_defs.get(name) {
        let canonical = origin_name(&x.type_origins, module, name.as_str());
        c.records.insert(canonical, record.dup());
    }
    if let Some(ctors) = x.type_constructors.get(name) {
        let variants = add_exposed_ctors(x, module, &mut c.lsp.constructor_def_ids, ctors);
        assert(variants.deep_view().len() == variants.len());
        if variants.len() > 0 {
            c.adt_variants.insert_if_absent(surface.clone(), variants);
        }
    }
    if exports_ctor(x, name.as_str()) {
        if let Some(id) = x.def_ids.get(name) {
            c.lsp.constructor_def_ids.insert_if_absent(surface.clone(), *id);
        }
    }
}

fn add_exposed_items(x: &ModuleExports, module: &str, acc: &mut Checker, items: &Vec<ExposedItem>)
    requires
        fields_fit(x.deep_view()),
    ensures
        final(acc).deep_view() == with_exposed_items(
            x.deep_view(),
            module@,
            old(acc).deep_view(),
            items@,
        ),
{
    let ghost a0 = acc.deep_view();
    let ghost all = items@;
    let mut i: usize = 0;
    assert(all.take(0) =~= Seq::empty());
    while i < items.len()
        invariant
            i <= items.len(),
            all == items@,
            acc.deep_view() == with_exposed_items(x.deep_view(), module@, a0, all.take(i as int)),
            fields_fit(x.deep_view()),
        decreases items.len() - i,
    {
        proof {
            assert(all.take(i + 1).drop_last() =~= all.take(i as int));
            assert(all.take(i + 1).last() == all[i as int]);
        }
        let item = &items[i];
        if is_type_name(item.name.as_str()) {
            add_exposed_type(x, module, acc, item);
        }
        add_export_doc(acc, x, item.name.as_str(), item.surface_name().clone());
        i = i + 1;
    }
    assert(all.take(i as int) =~= all);
}

pub open spec fn items_of(exposing: Option<&Vec<ExposedItem>>) -> Option<Seq<ExposedItem>> {
    match exposing {
        Some(items) => Some(items@),
        None => None,
    }
}

/// The state with the names that an import brings into scope, or why it cannot.
pub open spec fn import_merged(
    c: CheckerModel,
    x: ExportsModel,
    module: Seq<char>,
    prefix: Seq<char>,
    exposing: Option<Seq<ExposedItem>>,
    span: Span,
) -> Result<CheckerModel, Diag> {
    match import_scope(x, module, prefix, exposing) {
        Err(message) => Err(an_error_at(span, message)),
        Ok(scope) => {
            let c1 = CheckerModel { scope_map: merged_scopes(c.scope_map, scope), ..c };
            Ok(
                match exposing {
                    Some(items) => with_exposed_items(x, module, c1, items),
                    None => c1,
                },
            )
        },
    }
}

impl Checker {
    /// Brings the names of an import into scope.
    pub fn merge_import_scope(
        &mut self,
        exports: &ModuleExports,
        module_name: &str,
        prefix: &str,
        exposing: Option<&Vec<ExposedItem>>,
        span: Span,
    ) -> (r: Result<(), Diagnostic>)
        requires
            fields_fit(exports.deep_view()),
        ensures
            match import_merged(
                old(self).deep_view(),
                exports.deep_view(),
                module_name@,
                prefix@,
                items_of(exposing),
                span,
            ) {
                Ok(after) => r is Ok && final(self).deep_view() == after,
                Err(d) => r matches Err(e) && e@ == d && final(self).deep_view() == old(
                    self,
                ).deep_view(),
            },
    {
        let scope = match resolve_import(exports, module_name, prefix, exposing) {
            Ok(scope) => scope,
            Err(message) => {
                return Err(Diagnostic::error_at(span, message));
            },
        };
        self.scope_map.merge(&scope);
        if let Some(items) = exposing {
            add_exposed_items(exports, module_name, self, items);
        }
        Ok(())
    }

    /// Makes the exports of a module known and brings the names of an import into
    /// scope.
    pub fn inject_exports(
        &mut self,
        exports: &ModuleExports,
        module_name: &str,
        prefix: &str,
        exposing: Option<&Vec<ExposedItem>>,
        span: Span,
    ) -> (r: Result<(), Diagnostic>)
        requires
            fields_fit(exports.deep_view()),
        ensures
            ({
                let c1 = with_canonical_exports(
                    old(self).deep_view(),
                    exports.deep_view(),
                    module_name@,
                    Some(prefix@),
                    match items_of(exposing) {
                        Some(items) => items,
                        None => Seq::empty(),
                    },
                );
                match import_merged(
                    c1,
                    exports.deep_view(),
                    module_name@,
                    prefix@,
                    items_of(exposing),
                    span,
                ) {
                    Ok(after) => r is Ok && final(self).deep_view() == after,
                    Err(d) => r matches Err(e) && e@ == d && final(self).deep_view() == c1,
                }
            }),
    {
        match exposing {
            Some(items) => {
                self.register_module_canonical_exports(exports, module_name, Some(prefix), items);
            },
            None => {
                let none: Vec<ExposedItem> = Vec::new();
                assert(none@ =~= Seq::empty());
                self.register_module_canonical_exports(exports, module_name, Some(prefix), &none);
            },
        }
        self.merge_import_scope(exports, module_name, prefix, exposing, span)
    }
}

proof fn methods_touch_bindings(
    x: ExportsModel,
    canonical: Seq<char>,
    c: CheckerModel,
    items: Seq<MethodModel>,
)
    requires
        distinct_keys(c.env.bindings),
    ensures
        ({
            let after = with_export_methods(x, canonical, c, items);
            &&& after == CheckerModel { env: after.env, ..c }
            &&& keeps_entries(c.env.bindings, after.env.bindings)
            &&& forall|i: int|
                0 <= i < items.len() ==> has_key(
                    after.env.bindings,
                    dotted(canonical, (#[trigger] items[i]).name),
                )
        }),
    decreases items.len(),
{
    if items.len() > 0 {
        let init = items.drop_last();
        methods_touch_bindings(x, canonical, c, init);
        let before = with_export_methods(x, canonical, c, init);
        let after = with_export_methods(x, canonical, c, items);
        let m = items.last();
        let name = dotted(canonical, m.name);
        if !has_key(before.env.bindings, name) {
            put_keeps_entries(before.env.bindings, name, m.scheme);
            key_is_put(before.env.bindings, name, m.scheme, name);
        }
        assert forall|i: int| 0 <= i < items.len() implies has_key(
            after.env.bindings,
            dotted(canonical, (#[trigger] items[i]).name),
        ) by {
            if i < init.len() {
                assert(init[i] == items[i]);
            }
        }
    }
}

proof fn new_entries_are_found<K, V>(entries: Seq<(K, V)>, k: K, v: V)
    requires
        distinct_keys(entries),
    ensures
        keeps_entries(entries, put_new(entries, k, v)),
        has_key(put_new(entries, k, v), k),
{
    if !has_key(entries, k) {
        put_keeps_entries(entries, k, v);
        key_is_put(entries, k, v, k);
    }
}

proof fn traits_are_registered(
    x: ExportsModel,
    module: Seq<char>,
    c: CheckerModel,
    items: Seq<(Seq<char>, TraitModel)>,
)
    requires
        distinct_keys(c.env.bindings),
        distinct_keys(c.trait_state.traits),
    ensures
        ({
            let after = with_export_traits(x, module, c, items);
            &&& after == CheckerModel {
                trait_state: TraitStateModel {
                    traits: after.trait_state.traits,
                    ..c.trait_state
                },
                env: after.env,
                lsp: after.lsp,
                ..c
            }
            &&& keeps_entries(c.trait_state.traits, after.trait_state.traits)
            &&& keeps_entries(c.env.bindings, after.env.bindings)
            &&& forall|i: int|
                0 <= i < items.len() ==> has_key(
                    after.trait_state.traits,
                    origin_of(x.trait_origins, module, (#[trigger] items[i]).0),
                )
        }),
    decreases items.len(),
{
    if items.len() > 0 {
        let init = items.drop_last();
        traits_are_registered(x, module, c, init);
        let before = with_export_traits(x, module, c, init);
        let after = with_export_traits(x, module, c, items);
        let t = items.last();
        let canonical = origin_of(x.trait_origins, module, t.0);
        new_entries_are_found(before.trait_state.traits, canonical, t.1);
        let c1 = CheckerModel {
            trait_state: TraitStateModel {
                traits: put_new(before.trait_state.traits, canonical, t.1),
                ..before.trait_state
            },
            ..before
        };
        methods_touch_bindings(x, canonical, with_export_doc(c1, x, t.0, t.0), t.1.methods);
        assert forall|i: int| 0 <= i < items.len() implies has_key(
            after.trait_state.traits,
            origin_of(x.trait_origins, module, (#[trigger] items[i]).0),
        ) by {
            if i < init.len() {
                assert(init[i] == items[i]);
            }
        }
    }
}

proof fn effects_are_registered(
    x: ExportsModel,
    module: Seq<char>,
    c: CheckerModel,
    items: Seq<(Seq<char>, EffectModel)>,
)
    requires
        distinct_keys(c.effects),
    ensures
        ({
            let after = with_export_effects(x, module, c, items);
            &&& after == CheckerModel { effects: after.effects, lsp: after.lsp, ..c }
            &&& keeps_entries(c.effects, after.effects)
            &&& forall|i: int|
                0 <= i < items.len() ==> has_key(
                    after.effects,
                    origin_of(x.effect_origins, module, (#[trigger] items[i]).0),
                )
        }),
    decreases items.len(),
{
    if items.len() > 0 {
        let init = items.drop_last();
        effects_are_registered(x, module, c, init);
        let before = with_export_effects(x, module, c, init);
        let after = with_export_effects(x, module, c, items);
        let e = items.last();
        new_entries_are_found(before.effects, origin_of(x.effect_origins, module, e.0), e.1);
        assert forall|i: int| 0 <= i < items.len() implies has_key(
            after.effects,
            origin_of(x.effect_origins, module, (#[trigger] items[i]).0),
        ) by {
            if i < init.len() {
                assert(init[i] == items[i]);
            }
        }
    }
}

proof fn handlers_are_registered(
    x: ExportsModel,
    module: Seq<char>,
    exposing: Seq<ExposedItem>,
    c: CheckerModel,
    items: Seq<(Seq<char>, HandlerModel)>,
)
    requires
        distinct_keys(c.handlers),
    ensures
        ({
            let after = with_export_handlers(x, module, exposing, c, items);
            &&& after == CheckerModel { handlers: after.handlers, lsp: after.lsp, ..c }
            &&& keeps_entries(c.handlers, after.handlers)
            &&& forall|i: int|
                0 <= i < items.len() ==> has_key(
                    after.handlers,
                    origin_of(x.handler_origins, module, (#[trigger] items[i]).0),
                )
        }),
    decreases items.len(),
{
    if items.len() > 0 {
        let init = items.drop_last();
        handlers_are_registered(x, module, exposing, c, init);
        let before = with_export_handlers(x, module, exposing, c, init);
        let after = with_export_handlers(x, module, exposing, c, items);
        let h = items.last();
        let own = origin_of(x.handler_origins, module, h.0);
        new_entries_are_found(before.handlers, own, h.1);
        if let Some(surface) = exposed_as(exposing, h.0) {
            new_entries_are_found(put_new(before.handlers, own, h.1), surface, h.1);
        }
        assert forall|i: int| 0 <= i < items.len() implies has_key(
            after.handlers,
            origin_of(x.handler_origins, module, (#[trigger] items[i]).0),
        ) by {
            if i < init.len() {
                assert(init[i] == items[i]);
            }
        }
    }
}

proof fn bindings_are_registered(
    x: ExportsModel,
    module: Seq<char>,
    prefix: Option<Seq<char>>,
    c: CheckerModel,
    items: Seq<(Seq<char>, SchemeModel)>,
)
    requires
        distinct_keys(c.env.bindings),
    ensures
        ({
            let after = with_export_bindings(x, module, prefix, c, items);
            &&& after == CheckerModel { env: after.env, lsp: after.lsp, ..c }
            &&& distinct_keys(after.env.bindings)
            &&& forall|i: int|
                0 <= i < items.len() && (forall|j: int|
                    i < j < items.len() ==> origin_of(
                        x.binding_origins,
                        module,
                        (#[trigger] items[j]).0,
                    ) != origin_of(x.binding_origins, module, items[i].0)) ==> at_key(
                    after.env.bindings,
                    origin_of(x.binding_origins, module, (#[trigger] items[i]).0),
                ) == Some(items[i].1)
        }),
    decreases items.len(),
{
    if items.len() > 0 {
        let init = items.drop_last();
        bindings_are_registered(x, module, prefix, c, init);
        let before = with_export_bindings(x, module, prefix, c, init);
        let after = with_export_bindings(x, module, prefix, c, items);
        let b = items.last();
        let canonical = origin_of(x.binding_origins, module, b.0);
        put_then_get(before.env.bindings, canonical, b.1, canonical);
        assert(after.env.bindings == put(before.env.bindings, canonical, b.1));
        let last = items.len() - 1;
        assert(items[last] == b);
        assert forall|i: int|
            0 <= i < items.len() && (forall|j: int|
                i < j < items.len() ==> origin_of(
                    x.binding_origins,
                    module,
                    (#[trigger] items[j]).0,
                ) != origin_of(x.binding_origins, module, items[i].0)) implies at_key(
            after.env.bindings,
            origin_of(x.binding_origins, module, (#[trigger] items[i]).0),
        ) == Some(items[i].1) by {
            if i < last {
                let own = origin_of(x.binding_origins, module, items[i].0);
                assert(origin_of(x.binding_origins, module, items[last].0) != own);
                put_then_get(before.env.bindings, canonical, b.1, own);
                assert(init[i] == items[i]);
                assert forall|j: int| i < j < init.len() implies origin_of(
                    x.binding_origins,
                    module,
                    (#[trigger] init[j]).0,
                ) != origin_of(x.binding_origins, module, init[i].0) by {
                    assert(init[j] == items[j]);
                }
            }
        }
    }
}

proof fn ctors_touch_constructors(
    x: ExportsModel,
    module: Seq<char>,
    acc: (CheckerModel, Seq<(Seq<char>, usize)>),
    items: Seq<Seq<char>>,
)
    ensures
        ({
            let after = with_export_ctors(x, module, acc, items).0;
            after == CheckerModel { constructors: after.constructors, lsp: after.lsp, ..acc.0 }
        }),
    decreases items.len(),
{
    if items.len() > 0 {
        ctors_touch_constructors(x, module, acc, items.drop_last());
    }
}

proof fn types_touch_constructors(
    x: ExportsModel,
    module: Seq<char>,
    c: CheckerModel,
    items: Seq<(Seq<char>, Seq<Seq<char>>)>,
)
    ensures
        ({
            let after = with_export_types(x, module, c, items);
            after == CheckerModel {
                constructors: after.constructors,
                adt_variants: after.adt_variants,
                lsp: after.lsp,
                ..c
            }
        }),
    decreases items.len(),
{
    if items.len() > 0 {
        types_touch_constructors(x, module, c, items.drop_last());
        let before = with_export_types(x, module, c, items.drop_last());
        ctors_touch_constructors(x, module, (before, Seq::empty()), items.last().1);
    }
}

proof fn hidden_types_touch_constructors(
    c: CheckerModel,
    items: Seq<(Seq<char>, Seq<(Seq<char>, SchemeModel)>)>,
)
    ensures
        ({
            let after = with_hidden_types(c, items);
            after == CheckerModel {
                constructors: after.constructors,
                adt_variants: after.adt_variants,
                ..c
            }
        }),
    decreases items.len(),
{
    if items.len() > 0 {
        hidden_types_touch_constructors(c, items.drop_last());
    }
}

proof fn all_new_entries_are_found<K, V>(entries: Seq<(K, V)>, more: Seq<(K, V)>)
    requires
        distinct_keys(entries),
    ensures
        keeps_entries(entries, put_all_new(entries, more)),
        forall|i: int|
            0 <= i < more.len() ==> has_key(put_all_new(entries, more), (#[trigger] more[i]).0),
        distinct_keys(more) ==> forall|i: int|
            0 <= i < more.len() && !has_key(entries, (#[trigger] more[i]).0) ==> at_key(
                put_all_new(entries, more),
                more[i].0,
            ) == Some(more[i].1),
        forall|k: K| #[trigger]
            has_key(put_all_new(entries, more), k) <==> has_key(entries, k) || has_key(more, k),
    decreases more.len(),
{
    if more.len() > 0 {
        let init = more.drop_last();
        all_new_entries_are_found(entries, init);
        let before = put_all_new(entries, init);
        let after = put_all_new(entries, more);
        let e = more.last();
        let last = more.len() - 1;
        assert(more[last] == e);
        assert(forall|i: int| 0 <= i < init.len() ==> #[trigger] more[i] == init[i]);
        assert(forall|i: int| 0 <= i < init.len() ==> more[i] == #[trigger] init[i]);
        new_entries_are_found(before, e.0, e.1);
        assert forall|k: K| #[trigger] has_key(after, k) <==> has_key(entries, k) || has_key(
            more,
            k,
        ) by {
            key_is_put(before, e.0, e.1, k);
            assert(has_key(before, k) <==> has_key(entries, k) || has_key(init, k));
            if has_key(more, k) && k != e.0 {
                let i = choose|i: int| 0 <= i < more.len() && (#[trigger] more[i]).0 == k;
                assert(init[i].0 == k);
            }
            if has_key(init, k) {
                let i = choose|i: int| 0 <= i < init.len() && (#[trigger] init[i]).0 == k;
                assert(more[i].0 == k);
            }
        }
        if distinct_keys(more) {
            assert(distinct_keys(init));
            assert forall|i: int|
                0 <= i < more.len() && !has_key(entries, (#[trigger] more[i]).0) implies at_key(
                after,
                more[i].0,
            ) == Some(more[i].1) by {
                if i < last {
                    assert(init[i] == more[i]);
                    assert(has_key(before, init[i].0));
                } else {
                    if has_key(init, e.0) {
                        let j = choose|j: int|
                            0 <= j < init.len() && (#[trigger] init[j]).0 == e.0;
                        assert(more[j].0 != more[last].0);
                    }
                    assert(!has_key(before, e.0));
                    put_then_get(before, e.0, e.1, e.0);
                }
            }
        }
    }
}

/// Whether no key of what loading adds to occurs twice.
pub open spec fn is_listed_once(c: CheckerModel) -> bool {
    &&& distinct_keys(c.env.bindings)
    &&& distinct_keys(c.trait_state.traits)
    &&& distinct_keys(c.trait_state.impls)
    &&& distinct_keys(c.effects)
    &&& distinct_keys(c.handlers)
}

/// Loading a module makes its exports known: every impl is found under its key, as
/// exported where there was none, and every trait, effect and handler under the name of
/// where it comes from. Bindings are found with their schemes. Nothing that was known
/// of impls, traits, effects and handlers changes.
pub proof fn loaded_exports_are_known(
    c: CheckerModel,
    x: ExportsModel,
    module: Seq<char>,
    prefix: Option<Seq<char>>,
    exposing: Seq<ExposedItem>,
)
    requires
        !c.registered_canonical.contains(module),
        is_listed_once(c),
        distinct_keys(x.trait_impls),
    ensures
        ({
            let after = with_canonical_exports(c, x, module, prefix, exposing);
            &&& keeps_entries(c.trait_state.impls, after.trait_state.impls)
            &&& keeps_entries(c.trait_state.traits, after.trait_state.traits)
            &&& keeps_entries(c.effects, after.effects)
            &&& keeps_entries(c.handlers, after.handlers)
            &&& forall|i: int|
                0 <= i < x.trait_impls.len() ==> has_key(
                    after.trait_state.impls,
                    (#[trigger] x.trait_impls[i]).0,
                )
            &&& forall|i: int|
                0 <= i < x.trait_impls.len() && !has_key(
                    c.trait_state.impls,
                    (#[trigger] x.trait_impls[i]).0,
                ) ==> at_key(after.trait_state.impls, x.trait_impls[i].0) == Some(
                    x.trait_impls[i].1,
                )
            &&& forall|i: int|
                0 <= i < x.traits.len() ==> has_key(
                    after.trait_state.traits,
                    origin_of(x.trait_origins, module, (#[trigger] x.traits[i]).0),
                )
            &&& forall|i: int|
                0 <= i < x.effects.len() ==> has_key(
                    after.effects,
                    origin_of(x.effect_origins, module, (#[trigger] x.effects[i]).0),
                )
            &&& forall|i: int|
                0 <= i < x.handlers.len() ==> has_key(
                    after.handlers,
                    origin_of(x.handler_origins, module, (#[trigger] x.handlers[i]).0),
                )
            &&& forall|i: int|
                0 <= i < x.bindings.len() && (forall|j: int|
                    i < j < x.bindings.len() ==> origin_of(
                        x.binding_origins,
                        module,
                        (#[trigger] x.bindings[j]).0,
                    ) != origin_of(x.binding_origins, module, x.bindings[i].0)) ==> at_key(
                    after.env.bindings,
                    origin_of(x.binding_origins, module, (#[trigger] x.bindings[i]).0),
                ) == Some(x.bindings[i].1)
        }),
{
    let c0 = CheckerModel { registered_canonical: c.registered_canonical.push(module), ..c };
    traits_are_registered(x, module, c0, x.traits);
    let c1 = with_export_traits(x, module, c0, x.traits);
    all_new_entries_are_found(c1.trait_state.impls, x.trait_impls);
    let c2 = CheckerModel {
        trait_state: TraitStateModel {
            impls: put_all_new(c1.trait_state.impls, x.trait_impls),
            ..c1.trait_state
        },
        ..c1
    };
    effects_are_registered(x, module, c2, x.effects);
    let c3 = with_export_effects(x, module, c2, x.effects);
    handlers_are_registered(x, module, exposing, c3, x.handlers);
    let c4 = with_export_handlers(x, module, exposing, c3, x.handlers);
    let c5 = CheckerModel {
        type_arity: with_export_arities(x, module, c4.type_arity, x.type_arity),
        type_param_kinds: with_export_all_kinds(
            x,
            module,
            c4.type_param_kinds,
            x.type_param_kinds,
        ),
        type_aliases: with_export_aliases(x, module, c4.type_aliases, x.type_aliases),
        known_funs: with_export_funs(x, module, c4.known_funs, x.effectful_funs),
        ..c4
    };
    bindings_are_registered(x, module, prefix, c5, x.bindings);
    let c6 = with_export_bindings(x, module, prefix, c5, x.bindings);
    types_touch_constructors(x, module, c6, x.type_constructors);
    let c7 = with_export_types(x, module, c6, x.type_constructors);
    hidden_types_touch_constructors(c7, x.inlinable_constructors);
}

/// Whether entries are there under the names of where they come from, besides those that
/// were there: the first one of a name as it is, where there was none.
pub open spec fn has_all_new<V>(
    x: ExportsModel,
    module: Seq<char>,
    entries: Seq<(Seq<char>, V)>,
    after: Seq<(Seq<char>, V)>,
    items: Seq<(Seq<char>, V)>,
) -> bool {
    &&& keeps_entries(entries, after)
    &&& forall|k: Seq<char>| #[trigger]
        has_key(after, k) ==> has_key(entries, k) || exists|i: int|
            0 <= i < items.len() && origin_of(x.type_origins, module, (#[trigger] items[i]).0) == k
    &&& forall|i: int|
        0 <= i < items.len() ==> has_key(
            after,
            origin_of(x.type_origins, module, (#[trigger] items[i]).0),
        )
    &&& forall|i: int|
        0 <= i < items.len() && !has_key(
            entries,
            origin_of(x.type_origins, module, (#[trigger] items[i]).0),
        ) && (forall|j: int|
            0 <= j < i ==> origin_of(x.type_origins, module, (#[trigger] items[j]).0) != origin_of(
                x.type_origins,
                module,
                items[i].0,
            )) ==> at_key(after, origin_of(x.type_origins, module, items[i].0)) == Some(
            items[i].1,
        )
}

proof fn new_one_is_there<V>(
    x: ExportsModel,
    module: Seq<char>,
    entries: Seq<(Seq<char>, V)>,
    before: Seq<(Seq<char>, V)>,
    items: Seq<(Seq<char>, V)>,
)
    requires
        items.len() > 0,
        has_all_new(x, module, entries, before, items.drop_last()),
    ensures
        has_all_new(
            x,
            module,
            entries,
            put_new(
                before,
                origin_of(x.type_origins, module, items.last().0),
                items.last().1,
            ),
            items,
        ),
{
    let init = items.drop_last();
    let last = items.last();
    let name = origin_of(x.type_origins, module, last.0);
    let after = put_new(before, name, last.1);
    assert(items[items.len() - 1] == last);
    assert(forall|i: int| 0 <= i < init.len() ==> #[trigger] init[i] == items[i]);
    assert(forall|i: int| 0 <= i < init.len() ==> #[trigger] items[i] == init[i]);
    new_entries_are_found(before, name, last.1);
    assert forall|k: Seq<char>| #[trigger] has_key(entries, k) implies has_key(after, k)
        && at_key(after, k) == at_key(entries, k) by {
        assert(has_key(before, k));
    }
    assert forall|k: Seq<char>| #[trigger] has_key(after, k) implies has_key(entries, k) || exists|
        i: int,
    |
        0 <= i < items.len() && origin_of(x.type_origins, module, (#[trigger] items[i]).0) == k by {
        key_is_put(before, name, last.1, k);
        if has_key(before, k) && !has_key(entries, k) {
            let i = choose|i: int|
                0 <= i < init.len() && origin_of(x.type_origins, module, (#[trigger] init[i]).0)
                    == k;
            assert(items[i] == init[i]);
        } else if !has_key(entries, k) {
            assert(origin_of(x.type_origins, module, items[items.len() - 1].0) == k);
        }
    }
    assert forall|i: int| 0 <= i < items.len() implies has_key(
        after,
        origin_of(x.type_origins, module, (#[trigger] items[i]).0),
    ) by {
        if i < init.len() {
            assert(has_key(before, origin_of(x.type_origins, module, init[i].0)));
        }
    }
    assert forall|i: int|
        0 <= i < items.len() && !has_key(
            entries,
            origin_of(x.type_origins, module, (#[trigger] items[i]).0),
        ) && (forall|j: int|
            0 <= j < i ==> origin_of(x.type_origins, module, (#[trigger] items[j]).0) != origin_of(
                x.type_origins,
                module,
                items[i].0,
            )) implies at_key(after, origin_of(x.type_origins, module, items[i].0)) == Some(
        items[i].1,
    ) by {
        if i < init.len() {
            assert(init[i] == items[i]);
            assert(has_key(before, origin_of(x.type_origins, module, init[i].0)));
        } else {
            if has_key(before, name) {
                let j = choose|j: int|
                    0 <= j < init.len() && origin_of(
                        x.type_origins,
                        module,
                        (#[trigger] init[j]).0,
                    ) == name;
                assert(items[j] == init[j]);
            }
            put_then_get(before, name, last.1, name);
        }
    }
}

proof fn arities_are_there(
    x: ExportsModel,
    module: Seq<char>,
    acc: Seq<(Seq<char>, usize)>,
    items: Seq<(Seq<char>, usize)>,
)
    requires
        distinct_keys(acc),
    ensures
        has_all_new(x, module, acc, with_export_arities(x, module, acc, items), items),
    decreases items.len(),
{
    if items.len() > 0 {
        arities_are_there(x, module, acc, items.drop_last());
        new_one_is_there(
            x,
            module,
            acc,
            with_export_arities(x, module, acc, items.drop_last()),
            items,
        );
    }
}

proof fn kinds_are_there(
    x: ExportsModel,
    module: Seq<char>,
    acc: Seq<(Seq<char>, Seq<crate::ast::Kind>)>,
    items: Seq<(Seq<char>, Seq<crate::ast::Kind>)>,
)
    requires
        distinct_keys(acc),
    ensures
        has_all_new(x, module, acc, with_export_all_kinds(x, module, acc, items), items),
    decreases items.len(),
{
    if items.len() > 0 {
        kinds_are_there(x, module, acc, items.drop_last());
        new_one_is_there(
            x,
            module,
            acc,
            with_export_all_kinds(x, module, acc, items.drop_last()),
            items,
        );
    }
}

proof fn aliases_are_there(
    x: ExportsModel,
    module: Seq<char>,
    acc: Seq<(Seq<char>, AliasModel)>,
    items: Seq<(Seq<char>, AliasModel)>,
)
    requires
        distinct_keys(acc),
    ensures
        has_all_new(x, module, acc, with_export_aliases(x, module, acc, items), items),
    decreases items.len(),
{
    if items.len() > 0 {
        aliases_are_there(x, module, acc, items.drop_last());
        new_one_is_there(
            x,
            module,
            acc,
            with_export_aliases(x, module, acc, items.drop_last()),
            items,
        );
    }
}

proof fn records_are_there(
    x: ExportsModel,
    module: Seq<char>,
    acc: Seq<(Seq<char>, RecordModel)>,
    items: Seq<(Seq<char>, RecordModel)>,
)
    requires
        distinct_keys(acc),
    ensures
        has_all_new(x, module, acc, with_export_records(x, module, acc, items), items),
    decreases items.len(),
{
    if items.len() > 0 {
        records_are_there(x, module, acc, items.drop_last());
        new_one_is_there(
            x,
            module,
            acc,
            with_export_records(x, module, acc, items.drop_last()),
            items,
        );
    }
}

/// The types that a module exports are known by the names of where they come from: their
/// arities, the kinds of their parameters, their aliases and their fields. The first one
/// of a name counts, and what was known stays.
pub proof fn exported_types_are_known(
    c: CheckerModel,
    x: ExportsModel,
    module: Seq<char>,
    prefix: Option<Seq<char>>,
    exposing: Seq<ExposedItem>,
)
    requires
        !c.registered_canonical.contains(module),
        is_listed_once(c),
        distinct_keys(c.type_arity),
        distinct_keys(c.type_param_kinds),
        distinct_keys(c.type_aliases),
        distinct_keys(c.records),
    ensures
        ({
            let after = with_canonical_exports(c, x, module, prefix, exposing);
            &&& has_all_new(x, module, c.type_arity, after.type_arity, x.type_arity)
            &&& has_all_new(
                x,
                module,
                c.type_param_kinds,
                after.type_param_kinds,
                x.type_param_kinds,
            )
            &&& has_all_new(x, module, c.type_aliases, after.type_aliases, x.type_aliases)
            &&& has_all_new(x, module, c.records, after.records, x.record_defs)
        }),
{
    let c0 = CheckerModel { registered_canonical: c.registered_canonical.push(module), ..c };
    traits_keep_types(x, module, c0, x.traits);
    let c1 = with_export_traits(x, module, c0, x.traits);
    let c2 = CheckerModel {
        trait_state: TraitStateModel {
            impls: put_all_new(c1.trait_state.impls, x.trait_impls),
            ..c1.trait_state
        },
        ..c1
    };
    effects_keep_types(x, module, c2, x.effects);
    let c3 = with_export_effects(x, module, c2, x.effects);
    handlers_keep_types(x, module, exposing, c3, x.handlers);
    let c4 = with_export_handlers(x, module, exposing, c3, x.handlers);
    arities_are_there(x, module, c4.type_arity, x.type_arity);
    kinds_are_there(x, module, c4.type_param_kinds, x.type_param_kinds);
    aliases_are_there(x, module, c4.type_aliases, x.type_aliases);
    let c5 = CheckerModel {
        type_arity: with_export_arities(x, module, c4.type_arity, x.type_arity),
        type_param_kinds: with_export_all_kinds(
            x,
            module,
            c4.type_param_kinds,
            x.type_param_kinds,
        ),
        type_aliases: with_export_aliases(x, module, c4.type_aliases, x.type_aliases),
        known_funs: with_export_funs(x, module, c4.known_funs, x.effectful_funs),
        ..c4
    };
    bindings_keep_types(x, module, prefix, c5, x.bindings);
    let c6 = with_export_bindings(x, module, prefix, c5, x.bindings);
    constructors_keep_types(x, module, c6, x.type_constructors);
    let c7 = with_export_types(x, module, c6, x.type_constructors);
    hidden_keep_types(c7, x.inlinable_constructors);
    let c8 = with_hidden_types(c7, x.inlinable_constructors);
    records_are_there(x, module, c8.records, x.record_defs);
}

/// Whether two states know the same of types.
pub open spec fn same_types(a: CheckerModel, b: CheckerModel) -> bool {
    &&& a.type_arity == b.type_arity
    &&& a.type_param_kinds == b.type_param_kinds
    &&& a.type_aliases == b.type_aliases
    &&& a.records == b.records
}

proof fn methods_keep_types(
    x: ExportsModel,
    canonical: Seq<char>,
    c: CheckerModel,
    items: Seq<MethodModel>,
)
    ensures
        same_types(c, with_export_methods(x, canonical, c, items)),
    decreases items.len(),
{
    if items.len() > 0 {
        methods_keep_types(x, canonical, c, items.drop_last());
    }
}

proof fn traits_keep_types(
    x: ExportsModel,
    module: Seq<char>,
    c: CheckerModel,
    items: Seq<(Seq<char>, TraitModel)>,
)
    ensures
        same_types(c, with_export_traits(x, module, c, items)),
    decreases items.len(),
{
    if items.len() > 0 {
        traits_keep_types(x, module, c, items.drop_last());
        let before = with_export_traits(x, module, c, items.drop_last());
        let t = items.last();
        let canonical = origin_of(x.trait_origins, module, t.0);
        let c1 = CheckerModel {
            trait_state: TraitStateModel {
                traits: put_new(before.trait_state.traits, canonical, t.1),
                ..before.trait_state
            },
            ..before
        };
        methods_keep_types(x, canonical, with_export_doc(c1, x, t.0, t.0), t.1.methods);
    }
}

proof fn effects_keep_types(
    x: ExportsModel,
    module: Seq<char>,
    c: CheckerModel,
    items: Seq<(Seq<char>, EffectModel)>,
)
    ensures
        same_types(c, with_export_effects(x, module, c, items)),
    decreases items.len(),
{
    if items.len() > 0 {
        effects_keep_types(x, module, c, items.drop_last());
    }
}

proof fn handlers_keep_types(
    x: ExportsModel,
    module: Seq<char>,
    exposing: Seq<ExposedItem>,
    c: CheckerModel,
    items: Seq<(Seq<char>, HandlerModel)>,
)
    ensures
        same_types(c, with_export_handlers(x, module, exposing, c, items)),
    decreases items.len(),
{
    if items.len() > 0 {
        handlers_keep_types(x, module, exposing, c, items.drop_last());
    }
}

proof fn bindings_keep_types(
    x: ExportsModel,
    module: Seq<char>,
    prefix: Option<Seq<char>>,
    c: CheckerModel,
    items: Seq<(Seq<char>, SchemeModel)>,
)
    ensures
        same_types(c, with_export_bindings(x, module, prefix, c, items)),
    decreases items.len(),
{
    if items.len() > 0 {
        bindings_keep_types(x, module, prefix, c, items.drop_last());
    }
}

proof fn ctors_keep_types(
    x: ExportsModel,
    module: Seq<char>,
    acc: (CheckerModel, Seq<(Seq<char>, usize)>),
    items: Seq<Seq<char>>,
)
    ensures
        same_types(acc.0, with_export_ctors(x, module, acc, items).0),
    decreases items.len(),
{
    if items.len() > 0 {
        ctors_keep_types(x, module, acc, items.drop_last());
    }
}

proof fn constructors_keep_types(
    x: ExportsModel,
    module: Seq<char>,
    c: CheckerModel,
    items: Seq<(Seq<char>, Seq<Seq<char>>)>,
)
    ensures
        same_types(c, with_export_types(x, module, c, items)),
    decreases items.len(),
{
    if items.len() > 0 {
        constructors_keep_types(x, module, c, items.drop_last());
        ctors_keep_types(
            x,
            module,
            (with_export_types(x, module, c, items.drop_last()), Seq::empty()),
            items.last().1,
        );
    }
}

proof fn hidden_keep_types(
    c: CheckerModel,
    items: Seq<(Seq<char>, Seq<(Seq<char>, SchemeModel)>)>,
)
    ensures
        same_types(c, with_hidden_types(c, items)),
    decreases items.len(),
{
    if items.len() > 0 {
        hidden_keep_types(c, items.drop_last());
    }
}

/// The scheme of a name is that of its last binding.
pub proof fn last_bindings_count(bindings: Seq<(Seq<char>, SchemeModel)>, name: Seq<char>)
    ensures
        match binding_of(bindings, name) {
            Some(scheme) => exists|i: int|
                0 <= i < bindings.len() && #[trigger] bindings[i] == (name, scheme) && forall|
                    j: int,
                |
                    i < j < bindings.len() ==> (#[trigger] bindings[j]).0 != name,
            None => forall|j: int| 0 <= j < bindings.len() ==> (#[trigger] bindings[j]).0 != name,
        },
    decreases bindings.len(),
{
    if bindings.len() > 0 {
        let init = bindings.drop_last();
        assert(bindings[bindings.len() - 1] == bindings.last());
        assert(forall|i: int| 0 <= i < init.len() ==> #[trigger] init[i] == bindings[i]);
        assert(forall|i: int| 0 <= i < init.len() ==> #[trigger] bindings[i] == init[i]);
        if bindings.last().0 != name {
            last_bindings_count(init, name);
            if let Some(scheme) = binding_of(init, name) {
                let i = choose|i: int|
                    0 <= i < init.len() && #[trigger] init[i] == (name, scheme) && forall|j: int|
                        i < j < init.len() ==> (#[trigger] init[j]).0 != name;
                assert(bindings[i] == (name, scheme));
                assert forall|j: int| i < j < bindings.len() implies (#[trigger] bindings[j]).0
                    != name by {
                    if j < init.len() {
                        assert(init[j] == bindings[j]);
                    }
                }
            }
        } else {
            assert(bindings[bindings.len() - 1] == (name, bindings.last().1));
        }
    }
}

/// The constructors of an exported type are known with their schemes, and they are the
/// variants of the type, in order, each with as many fields as its type has arrows.
pub proof fn exported_constructors_are_known(
    x: ExportsModel,
    module: Seq<char>,
    acc: (CheckerModel, Seq<(Seq<char>, usize)>),
    items: Seq<Seq<char>>,
)
    requires
        distinct_keys(acc.0.constructors),
        forall|i: int|
            0 <= i < items.len() ==> binding_of(x.bindings, #[trigger] items[i]) is Some,
    ensures
        ({
            let done = with_export_ctors(x, module, acc, items);
            &&& distinct_keys(done.0.constructors)
            &&& done.1.len() == acc.1.len() + items.len()
            &&& forall|i: int|
                #![trigger items[i]]
                0 <= i < items.len() ==> {
                    let name = origin_of(x.binding_origins, module, items[i]);
                    let scheme = binding_of(x.bindings, items[i])->0;
                    &&& done.1[acc.1.len() + i] == (name, arrow_count(scheme.ty) as usize)
                    &&& has_key(done.0.constructors, name)
                    &&& (forall|j: int|
                        i < j < items.len() ==> origin_of(
                            x.binding_origins,
                            module,
                            #[trigger] items[j],
                        ) != name) ==> at_key(done.0.constructors, name) == Some(scheme)
                }
        }),
    decreases items.len(),
{
    if items.len() > 0 {
        let init = items.drop_last();
        assert(items[items.len() - 1] == items.last());
        assert(forall|i: int| 0 <= i < init.len() ==> #[trigger] init[i] == items[i]);
        assert(forall|i: int| 0 <= i < init.len() ==> #[trigger] items[i] == init[i]);
        exported_constructors_are_known(x, module, acc, init);
        let before = with_export_ctors(x, module, acc, init);
        let done = with_export_ctors(x, module, acc, items);
        let last = origin_of(x.binding_origins, module, items.last());
        let own = binding_of(x.bindings, items.last())->0;
        put_then_get(before.0.constructors, last, own, last);
        assert forall|i: int|
            #![trigger items[i]]
            0 <= i < items.len() implies ({
            let name = origin_of(x.binding_origins, module, items[i]);
            let scheme = binding_of(x.bindings, items[i])->0;
            &&& done.1[acc.1.len() + i] == (name, arrow_count(scheme.ty) as usize)
            &&& has_key(done.0.constructors, name)
            &&& (forall|j: int|
                i < j < items.len() ==> origin_of(x.binding_origins, module, #[trigger] items[j])
                    != name) ==> at_key(done.0.constructors, name) == Some(scheme)
        }) by {
            let name = origin_of(x.binding_origins, module, items[i]);
            key_is_put(before.0.constructors, last, own, name);
            if i < init.len() {
                assert(init[i] == items[i]);
                if forall|j: int|
                    i < j < items.len() ==> origin_of(
                        x.binding_origins,
                        module,
                        #[trigger] items[j],
                    ) != name {
                    assert(origin_of(x.binding_origins, module, items[items.len() - 1]) != name);
                    assert(forall|j: int|
                        i < j < init.len() ==> origin_of(
                            x.binding_origins,
                            module,
                            #[trigger] init[j],
                        ) != name);
                    put_then_get(before.0.constructors, last, own, name);
                }
            }
        }
    }
}

} // verus!
