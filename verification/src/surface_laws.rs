//! What holds of the names that a module makes visible.

use vstd::prelude::*;
use crate::header_decls::{
    EffectDeclModel, FunctionModel, HandlerDeclModel, HeaderModel, ReExportModel,
    RecordBuilderModel, RecordDeclModel, TraitDeclModel, TypeDeclModel,
};
use crate::header_names::{
    namespaces, re_export_alls_of, surface_of, with_edge_in_each, with_edges, with_surfaces, Headers,
};
use crate::surface::{
    empty_surface, local_surface, merged_surfaces, renamed_ctor, resolved_in, visible_ctors, with_builders, with_ctors,
    with_effects, with_functions, with_handlers, with_new_ctors, with_records, with_resolved,
    with_traits, with_types, CtorSurface, HeaderNamespace, Resolved, Surface,
};
use crate::table::{at_key, distinct_keys, has_key, put, put_all_new, put_new, put_then_get};
use crate::traits::key_is_put;

verus! {

/// Names that stand for the same in `b` as in `a`.
pub open spec fn answered<V>(a: Seq<(Seq<char>, V)>, b: Seq<(Seq<char>, V)>) -> bool {
    forall|k: Seq<char>| #[trigger]
        has_key(a, k) ==> has_key(b, k) && at_key(b, k) == at_key(a, k)
}

/// A surface in which no name of a kind occurs twice.
pub open spec fn names_once(s: Surface) -> bool {
    &&& distinct_keys(s.values)
    &&& distinct_keys(s.handlers)
    &&& distinct_keys(s.types)
    &&& distinct_keys(s.constructors)
    &&& distinct_keys(s.traits)
    &&& distinct_keys(s.effects)
}

/// A surface that has all the names of another, and what they stand for.
pub open spec fn surface_kept(a: Surface, b: Surface) -> bool {
    &&& names_once(b)
    &&& answered(a.values, b.values)
    &&& answered(a.handlers, b.handlers)
    &&& answered(a.types, b.types)
    &&& answered(a.constructors, b.constructors)
    &&& answered(a.traits, b.traits)
    &&& answered(a.effects, b.effects)
}

proof fn put_new_answers<V>(
    a: Seq<(Seq<char>, V)>,
    b: Seq<(Seq<char>, V)>,
    name: Seq<char>,
    v: V,
)
    requires
        distinct_keys(b),
        answered(a, b),
    ensures
        distinct_keys(put_new(b, name, v)),
        answered(a, put_new(b, name, v)),
{
    if !has_key(b, name) {
        assert(put_new(b, name, v) == put(b, name, v));
        put_then_get(b, name, v, name);
        assert forall|k: Seq<char>| #[trigger] has_key(a, k) implies has_key(
            put(b, name, v),
            k,
        ) && at_key(put(b, name, v), k) == at_key(a, k) by {
            put_then_get(b, name, v, k);
            key_is_put(b, name, v, k);
        }
    }
}

/// Adding entries under new names changes nothing of what there was.
pub proof fn put_all_new_answers<V>(
    a: Seq<(Seq<char>, V)>,
    b: Seq<(Seq<char>, V)>,
    more: Seq<(Seq<char>, V)>,
)
    requires
        distinct_keys(b),
        answered(a, b),
    ensures
        distinct_keys(put_all_new(b, more)),
        answered(a, put_all_new(b, more)),
    decreases more.len(),
{
    if more.len() > 0 {
        put_all_new_answers(a, b, more.drop_last());
        put_new_answers(
            a,
            put_all_new(b, more.drop_last()),
            more.last().0,
            more.last().1,
        );
    }
}

proof fn new_ctors_keep(own: Surface, acc: Surface, items: Seq<CtorSurface>)
    requires
        surface_kept(own, acc),
    ensures
        surface_kept(own, with_new_ctors(acc, items)),
        with_new_ctors(acc, items).types == acc.types,
    decreases items.len(),
{
    if items.len() > 0 {
        new_ctors_keep(own, acc, items.drop_last());
        let before = with_new_ctors(acc, items.drop_last());
        let c = items.last();
        put_new_answers(own.constructors, before.constructors, c.surface_name, c.canonical);
        put_new_answers(own.values, before.values, c.surface_name, c.canonical);
    }
}

proof fn resolved_keeps(
    own: Surface,
    s: Surface,
    origin: Seq<char>,
    surface: Seq<char>,
    space: HeaderNamespace,
    resolved: Resolved,
)
    requires
        surface_kept(own, s),
    ensures
        surface_kept(own, with_resolved(s, origin, surface, space, resolved)),
{
    match (space, resolved) {
        (HeaderNamespace::Value, Resolved::Canonical(c)) => {
            put_new_answers(own.values, s.values, surface, c);
        },
        (HeaderNamespace::Handler, Resolved::Canonical(c)) => {
            put_new_answers(own.handlers, s.handlers, surface, c);
        },
        (HeaderNamespace::Constructor, Resolved::Canonical(c)) => {
            put_new_answers(own.constructors, s.constructors, surface, c);
            put_new_answers(own.values, s.values, surface, c);
        },
        (HeaderNamespace::Type, Resolved::Type(info)) => {
            let ctors = info.constructors.map_values(
                |c: CtorSurface| crate::surface::renamed_ctor(origin, surface, c),
            );
            new_ctors_keep(own, s, ctors);
            let s1 = with_new_ctors(s, ctors);
            put_new_answers(
                own.types,
                s1.types,
                surface,
                crate::surface::TypeSurface { constructors: ctors, ..info },
            );
        },
        (HeaderNamespace::Trait, Resolved::Trait(info)) => {
            put_new_answers(own.traits, s.traits, surface, info);
        },
        (HeaderNamespace::Effect, Resolved::Effect(info)) => {
            put_new_answers(own.effects, s.effects, surface, info);
        },
        _ => {},
    }
}

proof fn edge_keeps(
    headers: Headers,
    edge: ReExportModel,
    own: Surface,
    acc: Surface,
    items: Seq<HeaderNamespace>,
)
    requires
        surface_kept(own, acc),
    ensures
        with_edge_in_each(headers, edge, acc, items) matches Ok(s) ==> surface_kept(own, s),
    decreases items.len(),
{
    if items.len() > 0 {
        edge_keeps(headers, edge, own, acc, items.drop_last());
        if let Ok(before) = with_edge_in_each(headers, edge, acc, items.drop_last()) {
            if let Ok(Some(r)) = crate::header_names::name_found(
                headers,
                edge.origin_module,
                edge.origin_name,
                items.last(),
            ) {
                resolved_keeps(
                    own,
                    before,
                    edge.origin_name,
                    edge.surface_name,
                    items.last(),
                    r,
                );
            }
        }
    }
}

proof fn edges_keep(headers: Headers, own: Surface, acc: Surface, items: Seq<ReExportModel>)
    requires
        surface_kept(own, acc),
    ensures
        with_edges(headers, acc, items) matches Ok(s) ==> surface_kept(own, s),
    decreases items.len(),
{
    if items.len() > 0 {
        edges_keep(headers, own, acc, items.drop_last());
        if let Ok(before) = with_edges(headers, acc, items.drop_last()) {
            edge_keeps(headers, items.last(), own, before, namespaces());
        }
    }
}

proof fn merging_keeps(own: Surface, a: Surface, b: Surface)
    requires
        surface_kept(own, a),
    ensures
        surface_kept(own, merged_surfaces(a, b)),
{
    put_all_new_answers(own.values, a.values, b.values);
    put_all_new_answers(own.handlers, a.handlers, b.handlers);
    put_all_new_answers(own.types, a.types, b.types);
    put_all_new_answers(own.constructors, a.constructors, b.constructors);
    put_all_new_answers(own.traits, a.traits, b.traits);
    put_all_new_answers(own.effects, a.effects, b.effects);
}

proof fn surfaces_keep(
    headers: Headers,
    own: Surface,
    s: Surface,
    module: Seq<char>,
    visiting: Seq<Seq<char>>,
    i: nat,
)
    requires
        surface_kept(own, s),
    ensures
        with_surfaces(headers, s, module, visiting, i) matches Ok(t) ==> surface_kept(own, t),
    decreases re_export_alls_of(headers, module).len() - i,
{
    let edges = re_export_alls_of(headers, module);
    if i < edges.len() {
        if let Ok(t) = surface_of(headers, edges[i as int], visiting) {
            merging_keeps(own, s, t);
            surfaces_keep(headers, own, merged_surfaces(s, t), module, visiting, i + 1);
        }
    }
}

proof fn ctors_once(acc: Surface, items: Seq<CtorSurface>)
    requires
        names_once(acc),
    ensures
        names_once(with_ctors(acc, items)),
    decreases items.len(),
{
    if items.len() > 0 {
        ctors_once(acc, items.drop_last());
        let before = with_ctors(acc, items.drop_last());
        let c = items.last();
        put_then_get(before.constructors, c.surface_name, c.canonical, c.surface_name);
        put_then_get(before.values, c.surface_name, c.canonical, c.surface_name);
    }
}

proof fn with_functions_once(
    module: Seq<char>,
    acc: Surface,
    items: Seq<(Seq<char>, FunctionModel)>,
)
    requires
        names_once(acc),
    ensures
        names_once(with_functions(module, acc, items)),
    decreases items.len(),
{
    if items.len() > 0 {
        with_functions_once(module, acc, items.drop_last());
        let before = with_functions(module, acc, items.drop_last());
        let last = items.last();
        put_then_get(
            before.values,
            last.0,
            crate::text::dotted(module, last.0),
            last.0,
        );
    }
}

proof fn with_types_once(module: Seq<char>, acc: Surface, items: Seq<(Seq<char>, TypeDeclModel)>)
    requires
        names_once(acc),
    ensures
        names_once(with_types(module, acc, items)),
    decreases items.len(),
{
    if items.len() > 0 {
        with_types_once(module, acc, items.drop_last());
        let before = with_types(module, acc, items.drop_last());
        let last = items.last();
        let ctors = visible_ctors(module, last.1);
        let info = crate::surface::TypeSurface {
            canonical: crate::text::dotted(module, last.0),
            constructors: ctors,
            record_builder: None,
        };
        put_then_get(before.types, last.0, info, last.0);
        ctors_once(Surface { types: put(before.types, last.0, info), ..before }, ctors);
    }
}

proof fn with_records_once(
    module: Seq<char>,
    acc: Surface,
    items: Seq<(Seq<char>, RecordDeclModel)>,
)
    requires
        names_once(acc),
    ensures
        names_once(with_records(module, acc, items)),
    decreases items.len(),
{
    if items.len() > 0 {
        with_records_once(module, acc, items.drop_last());
        let before = with_records(module, acc, items.drop_last());
        let last = items.last();
        let canonical = crate::text::dotted(module, last.0);
        let info = crate::surface::TypeSurface {
            canonical,
            constructors: seq![CtorSurface { surface_name: last.0, canonical }],
            record_builder: None,
        };
        put_then_get(before.types, last.0, info, last.0);
        put_then_get(before.constructors, last.0, canonical, last.0);
        put_then_get(before.values, last.0, canonical, last.0);
    }
}

proof fn with_traits_once(module: Seq<char>, acc: Surface, items: Seq<(Seq<char>, TraitDeclModel)>)
    requires
        names_once(acc),
    ensures
        names_once(with_traits(module, acc, items)),
    decreases items.len(),
{
    if items.len() > 0 {
        with_traits_once(module, acc, items.drop_last());
        let before = with_traits(module, acc, items.drop_last());
        let last = items.last();
        if last.1.public {
            trait_put(module, before, last);
        }
    }
}

proof fn trait_put(module: Seq<char>, s: Surface, t: (Seq<char>, TraitDeclModel))
    requires
        distinct_keys(s.traits),
    ensures
        distinct_keys(crate::surface::with_trait(module, s, t).traits),
{
    put_then_get(
        s.traits,
        t.0,
        crate::surface::TraitSurface {
            canonical: crate::text::dotted(module, t.0),
            methods: t.1.methods.map_values(
                |m: crate::header_decls::TraitMethodModel| crate::surface::method_name(m),
            ),
        },
        t.0,
    );
}

proof fn effect_put(module: Seq<char>, s: Surface, e: (Seq<char>, EffectDeclModel))
    requires
        distinct_keys(s.effects),
    ensures
        distinct_keys(crate::surface::with_effect(module, s, e).effects),
{
    put_then_get(
        s.effects,
        e.0,
        crate::surface::EffectSurface {
            canonical: crate::text::dotted(module, e.0),
            ops: e.1.operations.map_values(
                |op: crate::header_decls::EffectOpModel| crate::surface::operation_name(op),
            ),
        },
        e.0,
    );
}

proof fn with_effects_once(
    module: Seq<char>,
    acc: Surface,
    items: Seq<(Seq<char>, EffectDeclModel)>,
)
    requires
        names_once(acc),
    ensures
        names_once(with_effects(module, acc, items)),
    decreases items.len(),
{
    if items.len() > 0 {
        with_effects_once(module, acc, items.drop_last());
        let before = with_effects(module, acc, items.drop_last());
        let last = items.last();
        effect_put(module, before, last);
    }
}

proof fn with_handlers_once(
    module: Seq<char>,
    acc: Surface,
    items: Seq<(Seq<char>, HandlerDeclModel)>,
)
    requires
        names_once(acc),
    ensures
        names_once(with_handlers(module, acc, items)),
    decreases items.len(),
{
    if items.len() > 0 {
        with_handlers_once(module, acc, items.drop_last());
        let before = with_handlers(module, acc, items.drop_last());
        let last = items.last();
        let canonical = crate::text::dotted(module, last.0);
        put_then_get(before.handlers, last.0, canonical, last.0);
        put_then_get(before.values, last.0, canonical, last.0);
    }
}

proof fn with_builders_once(
    module: Seq<char>,
    acc: Surface,
    items: Seq<(Seq<char>, RecordBuilderModel)>,
)
    requires
        names_once(acc),
    ensures
        names_once(with_builders(module, acc, items)),
    decreases items.len(),
{
    if items.len() > 0 {
        with_builders_once(module, acc, items.drop_last());
        let before = with_builders(module, acc, items.drop_last());
        let last = items.last();
        let context = crate::text::last_segment(last.1.context);
        if let (Some(start), Some(field), Some(info)) = (
            crate::surface::local_value(before, module, last.1.start),
            crate::surface::local_value(before, module, last.1.field),
            at_key(before.types, context),
        ) {
            put_then_get(
                before.types,
                context,
                crate::surface::TypeSurface {
                    record_builder: Some(
                        crate::scope::BuilderModel { context: info.canonical, start, field },
                    ),
                    ..info
                },
                context,
            );
        }
    }
}

/// What a module declares comes before what it re-exports: each of its own names
/// stands for its own in its surface.
pub proof fn own_names_win(headers: Headers, module: Seq<char>)
    requires
        has_key(headers, module),
    ensures
        surface_of(headers, module, Seq::empty()) matches Ok(s) ==> surface_kept(
            local_surface(module, at_key(headers, module)->Some_0),
            s,
        ),
{
    let h = at_key(headers, module)->Some_0;
    let own = local_surface(module, h);
    let s1 = with_functions(module, empty_surface(), h.functions);
    let s2 = with_types(module, s1, h.types);
    let s3 = with_records(module, s2, h.records);
    let s4 = with_traits(module, s3, h.traits);
    let s5 = with_effects(module, s4, h.effects);
    let s6 = with_handlers(module, s5, h.handlers);
    with_functions_once(module, empty_surface(), h.functions);
    with_types_once(module, s1, h.types);
    with_records_once(module, s2, h.records);
    with_traits_once(module, s3, h.traits);
    with_effects_once(module, s4, h.effects);
    with_handlers_once(module, s5, h.handlers);
    with_builders_once(module, s6, h.record_builders);
    assert(surface_kept(own, own));
    edges_keep(headers, own, own, h.re_exports);
    if let Ok(s) = with_edges(headers, own, h.re_exports) {
        let visiting = Seq::<Seq<char>>::empty();
        assert(!visiting.contains(module));
        surfaces_keep(headers, own, s, module, visiting.push(module), 0);
    }
}

/// Whether a module declares a public type or record of a name.
pub open spec fn declares_type(h: HeaderModel, name: Seq<char>) -> bool {
    ||| exists|i: int|
        0 <= i < h.types.len() && (#[trigger] h.types[i]).0 == name && h.types[i].1.is_public()
    ||| exists|i: int|
        0 <= i < h.records.len() && (#[trigger] h.records[i]).0 == name && h.records[i].1.public
}

proof fn types_are_public(
    module: Seq<char>,
    acc: Surface,
    items: Seq<(Seq<char>, TypeDeclModel)>,
    name: Seq<char>,
)
    ensures
        has_key(with_types(module, acc, items).types, name) <==> has_key(acc.types, name) || exists|
            i: int,
        |
            0 <= i < items.len() && (#[trigger] items[i]).0 == name && items[i].1.is_public(),
    decreases items.len(),
{
    if items.len() > 0 {
        let rest = items.drop_last();
        types_are_public(module, acc, rest, name);
        let before = with_types(module, acc, rest);
        let last = items.last();
        let ctors = visible_ctors(module, last.1);
        let info = crate::surface::TypeSurface {
            canonical: crate::text::dotted(module, last.0),
            constructors: ctors,
            record_builder: None,
        };
        key_is_put(before.types, last.0, info, name);
        ctors_keep_types(Surface { types: put(before.types, last.0, info), ..before }, ctors);
        assert(items[items.len() - 1] == last);
        if exists|i: int| 0 <= i < rest.len() && (#[trigger] rest[i]).0 == name && rest[i].1.is_public() {
            let i = choose|i: int|
                0 <= i < rest.len() && (#[trigger] rest[i]).0 == name && rest[i].1.is_public();
            assert(items[i] == rest[i]);
        }
        if exists|i: int|
            0 <= i < items.len() && (#[trigger] items[i]).0 == name && items[i].1.is_public() {
            let i = choose|i: int|
                0 <= i < items.len() && (#[trigger] items[i]).0 == name && items[i].1.is_public();
            if i < rest.len() {
                assert(rest[i] == items[i]);
            }
        }
    }
}

proof fn ctors_keep_types(acc: Surface, items: Seq<CtorSurface>)
    ensures
        with_ctors(acc, items).types == acc.types,
    decreases items.len(),
{
    if items.len() > 0 {
        ctors_keep_types(acc, items.drop_last());
    }
}

proof fn records_are_public(
    module: Seq<char>,
    acc: Surface,
    items: Seq<(Seq<char>, RecordDeclModel)>,
    name: Seq<char>,
)
    ensures
        has_key(with_records(module, acc, items).types, name) <==> has_key(acc.types, name)
            || exists|i: int|
            0 <= i < items.len() && (#[trigger] items[i]).0 == name && items[i].1.public,
    decreases items.len(),
{
    if items.len() > 0 {
        let rest = items.drop_last();
        records_are_public(module, acc, rest, name);
        let before = with_records(module, acc, rest);
        let last = items.last();
        let canonical = crate::text::dotted(module, last.0);
        let info = crate::surface::TypeSurface {
            canonical,
            constructors: seq![CtorSurface { surface_name: last.0, canonical }],
            record_builder: None,
        };
        key_is_put(before.types, last.0, info, name);
        assert(items[items.len() - 1] == last);
        if exists|i: int| 0 <= i < rest.len() && (#[trigger] rest[i]).0 == name && rest[i].1.public {
            let i = choose|i: int|
                0 <= i < rest.len() && (#[trigger] rest[i]).0 == name && rest[i].1.public;
            assert(items[i] == rest[i]);
        }
        if exists|i: int|
            0 <= i < items.len() && (#[trigger] items[i]).0 == name && items[i].1.public {
            let i = choose|i: int|
                0 <= i < items.len() && (#[trigger] items[i]).0 == name && items[i].1.public;
            if i < rest.len() {
                assert(rest[i] == items[i]);
            }
        }
    }
}

proof fn with_functions_keep_types(
    module: Seq<char>,
    acc: Surface,
    items: Seq<(Seq<char>, FunctionModel)>,
)
    ensures
        with_functions(module, acc, items).types == acc.types,
    decreases items.len(),
{
    if items.len() > 0 {
        with_functions_keep_types(module, acc, items.drop_last());
    }
}

proof fn with_traits_keep_types(
    module: Seq<char>,
    acc: Surface,
    items: Seq<(Seq<char>, TraitDeclModel)>,
)
    ensures
        with_traits(module, acc, items).types == acc.types,
    decreases items.len(),
{
    if items.len() > 0 {
        with_traits_keep_types(module, acc, items.drop_last());
    }
}

proof fn with_effects_keep_types(
    module: Seq<char>,
    acc: Surface,
    items: Seq<(Seq<char>, EffectDeclModel)>,
)
    ensures
        with_effects(module, acc, items).types == acc.types,
    decreases items.len(),
{
    if items.len() > 0 {
        with_effects_keep_types(module, acc, items.drop_last());
    }
}

proof fn with_handlers_keep_types(
    module: Seq<char>,
    acc: Surface,
    items: Seq<(Seq<char>, HandlerDeclModel)>,
)
    ensures
        with_handlers(module, acc, items).types == acc.types,
    decreases items.len(),
{
    if items.len() > 0 {
        with_handlers_keep_types(module, acc, items.drop_last());
    }
}

proof fn builders_keep_types(
    module: Seq<char>,
    acc: Surface,
    items: Seq<(Seq<char>, RecordBuilderModel)>,
    name: Seq<char>,
)
    ensures
        has_key(with_builders(module, acc, items).types, name) == has_key(acc.types, name),
    decreases items.len(),
{
    if items.len() > 0 {
        builders_keep_types(module, acc, items.drop_last(), name);
        let before = with_builders(module, acc, items.drop_last());
        let last = items.last();
        let context = crate::text::last_segment(last.1.context);
        if let (Some(start), Some(field), Some(info)) = (
            crate::surface::local_value(before, module, last.1.start),
            crate::surface::local_value(before, module, last.1.field),
            at_key(before.types, context),
        ) {
            key_is_put(
                before.types,
                context,
                crate::surface::TypeSurface {
                    record_builder: Some(
                        crate::scope::BuilderModel { context: info.canonical, start, field },
                    ),
                    ..info
                },
                name,
            );
        }
    }
}

/// The types that a module makes visible itself are just its public types and
/// records: private ones stay private.
pub proof fn private_types_stay_private(module: Seq<char>, h: HeaderModel, name: Seq<char>)
    ensures
        has_key(local_surface(module, h).types, name) <==> declares_type(h, name),
{
    let s1 = with_functions(module, empty_surface(), h.functions);
    let s2 = with_types(module, s1, h.types);
    let s3 = with_records(module, s2, h.records);
    let s4 = with_traits(module, s3, h.traits);
    let s5 = with_effects(module, s4, h.effects);
    let s6 = with_handlers(module, s5, h.handlers);
    with_functions_keep_types(module, empty_surface(), h.functions);
    types_are_public(module, s1, h.types, name);
    records_are_public(module, s2, h.records, name);
    with_traits_keep_types(module, s3, h.traits);
    with_effects_keep_types(module, s4, h.effects);
    with_handlers_keep_types(module, s5, h.handlers);
    builders_keep_types(module, s6, h.record_builders, name);
}

/// Whether a module makes a constructor visible: one of a public type that is not opaque,
/// or that of a public record.
pub open spec fn shows_ctor(h: HeaderModel, name: Seq<char>) -> bool {
    ||| exists|i: int|
        0 <= i < h.types.len() && type_shows_ctor((#[trigger] h.types[i]).1, name)
    ||| exists|i: int| 0 <= i < h.records.len() && (#[trigger] h.records[i]).1.public && h.records[i].0
        == name
}

/// Whether a type makes a constructor visible.
pub open spec fn type_shows_ctor(decl: TypeDeclModel, name: Seq<char>) -> bool {
    &&& decl.is_public()
    &&& decl matches TypeDeclModel::Adt { opaque, constructors, .. } && !opaque && exists|j: int|
        0 <= j < constructors.len() && (#[trigger] constructors[j]).name == name
}

/// Whether a module declares a public function of a name.
pub open spec fn shows_function(h: HeaderModel, name: Seq<char>) -> bool {
    exists|i: int|
        0 <= i < h.functions.len() && (#[trigger] h.functions[i]).1.public && h.functions[i].0 == name
}

/// Whether a module declares a public handler of a name.
pub open spec fn shows_handler(h: HeaderModel, name: Seq<char>) -> bool {
    exists|i: int|
        0 <= i < h.handlers.len() && (#[trigger] h.handlers[i]).1.public && h.handlers[i].0 == name
}

proof fn functions_are_shown(
    module: Seq<char>,
    s: Surface,
    items: Seq<(Seq<char>, FunctionModel)>,
    name: Seq<char>,
)
    ensures
        ({
            let after = with_functions(module, s, items);
            &&& has_key(after.values, name) <==> has_key(s.values, name) || exists|i: int|
                0 <= i < items.len() && (#[trigger] items[i]).1.public && items[i].0 == name
            &&& after.constructors == s.constructors
            &&& after.handlers == s.handlers
        }),
    decreases items.len(),
{
    if items.len() > 0 {
        let init = items.drop_last();
        functions_are_shown(module, s, init, name);
        assert(items[items.len() - 1] == items.last());
        assert(forall|i: int| 0 <= i < init.len() ==> #[trigger] init[i] == items[i]);
        assert(forall|i: int| 0 <= i < init.len() ==> #[trigger] items[i] == init[i]);
        key_is_put(
            with_functions(module, s, init).values,
            items.last().0,
            crate::text::dotted(module, items.last().0),
            name,
        );
    }
}

proof fn ctors_are_shown(s: Surface, items: Seq<CtorSurface>, name: Seq<char>)
    ensures
        ({
            let after = with_ctors(s, items);
            let shown = exists|i: int|
                0 <= i < items.len() && (#[trigger] items[i]).surface_name == name;
            &&& has_key(after.values, name) <==> has_key(s.values, name) || shown
            &&& has_key(after.constructors, name) <==> has_key(s.constructors, name) || shown
            &&& after.handlers == s.handlers
        }),
    decreases items.len(),
{
    if items.len() > 0 {
        let init = items.drop_last();
        let last = items.last();
        ctors_are_shown(s, init, name);
        assert(items[items.len() - 1] == last);
        assert(forall|i: int| 0 <= i < init.len() ==> #[trigger] init[i] == items[i]);
        assert(forall|i: int| 0 <= i < init.len() ==> #[trigger] items[i] == init[i]);
        let before = with_ctors(s, init);
        key_is_put(before.values, last.surface_name, last.canonical, name);
        key_is_put(before.constructors, last.surface_name, last.canonical, name);
    }
}

proof fn types_show_their_ctors(
    module: Seq<char>,
    s: Surface,
    items: Seq<(Seq<char>, TypeDeclModel)>,
    name: Seq<char>,
)
    ensures
        ({
            let after = with_types(module, s, items);
            let shown = exists|i: int|
                0 <= i < items.len() && type_shows_ctor((#[trigger] items[i]).1, name);
            &&& has_key(after.values, name) <==> has_key(s.values, name) || shown
            &&& has_key(after.constructors, name) <==> has_key(s.constructors, name) || shown
            &&& after.handlers == s.handlers
        }),
    decreases items.len(),
{
    if items.len() > 0 {
        let init = items.drop_last();
        let last = items.last();
        types_show_their_ctors(module, s, init, name);
        assert(items[items.len() - 1] == last);
        assert(forall|i: int| 0 <= i < init.len() ==> #[trigger] init[i] == items[i]);
        assert(forall|i: int| 0 <= i < init.len() ==> #[trigger] items[i] == init[i]);
        if last.1.is_public() {
            let before = with_types(module, s, init);
            let ctors = visible_ctors(module, last.1);
            let info = crate::surface::TypeSurface {
                canonical: crate::text::dotted(module, last.0),
                constructors: ctors,
                record_builder: None,
            };
            ctors_are_shown(
                Surface { types: put(before.types, last.0, info), ..before },
                ctors,
                name,
            );
            if let TypeDeclModel::Adt { opaque, constructors, .. } = last.1 {
                if !opaque {
                    assert(forall|j: int|
                        0 <= j < constructors.len() ==> (#[trigger] ctors[j]).surface_name
                            == constructors[j].name);
                    assert(forall|j: int|
                        0 <= j < constructors.len() ==> (#[trigger] constructors[j]).name
                            == ctors[j].surface_name);
                }
            }
        }
    }
}

proof fn records_show_their_ctors(
    module: Seq<char>,
    s: Surface,
    items: Seq<(Seq<char>, RecordDeclModel)>,
    name: Seq<char>,
)
    ensures
        ({
            let after = with_records(module, s, items);
            let shown = exists|i: int|
                0 <= i < items.len() && (#[trigger] items[i]).1.public && items[i].0 == name;
            &&& has_key(after.values, name) <==> has_key(s.values, name) || shown
            &&& has_key(after.constructors, name) <==> has_key(s.constructors, name) || shown
            &&& after.handlers == s.handlers
        }),
    decreases items.len(),
{
    if items.len() > 0 {
        let init = items.drop_last();
        let last = items.last();
        records_show_their_ctors(module, s, init, name);
        assert(items[items.len() - 1] == last);
        assert(forall|i: int| 0 <= i < init.len() ==> #[trigger] init[i] == items[i]);
        assert(forall|i: int| 0 <= i < init.len() ==> #[trigger] items[i] == init[i]);
        let before = with_records(module, s, init);
        let canonical = crate::text::dotted(module, last.0);
        key_is_put(before.values, last.0, canonical, name);
        key_is_put(before.constructors, last.0, canonical, name);
    }
}

/// Whether two surfaces have the same values, constructors and handlers.
pub open spec fn same_values(a: Surface, b: Surface) -> bool {
    a.values == b.values && a.constructors == b.constructors && a.handlers == b.handlers
}

proof fn traits_show_no_values(
    module: Seq<char>,
    s: Surface,
    items: Seq<(Seq<char>, TraitDeclModel)>,
)
    ensures
        same_values(s, with_traits(module, s, items)),
    decreases items.len(),
{
    if items.len() > 0 {
        traits_show_no_values(module, s, items.drop_last());
    }
}

proof fn effects_show_no_values(
    module: Seq<char>,
    s: Surface,
    items: Seq<(Seq<char>, EffectDeclModel)>,
)
    ensures
        same_values(s, with_effects(module, s, items)),
    decreases items.len(),
{
    if items.len() > 0 {
        effects_show_no_values(module, s, items.drop_last());
    }
}

proof fn builders_show_no_values(
    module: Seq<char>,
    s: Surface,
    items: Seq<(Seq<char>, RecordBuilderModel)>,
)
    ensures
        same_values(s, with_builders(module, s, items)),
    decreases items.len(),
{
    if items.len() > 0 {
        builders_show_no_values(module, s, items.drop_last());
    }
}

proof fn handlers_are_shown(
    module: Seq<char>,
    s: Surface,
    items: Seq<(Seq<char>, HandlerDeclModel)>,
    name: Seq<char>,
)
    ensures
        ({
            let after = with_handlers(module, s, items);
            let shown = exists|i: int|
                0 <= i < items.len() && (#[trigger] items[i]).1.public && items[i].0 == name;
            &&& has_key(after.values, name) <==> has_key(s.values, name) || shown
            &&& has_key(after.handlers, name) <==> has_key(s.handlers, name) || shown
            &&& after.constructors == s.constructors
        }),
    decreases items.len(),
{
    if items.len() > 0 {
        let init = items.drop_last();
        let last = items.last();
        handlers_are_shown(module, s, init, name);
        assert(items[items.len() - 1] == last);
        assert(forall|i: int| 0 <= i < init.len() ==> #[trigger] init[i] == items[i]);
        assert(forall|i: int| 0 <= i < init.len() ==> #[trigger] items[i] == init[i]);
        let before = with_handlers(module, s, init);
        let canonical = crate::text::dotted(module, last.0);
        key_is_put(before.values, last.0, canonical, name);
        key_is_put(before.handlers, last.0, canonical, name);
    }
}

/// The values that a module makes visible are just its public functions and handlers, the
/// constructors of its public types that are not opaque, and those of its public records.
pub proof fn visible_values_are_public(module: Seq<char>, h: HeaderModel, name: Seq<char>)
    ensures
        has_key(local_surface(module, h).values, name) <==> shows_function(h, name) || shows_ctor(
            h,
            name,
        ) || shows_handler(h, name),
        has_key(local_surface(module, h).constructors, name) <==> shows_ctor(h, name),
        has_key(local_surface(module, h).handlers, name) <==> shows_handler(h, name),
{
    let s1 = with_functions(module, empty_surface(), h.functions);
    let s2 = with_types(module, s1, h.types);
    let s3 = with_records(module, s2, h.records);
    let s4 = with_traits(module, s3, h.traits);
    let s5 = with_effects(module, s4, h.effects);
    let s6 = with_handlers(module, s5, h.handlers);
    functions_are_shown(module, empty_surface(), h.functions, name);
    types_show_their_ctors(module, s1, h.types, name);
    records_show_their_ctors(module, s2, h.records, name);
    traits_show_no_values(module, s3, h.traits);
    effects_show_no_values(module, s4, h.effects);
    handlers_are_shown(module, s5, h.handlers, name);
    builders_show_no_values(module, s6, h.record_builders);
}

proof fn new_ctors_keep_types(s: Surface, items: Seq<CtorSurface>)
    ensures
        with_new_ctors(s, items).types == s.types,
    decreases items.len(),
{
    if items.len() > 0 {
        new_ctors_keep_types(s, items.drop_last());
    }
}

/// A name that is re-exported under another one is found under that name, unless the
/// module has such a name of its own, which stays. A type keeps its canonical name and its
/// constructors; one of the name of the type takes the new name.
pub proof fn re_exported_names_are_found(
    s: Surface,
    origin: Seq<char>,
    surface: Seq<char>,
    space: HeaderNamespace,
    resolved: Resolved,
)
    requires
        names_once(s),
        match resolved {
            Resolved::Canonical(_) => space is Value || space is Handler || space is Constructor,
            Resolved::Type(_) => space is Type,
            Resolved::Trait(_) => space is Trait,
            Resolved::Effect(_) => space is Effect,
        },
    ensures
        ({
            let found = resolved_in(
                with_resolved(s, origin, surface, space, resolved),
                surface,
                space,
            );
            match resolved_in(s, surface, space) {
                Some(own) => found == Some(own),
                None => match resolved {
                    Resolved::Type(info) => {
                        &&& found matches Some(Resolved::Type(t))
                        &&& t.canonical == info.canonical
                        &&& t.record_builder == info.record_builder
                        &&& t.constructors.len() == info.constructors.len()
                        &&& forall|i: int|
                            0 <= i < t.constructors.len() ==> {
                                &&& (#[trigger] t.constructors[i]).canonical
                                    == info.constructors[i].canonical
                                &&& t.constructors[i].surface_name
                                    == if info.constructors[i].surface_name == origin {
                                    surface
                                } else {
                                    info.constructors[i].surface_name
                                }
                            }
                    },
                    _ => found == Some(resolved),
                },
            }
        }),
{
    match resolved {
        Resolved::Canonical(c) => {
            put_then_get(s.values, surface, c, surface);
            put_then_get(s.handlers, surface, c, surface);
            put_then_get(s.constructors, surface, c, surface);
        },
        Resolved::Type(info) => {
            let ctors = info.constructors.map_values(
                |c: CtorSurface| renamed_ctor(origin, surface, c),
            );
            new_ctors_keep_types(s, ctors);
            put_then_get(
                s.types,
                surface,
                crate::surface::TypeSurface { constructors: ctors, ..info },
                surface,
            );
        },
        Resolved::Trait(info) => {
            put_then_get(s.traits, surface, info, surface);
        },
        Resolved::Effect(info) => {
            put_then_get(s.effects, surface, info, surface);
        },
    }
}

} // verus!
