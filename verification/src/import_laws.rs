//! What holds of the scope that an import brings.

use vstd::prelude::*;
use crate::ast::{surface_of, ExposedItem};
use crate::header_scope::with_qualified;
use crate::import_scope::{
    builtin_types, exports_type_name, exports_value_name, import_scope, imported_names, names_type,
    origin_of, with_bare_ctors_of, with_builtin_types, with_imported_ctors, with_imported_ctors_of,
    with_imported_effects, with_imported_handlers, with_imported_traits, with_imported_types,
    with_imported_values, with_items, with_qualified_methods, with_type_item,
};
use crate::infos::{EffectModel, ExportsModel, HandlerModel, MethodModel, TraitModel};
use crate::schemes::SchemeModel;
use crate::scope::{empty_scope, ScopeModel};
use crate::table::{at_key, has_key};
use crate::text::dotted;

verus! {

/// Names that stay what they stand for.
pub open spec fn kept(a: Map<Seq<char>, Seq<char>>, b: Map<Seq<char>, Seq<char>>) -> bool {
    forall|k: Seq<char>| #[trigger] a.dom().contains(k) ==> b.dom().contains(k) && b[k] == a[k]
}

/// A scope whose names stay what they stand for in another.
pub open spec fn scope_kept(a: ScopeModel, b: ScopeModel) -> bool {
    &&& kept(a.values, b.values)
    &&& kept(a.types, b.types)
    &&& kept(a.constructors, b.constructors)
    &&& kept(a.traits, b.traits)
    &&& kept(a.effects, b.effects)
    &&& kept(a.handlers, b.handlers)
}

/// Names that all have a dot in them.
pub open spec fn all_dotted(m: Map<Seq<char>, Seq<char>>) -> bool {
    forall|k: Seq<char>| #[trigger] m.dom().contains(k) ==> k.contains('.')
}

/// A scope without bare names.
pub open spec fn none_bare(s: ScopeModel) -> bool {
    &&& all_dotted(s.values)
    &&& all_dotted(s.types)
    &&& all_dotted(s.constructors)
    &&& all_dotted(s.traits)
    &&& all_dotted(s.effects)
    &&& all_dotted(s.handlers)
}

/// Exports whose canonical names are all qualified, as those of a module are.
pub open spec fn origins_dotted(x: ExportsModel) -> bool {
    &&& origins_have_dots(x.binding_origins)
    &&& origins_have_dots(x.type_origins)
    &&& origins_have_dots(x.trait_origins)
    &&& origins_have_dots(x.effect_origins)
    &&& origins_have_dots(x.handler_origins)
}

pub open spec fn origins_have_dots(origins: Seq<(Seq<char>, Seq<char>)>) -> bool {
    forall|i: int| 0 <= i < origins.len() ==> (#[trigger] origins[i]).1.contains('.')
}

proof fn dotted_has_dot(prefix: Seq<char>, name: Seq<char>)
    ensures
        dotted(prefix, name).contains('.'),
{
    reveal_strlit(".");
    assert(dotted(prefix, name)[prefix.len() as int] == '.');
}

proof fn origin_has_dot(origins: Seq<(Seq<char>, Seq<char>)>, module: Seq<char>, name: Seq<char>)
    requires
        origins_have_dots(origins),
    ensures
        origin_of(origins, module, name).contains('.'),
{
    dotted_has_dot(module, name);
    if has_key(origins, name) {
        let i = crate::table::key_index(origins, name);
        assert(origins[i].1.contains('.'));
    }
}

proof fn qualified_keeps(
    module: Seq<char>,
    prefix: Seq<char>,
    names: Map<Seq<char>, Seq<char>>,
    canonical: Seq<char>,
    name: Seq<char>,
)
    ensures
        kept(names, with_qualified(module, prefix, names, canonical, name)),
        with_qualified(module, prefix, names, canonical, name).dom().contains(
            dotted(module, name),
        ),
        with_qualified(module, prefix, names, canonical, name).dom().contains(
            dotted(prefix, name),
        ),
        canonical.contains('.') && all_dotted(names) ==> all_dotted(
            with_qualified(module, prefix, names, canonical, name),
        ),
{
    dotted_has_dot(module, name);
    dotted_has_dot(prefix, name);
}

proof fn methods_keep(
    module: Seq<char>,
    prefix: Seq<char>,
    trait_name: Seq<char>,
    trait_canonical: Seq<char>,
    acc: Map<Seq<char>, Seq<char>>,
    items: Seq<MethodModel>,
)
    ensures
        kept(acc, with_qualified_methods(module, prefix, trait_name, trait_canonical, acc, items)),
        all_dotted(acc) ==> all_dotted(
            with_qualified_methods(module, prefix, trait_name, trait_canonical, acc, items),
        ),
    decreases items.len(),
{
    if items.len() > 0 {
        methods_keep(module, prefix, trait_name, trait_canonical, acc, items.drop_last());
        dotted_has_dot(trait_canonical, items.last().name);
        dotted_has_dot(dotted(module, trait_name), items.last().name);
        dotted_has_dot(dotted(prefix, trait_name), items.last().name);
    }
}

/// A name under the module's name and under the prefix of the import.
pub open spec fn in_both_forms(
    m: Map<Seq<char>, Seq<char>>,
    module: Seq<char>,
    prefix: Seq<char>,
    name: Seq<char>,
) -> bool {
    m.dom().contains(dotted(module, name)) && m.dom().contains(dotted(prefix, name))
}

proof fn with_imported_traits_keep(
    x: ExportsModel,
    module: Seq<char>,
    prefix: Seq<char>,
    bare: bool,
    acc: ScopeModel,
    items: Seq<(Seq<char>, TraitModel)>,
)
    ensures
        scope_kept(acc, with_imported_traits(x, module, prefix, bare, acc, items)),
        !bare && origins_dotted(x) && none_bare(acc) ==> none_bare(
            with_imported_traits(x, module, prefix, bare, acc, items),
        ),
        forall|i: int|
            0 <= i < items.len() ==> #[trigger] in_both_forms(
                with_imported_traits(x, module, prefix, bare, acc, items).traits,
                module,
                prefix,
                items[i].0,
            ),
    decreases items.len(),
{
    if items.len() > 0 {
        let before = with_imported_traits(x, module, prefix, bare, acc, items.drop_last());
        let last = items.last();
        with_imported_traits_keep(x, module, prefix, bare, acc, items.drop_last());
        methods_keep(
            module,
            prefix,
            last.0,
            origin_of(x.trait_origins, module, last.0),
            before.values,
            last.1.methods,
        );
        if origins_dotted(x) {
            origin_has_dot(x.trait_origins, module, last.0);
        }
        qualified_keeps(
            module,
            prefix,
            before.traits,
            origin_of(x.trait_origins, module, last.0),
            last.0,
        );
        assert forall|i: int| 0 <= i < items.len() implies #[trigger] in_both_forms(
            with_imported_traits(x, module, prefix, bare, acc, items).traits,
            module,
            prefix,
            items[i].0,
        ) by {
            if i < items.len() - 1 {
                assert(items.drop_last()[i] == items[i]);
                assert(in_both_forms(before.traits, module, prefix, items.drop_last()[i].0));
            }
        }
    }
}

proof fn with_imported_effects_keep(
    x: ExportsModel,
    module: Seq<char>,
    prefix: Seq<char>,
    acc: ScopeModel,
    items: Seq<(Seq<char>, EffectModel)>,
)
    ensures
        scope_kept(acc, with_imported_effects(x, module, prefix, acc, items)),
        origins_dotted(x) && none_bare(acc) ==> none_bare(
            with_imported_effects(x, module, prefix, acc, items),
        ),
        forall|i: int|
            0 <= i < items.len() ==> #[trigger] in_both_forms(
                with_imported_effects(x, module, prefix, acc, items).effects,
                module,
                prefix,
                items[i].0,
            ),
    decreases items.len(),
{
    if items.len() > 0 {
        let before = with_imported_effects(x, module, prefix, acc, items.drop_last());
        let last = items.last();
        with_imported_effects_keep(x, module, prefix, acc, items.drop_last());
        if origins_dotted(x) {
            origin_has_dot(x.effect_origins, module, last.0);
        }
        qualified_keeps(
            module,
            prefix,
            before.effects,
            origin_of(x.effect_origins, module, last.0),
            last.0,
        );
        assert forall|i: int| 0 <= i < items.len() implies #[trigger] in_both_forms(
            with_imported_effects(x, module, prefix, acc, items).effects,
            module,
            prefix,
            items[i].0,
        ) by {
            if i < items.len() - 1 {
                assert(items.drop_last()[i] == items[i]);
                assert(in_both_forms(before.effects, module, prefix, items.drop_last()[i].0));
            }
        }
    }
}

proof fn with_imported_handlers_keep(
    x: ExportsModel,
    module: Seq<char>,
    prefix: Seq<char>,
    acc: ScopeModel,
    items: Seq<(Seq<char>, HandlerModel)>,
)
    ensures
        scope_kept(acc, with_imported_handlers(x, module, prefix, acc, items)),
        origins_dotted(x) && none_bare(acc) ==> none_bare(
            with_imported_handlers(x, module, prefix, acc, items),
        ),
        forall|i: int|
            0 <= i < items.len() ==> #[trigger] in_both_forms(
                with_imported_handlers(x, module, prefix, acc, items).handlers,
                module,
                prefix,
                items[i].0,
            ),
    decreases items.len(),
{
    if items.len() > 0 {
        let before = with_imported_handlers(x, module, prefix, acc, items.drop_last());
        let last = items.last();
        with_imported_handlers_keep(x, module, prefix, acc, items.drop_last());
        if origins_dotted(x) {
            origin_has_dot(x.handler_origins, module, last.0);
        }
        qualified_keeps(
            module,
            prefix,
            before.handlers,
            origin_of(x.handler_origins, module, last.0),
            last.0,
        );
        assert forall|i: int| 0 <= i < items.len() implies #[trigger] in_both_forms(
            with_imported_handlers(x, module, prefix, acc, items).handlers,
            module,
            prefix,
            items[i].0,
        ) by {
            if i < items.len() - 1 {
                assert(items.drop_last()[i] == items[i]);
                assert(in_both_forms(before.handlers, module, prefix, items.drop_last()[i].0));
            }
        }
    }
}

proof fn with_imported_values_keep(
    x: ExportsModel,
    module: Seq<char>,
    prefix: Seq<char>,
    acc: ScopeModel,
    items: Seq<(Seq<char>, SchemeModel)>,
)
    ensures
        scope_kept(acc, with_imported_values(x, module, prefix, acc, items)),
        origins_dotted(x) && none_bare(acc) ==> none_bare(
            with_imported_values(x, module, prefix, acc, items),
        ),
        forall|i: int|
            0 <= i < items.len() ==> #[trigger] in_both_forms(
                with_imported_values(x, module, prefix, acc, items).values,
                module,
                prefix,
                items[i].0,
            ),
    decreases items.len(),
{
    if items.len() > 0 {
        let before = with_imported_values(x, module, prefix, acc, items.drop_last());
        let last = items.last();
        with_imported_values_keep(x, module, prefix, acc, items.drop_last());
        if origins_dotted(x) {
            origin_has_dot(x.binding_origins, module, last.0);
        }
        qualified_keeps(
            module,
            prefix,
            before.values,
            origin_of(x.binding_origins, module, last.0),
            last.0,
        );
        assert forall|i: int| 0 <= i < items.len() implies #[trigger] in_both_forms(
            with_imported_values(x, module, prefix, acc, items).values,
            module,
            prefix,
            items[i].0,
        ) by {
            if i < items.len() - 1 {
                assert(items.drop_last()[i] == items[i]);
                assert(in_both_forms(before.values, module, prefix, items.drop_last()[i].0));
            }
        }
    }
}

proof fn with_imported_types_keep(
    x: ExportsModel,
    module: Seq<char>,
    prefix: Seq<char>,
    acc: ScopeModel,
    items: Seq<(Seq<char>, usize)>,
)
    ensures
        scope_kept(acc, with_imported_types(x, module, prefix, acc, items)),
        origins_dotted(x) && none_bare(acc) ==> none_bare(
            with_imported_types(x, module, prefix, acc, items),
        ),
        forall|i: int|
            0 <= i < items.len() ==> #[trigger] in_both_forms(
                with_imported_types(x, module, prefix, acc, items).types,
                module,
                prefix,
                items[i].0,
            ),
    decreases items.len(),
{
    if items.len() > 0 {
        let before = with_imported_types(x, module, prefix, acc, items.drop_last());
        let last = items.last();
        with_imported_types_keep(x, module, prefix, acc, items.drop_last());
        if origins_dotted(x) {
            origin_has_dot(x.type_origins, module, last.0);
        }
        qualified_keeps(
            module,
            prefix,
            before.types,
            origin_of(x.type_origins, module, last.0),
            last.0,
        );
        assert forall|i: int| 0 <= i < items.len() implies #[trigger] in_both_forms(
            with_imported_types(x, module, prefix, acc, items).types,
            module,
            prefix,
            items[i].0,
        ) by {
            if i < items.len() - 1 {
                assert(items.drop_last()[i] == items[i]);
                assert(in_both_forms(before.types, module, prefix, items.drop_last()[i].0));
            }
        }
    }
}

proof fn with_imported_ctors_of_keep(
    x: ExportsModel,
    module: Seq<char>,
    prefix: Seq<char>,
    acc: ScopeModel,
    items: Seq<Seq<char>>,
)
    ensures
        scope_kept(acc, with_imported_ctors_of(x, module, prefix, acc, items)),
        origins_dotted(x) && none_bare(acc) ==> none_bare(
            with_imported_ctors_of(x, module, prefix, acc, items),
        ),
    decreases items.len(),
{
    if items.len() > 0 {
        let before = with_imported_ctors_of(x, module, prefix, acc, items.drop_last());
        let last = items.last();
        with_imported_ctors_of_keep(x, module, prefix, acc, items.drop_last());
        if origins_dotted(x) {
            origin_has_dot(x.binding_origins, module, last);
        }
        qualified_keeps(
            module,
            prefix,
            before.constructors,
            origin_of(x.binding_origins, module, last),
            last,
        );
    }
}

proof fn with_imported_ctors_keep(
    x: ExportsModel,
    module: Seq<char>,
    prefix: Seq<char>,
    acc: ScopeModel,
    items: Seq<(Seq<char>, Seq<Seq<char>>)>,
)
    ensures
        scope_kept(acc, with_imported_ctors(x, module, prefix, acc, items)),
        origins_dotted(x) && none_bare(acc) ==> none_bare(
            with_imported_ctors(x, module, prefix, acc, items),
        ),
    decreases items.len(),
{
    if items.len() > 0 {
        let before = with_imported_ctors(x, module, prefix, acc, items.drop_last());
        let last = items.last();
        with_imported_ctors_keep(x, module, prefix, acc, items.drop_last());
        with_imported_ctors_of_keep(x, module, prefix, before, last.1);
    }
}

proof fn with_builtin_types_keep(
    module: Seq<char>,
    prefix: Seq<char>,
    acc: ScopeModel,
    items: Seq<(Seq<char>, Seq<char>)>,
)
    ensures
        scope_kept(acc, with_builtin_types(module, prefix, acc, items)),
        true && none_bare(acc) ==> none_bare(with_builtin_types(module, prefix, acc, items)),
    decreases items.len(),
{
    if items.len() > 0 {
        let before = with_builtin_types(module, prefix, acc, items.drop_last());
        let last = items.last();
        with_builtin_types_keep(module, prefix, acc, items.drop_last());
        dotted_has_dot(prefix, last.0);
        if crate::text::before_last_dot(last.1) == Some(module) {
            canonical_has_dot(last.1);
        }
    }
}

proof fn canonical_has_dot(name: Seq<char>)
    requires
        crate::text::before_last_dot(name) is Some,
    ensures
        name.contains('.'),
{
}

proof fn names_keep(x: ExportsModel, module: Seq<char>, prefix: Seq<char>, bare: bool)
    ensures
        ({
            let s = imported_names(x, module, prefix, bare);
            &&& !bare && origins_dotted(x) ==> none_bare(s)
            &&& forall|i: int|
                0 <= i < x.bindings.len() ==> #[trigger] in_both_forms(
                    s.values,
                    module,
                    prefix,
                    x.bindings[i].0,
                )
            &&& forall|i: int|
                0 <= i < x.type_arity.len() ==> #[trigger] in_both_forms(
                    s.types,
                    module,
                    prefix,
                    x.type_arity[i].0,
                )
            &&& forall|i: int|
                0 <= i < x.traits.len() ==> #[trigger] in_both_forms(
                    s.traits,
                    module,
                    prefix,
                    x.traits[i].0,
                )
            &&& forall|i: int|
                0 <= i < x.effects.len() ==> #[trigger] in_both_forms(
                    s.effects,
                    module,
                    prefix,
                    x.effects[i].0,
                )
            &&& forall|i: int|
                0 <= i < x.handlers.len() ==> #[trigger] in_both_forms(
                    s.handlers,
                    module,
                    prefix,
                    x.handlers[i].0,
                )
        }),
{
    let s0 = empty_scope();
    let s1 = with_imported_traits(x, module, prefix, bare, s0, x.traits);
    let s2 = with_imported_effects(x, module, prefix, s1, x.effects);
    let s3 = with_imported_handlers(x, module, prefix, s2, x.handlers);
    let s4 = with_imported_values(x, module, prefix, s3, x.bindings);
    let s5 = with_imported_ctors(x, module, prefix, s4, x.type_constructors);
    let s6 = with_imported_types(x, module, prefix, s5, x.type_arity);
    let s7 = with_builtin_types(module, prefix, s6, builtin_types());
    with_imported_traits_keep(x, module, prefix, bare, s0, x.traits);
    with_imported_effects_keep(x, module, prefix, s1, x.effects);
    with_imported_handlers_keep(x, module, prefix, s2, x.handlers);
    with_imported_values_keep(x, module, prefix, s3, x.bindings);
    with_imported_ctors_keep(x, module, prefix, s4, x.type_constructors);
    with_imported_types_keep(x, module, prefix, s5, x.type_arity);
    with_builtin_types_keep(module, prefix, s6, builtin_types());
    assert(s7 == imported_names(x, module, prefix, bare));
    assert forall|i: int| 0 <= i < x.bindings.len() implies #[trigger] in_both_forms(
        s7.values,
        module,
        prefix,
        x.bindings[i].0,
    ) by {
        assert(in_both_forms(s4.values, module, prefix, x.bindings[i].0));
    }
    assert forall|i: int| 0 <= i < x.type_arity.len() implies #[trigger] in_both_forms(
        s7.types,
        module,
        prefix,
        x.type_arity[i].0,
    ) by {
        assert(in_both_forms(s6.types, module, prefix, x.type_arity[i].0));
    }
    assert forall|i: int| 0 <= i < x.traits.len() implies #[trigger] in_both_forms(
        s7.traits,
        module,
        prefix,
        x.traits[i].0,
    ) by {
        assert(in_both_forms(s1.traits, module, prefix, x.traits[i].0));
    }
    assert forall|i: int| 0 <= i < x.effects.len() implies #[trigger] in_both_forms(
        s7.effects,
        module,
        prefix,
        x.effects[i].0,
    ) by {
        assert(in_both_forms(s2.effects, module, prefix, x.effects[i].0));
    }
    assert forall|i: int| 0 <= i < x.handlers.len() implies #[trigger] in_both_forms(
        s7.handlers,
        module,
        prefix,
        x.handlers[i].0,
    ) by {
        assert(in_both_forms(s3.handlers, module, prefix, x.handlers[i].0));
    }
}

proof fn with_bare_ctors_of_keep(
    x: ExportsModel,
    module: Seq<char>,
    acc: ScopeModel,
    items: Seq<Seq<char>>,
)
    ensures
        scope_kept(acc, with_bare_ctors_of(x, module, acc, items)),
    decreases items.len(),
{
    if items.len() > 0 {
        with_bare_ctors_of_keep(x, module, acc, items.drop_last());
    }
}

proof fn type_item_keeps(
    x: ExportsModel,
    module: Seq<char>,
    s: ScopeModel,
    name: Seq<char>,
    surface: Seq<char>,
)
    ensures
        scope_kept(s, crate::import_scope::with_type_item(x, module, s, name, surface)),
{
    let value = origin_of(x.binding_origins, module, name);
    let s1 = if has_key(x.bindings, name) {
        ScopeModel { values: crate::table::with_new(s.values, surface, value), ..s }
    } else {
        s
    };
    let s2 = ScopeModel {
        types: crate::table::with_new(
            s1.types,
            surface,
            origin_of(x.type_origins, module, name),
        ),
        ..s1
    };
    assert(scope_kept(s, s2));
    if let Some(ctors) = at_key(x.type_constructors, name) {
        with_bare_ctors_of_keep(x, module, s2, ctors);
    }
    let s3 = match at_key(x.type_constructors, name) {
        Some(ctors) => with_bare_ctors_of(x, module, s2, ctors),
        None => s2,
    };
    assert(scope_kept(s, s3));
    let s4 = if crate::import_scope::is_ctor_of(x.type_constructors, name) && has_key(
        x.bindings,
        name,
    ) {
        ScopeModel {
            constructors: crate::table::with_new(s3.constructors, surface, value),
            values: crate::table::with_new(s3.values, surface, value),
            ..s3
        }
    } else {
        s3
    };
    assert(scope_kept(s, s4));
}

proof fn with_items_keep(
    x: ExportsModel,
    module: Seq<char>,
    prefix: Seq<char>,
    acc: ScopeModel,
    items: Seq<ExposedItem>,
)
    ensures
        with_items(x, module, prefix, acc, items) matches Ok(s) ==> scope_kept(acc, s),
    decreases items.len(),
{
    if items.len() > 0 {
        with_items_keep(x, module, prefix, acc, items.drop_last());
        if let Ok(s) = with_items(x, module, prefix, acc, items.drop_last()) {
            let item = items.last();
            type_item_keeps(
                x,
                module,
                s,
                item.name@,
                crate::ast::surface_of(item),
            );
        }
    }
}

/// Whatever it exposes, an import brings every exported value, type, trait, effect
/// and handler into scope under the name of the module and under its prefix.
pub proof fn exports_are_in_scope_qualified(
    x: ExportsModel,
    module: Seq<char>,
    prefix: Seq<char>,
    exposing: Option<Seq<ExposedItem>>,
)
    requires
        import_scope(x, module, prefix, exposing) is Ok,
    ensures
        ({
            let s = import_scope(x, module, prefix, exposing)->Ok_0;
            &&& forall|i: int|
                0 <= i < x.bindings.len() ==> #[trigger] in_both_forms(
                    s.values,
                    module,
                    prefix,
                    x.bindings[i].0,
                )
            &&& forall|i: int|
                0 <= i < x.type_arity.len() ==> #[trigger] in_both_forms(
                    s.types,
                    module,
                    prefix,
                    x.type_arity[i].0,
                )
            &&& forall|i: int|
                0 <= i < x.traits.len() ==> #[trigger] in_both_forms(
                    s.traits,
                    module,
                    prefix,
                    x.traits[i].0,
                )
            &&& forall|i: int|
                0 <= i < x.effects.len() ==> #[trigger] in_both_forms(
                    s.effects,
                    module,
                    prefix,
                    x.effects[i].0,
                )
            &&& forall|i: int|
                0 <= i < x.handlers.len() ==> #[trigger] in_both_forms(
                    s.handlers,
                    module,
                    prefix,
                    x.handlers[i].0,
                )
        }),
{
    let names = imported_names(x, module, prefix, exposing is None);
    let s = import_scope(x, module, prefix, exposing)->Ok_0;
    names_keep(x, module, prefix, exposing is None);
    if let Some(items) = exposing {
        with_items_keep(x, module, prefix, names, items);
    }
    assert(scope_kept(names, s));
    assert forall|i: int| 0 <= i < x.bindings.len() implies #[trigger] in_both_forms(
        s.values,
        module,
        prefix,
        x.bindings[i].0,
    ) by {
        assert(in_both_forms(names.values, module, prefix, x.bindings[i].0));
    }
    assert forall|i: int| 0 <= i < x.type_arity.len() implies #[trigger] in_both_forms(
        s.types,
        module,
        prefix,
        x.type_arity[i].0,
    ) by {
        assert(in_both_forms(names.types, module, prefix, x.type_arity[i].0));
    }
    assert forall|i: int| 0 <= i < x.traits.len() implies #[trigger] in_both_forms(
        s.traits,
        module,
        prefix,
        x.traits[i].0,
    ) by {
        assert(in_both_forms(names.traits, module, prefix, x.traits[i].0));
    }
    assert forall|i: int| 0 <= i < x.effects.len() implies #[trigger] in_both_forms(
        s.effects,
        module,
        prefix,
        x.effects[i].0,
    ) by {
        assert(in_both_forms(names.effects, module, prefix, x.effects[i].0));
    }
    assert forall|i: int| 0 <= i < x.handlers.len() implies #[trigger] in_both_forms(
        s.handlers,
        module,
        prefix,
        x.handlers[i].0,
    ) by {
        assert(in_both_forms(names.handlers, module, prefix, x.handlers[i].0));
    }
}

/// An import that exposes an empty list brings no bare names into scope.
pub proof fn only_exposed_names_are_bare(
    x: ExportsModel,
    module: Seq<char>,
    prefix: Seq<char>,
)
    requires
        origins_dotted(x),
    ensures
        import_scope(x, module, prefix, Some(Seq::empty())) matches Ok(s) && none_bare(s),
{
    names_keep(x, module, prefix, false);
}

/// Whether a module exports a name that an import exposes.
pub open spec fn is_exported(x: ExportsModel, module: Seq<char>, name: Seq<char>) -> bool {
    if names_type(name) {
        exports_type_name(x, module, name)
    } else {
        exports_value_name(x, name)
    }
}

/// An import succeeds just where every name that it exposes is exported.
pub proof fn exposed_names_are_exported(
    x: ExportsModel,
    module: Seq<char>,
    prefix: Seq<char>,
    items: Seq<ExposedItem>,
)
    ensures
        import_scope(x, module, prefix, Some(items)) is Ok <==> forall|i: int|
            0 <= i < items.len() ==> is_exported(x, module, (#[trigger] items[i]).name@),
{
    items_are_exported(x, module, prefix, imported_names(x, module, prefix, false), items);
}

proof fn items_are_exported(
    x: ExportsModel,
    module: Seq<char>,
    prefix: Seq<char>,
    acc: ScopeModel,
    items: Seq<ExposedItem>,
)
    ensures
        with_items(x, module, prefix, acc, items) is Ok <==> forall|i: int|
            0 <= i < items.len() ==> is_exported(x, module, (#[trigger] items[i]).name@),
    decreases items.len(),
{
    if items.len() > 0 {
        let rest = items.drop_last();
        items_are_exported(x, module, prefix, acc, rest);
        assert(items[items.len() - 1] == items.last());
        if with_items(x, module, prefix, acc, items) is Ok {
            assert forall|i: int| 0 <= i < items.len() implies is_exported(
                x,
                module,
                (#[trigger] items[i]).name@,
            ) by {
                if i < rest.len() {
                    assert(rest[i] == items[i]);
                }
            }
        }
        if forall|i: int|
            0 <= i < items.len() ==> is_exported(x, module, (#[trigger] items[i]).name@) {
            assert forall|i: int| 0 <= i < rest.len() implies is_exported(
                x,
                module,
                (#[trigger] rest[i]).name@,
            ) by {
                assert(rest[i] == items[i]);
            }
            assert(is_exported(x, module, items[items.len() - 1].name@));
        }
    }
}

/// Exports without the constructors of private types.
pub open spec fn public_only(x: ExportsModel) -> ExportsModel {
    ExportsModel { inlinable_constructors: Seq::empty(), ..x }
}

proof fn public_traits(
    x: ExportsModel,
    module: Seq<char>,
    prefix: Seq<char>,
    bare: bool,
    acc: ScopeModel,
    items: Seq<(Seq<char>, TraitModel)>,
)
    ensures
        with_imported_traits(
            public_only(x),
            module,
            prefix,
            bare,
            acc,
            items,
        ) == with_imported_traits(x, module, prefix, bare, acc, items),
    decreases items.len(),
{
    if items.len() > 0 {
        public_traits(x, module, prefix, bare, acc, items.drop_last());
    }
}

proof fn public_effects(
    x: ExportsModel,
    module: Seq<char>,
    prefix: Seq<char>,
    acc: ScopeModel,
    items: Seq<(Seq<char>, EffectModel)>,
)
    ensures
        with_imported_effects(
            public_only(x),
            module,
            prefix,
            acc,
            items,
        ) == with_imported_effects(x, module, prefix, acc, items),
    decreases items.len(),
{
    if items.len() > 0 {
        public_effects(x, module, prefix, acc, items.drop_last());
    }
}

proof fn public_handlers(
    x: ExportsModel,
    module: Seq<char>,
    prefix: Seq<char>,
    acc: ScopeModel,
    items: Seq<(Seq<char>, HandlerModel)>,
)
    ensures
        with_imported_handlers(
            public_only(x),
            module,
            prefix,
            acc,
            items,
        ) == with_imported_handlers(x, module, prefix, acc, items),
    decreases items.len(),
{
    if items.len() > 0 {
        public_handlers(x, module, prefix, acc, items.drop_last());
    }
}

proof fn public_values(
    x: ExportsModel,
    module: Seq<char>,
    prefix: Seq<char>,
    acc: ScopeModel,
    items: Seq<(Seq<char>, SchemeModel)>,
)
    ensures
        with_imported_values(
            public_only(x),
            module,
            prefix,
            acc,
            items,
        ) == with_imported_values(x, module, prefix, acc, items),
    decreases items.len(),
{
    if items.len() > 0 {
        public_values(x, module, prefix, acc, items.drop_last());
    }
}

proof fn public_ctors_of(
    x: ExportsModel,
    module: Seq<char>,
    prefix: Seq<char>,
    acc: ScopeModel,
    items: Seq<Seq<char>>,
)
    ensures
        with_imported_ctors_of(
            public_only(x),
            module,
            prefix,
            acc,
            items,
        ) == with_imported_ctors_of(x, module, prefix, acc, items),
    decreases items.len(),
{
    if items.len() > 0 {
        public_ctors_of(x, module, prefix, acc, items.drop_last());
    }
}

proof fn public_ctors(
    x: ExportsModel,
    module: Seq<char>,
    prefix: Seq<char>,
    acc: ScopeModel,
    items: Seq<(Seq<char>, Seq<Seq<char>>)>,
)
    ensures
        with_imported_ctors(
            public_only(x),
            module,
            prefix,
            acc,
            items,
        ) == with_imported_ctors(x, module, prefix, acc, items),
    decreases items.len(),
{
    if items.len() > 0 {
        public_ctors(x, module, prefix, acc, items.drop_last());
        public_ctors_of(
            x,
            module,
            prefix,
            with_imported_ctors(x, module, prefix, acc, items.drop_last()),
            items.last().1,
        );
    }
}

proof fn public_types(
    x: ExportsModel,
    module: Seq<char>,
    prefix: Seq<char>,
    acc: ScopeModel,
    items: Seq<(Seq<char>, usize)>,
)
    ensures
        with_imported_types(
            public_only(x),
            module,
            prefix,
            acc,
            items,
        ) == with_imported_types(x, module, prefix, acc, items),
    decreases items.len(),
{
    if items.len() > 0 {
        public_types(x, module, prefix, acc, items.drop_last());
    }
}

proof fn public_bare_ctors(
    x: ExportsModel,
    module: Seq<char>,
    acc: ScopeModel,
    items: Seq<Seq<char>>,
)
    ensures
        with_bare_ctors_of(
            public_only(x),
            module,
            acc,
            items,
        ) == with_bare_ctors_of(x, module, acc, items),
    decreases items.len(),
{
    if items.len() > 0 {
        public_bare_ctors(x, module, acc, items.drop_last());
    }
}

proof fn public_type_item(
    x: ExportsModel,
    module: Seq<char>,
    s: ScopeModel,
    name: Seq<char>,
    surface: Seq<char>,
)
    ensures
        with_type_item(public_only(x), module, s, name, surface) == with_type_item(
            x,
            module,
            s,
            name,
            surface,
        ),
{
    if let Some(ctors) = at_key(x.type_constructors, name) {
        assert forall|s1: ScopeModel| true implies with_bare_ctors_of(
            public_only(x),
            module,
            s1,
            ctors,
        ) == #[trigger] with_bare_ctors_of(x, module, s1, ctors) by {
            public_bare_ctors(x, module, s1, ctors);
        }
    }
}

proof fn public_items(
    x: ExportsModel,
    module: Seq<char>,
    prefix: Seq<char>,
    acc: ScopeModel,
    items: Seq<ExposedItem>,
)
    ensures
        with_items(public_only(x), module, prefix, acc, items) == with_items(
            x,
            module,
            prefix,
            acc,
            items,
        ),
    decreases items.len(),
{
    if items.len() > 0 {
        public_items(x, module, prefix, acc, items.drop_last());
        if let Ok(before) = with_items(x, module, prefix, acc, items.drop_last()) {
            let item = items.last();
            public_type_item(x, module, before, item.name@, surface_of(item));
        }
    }
}

/// The constructors of private types, which are exported for the bodies of default
/// methods, never come into scope: an import brings the same names without them.
pub proof fn private_constructors_stay_private(
    x: ExportsModel,
    module: Seq<char>,
    prefix: Seq<char>,
    exposing: Option<Seq<ExposedItem>>,
)
    ensures
        import_scope(public_only(x), module, prefix, exposing) == import_scope(
            x,
            module,
            prefix,
            exposing,
        ),
{
    let bare = exposing is None;
    let s = empty_scope();
    public_traits(x, module, prefix, bare, s, x.traits);
    let s = with_imported_traits(x, module, prefix, bare, s, x.traits);
    public_effects(x, module, prefix, s, x.effects);
    let s = with_imported_effects(x, module, prefix, s, x.effects);
    public_handlers(x, module, prefix, s, x.handlers);
    let s = with_imported_handlers(x, module, prefix, s, x.handlers);
    public_values(x, module, prefix, s, x.bindings);
    let s = with_imported_values(x, module, prefix, s, x.bindings);
    public_ctors(x, module, prefix, s, x.type_constructors);
    let s = with_imported_ctors(x, module, prefix, s, x.type_constructors);
    public_types(x, module, prefix, s, x.type_arity);
    assert(imported_names(public_only(x), module, prefix, bare) == imported_names(
        x,
        module,
        prefix,
        bare,
    ));
    if let Some(items) = exposing {
        public_items(x, module, prefix, imported_names(x, module, prefix, bare), items);
    }
}

} // verus!
