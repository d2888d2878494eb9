//! Import scopes from headers alone, for modules that import each other.

use vstd::prelude::*;
use crate::header::item_surface;
use crate::header_decls::{
    ExposedItemModel, ExposingModel, FunctionModel, HeaderExposedItem, HeaderExposing,
    HeaderFunction, HeaderImport, ImportModel, ModuleHeader,
};
use crate::header_names::{
    name_found, public_header_surface, resolve_header_surface_name, surface_of, Headers,
};
use crate::header_syntax::{group_header_models, HeaderTy, HeaderTypeExpr};
use crate::origins::{canonical_module, own_origins, with_origins};
use crate::scope::{canonicals, empty_scope, merged_scopes, BuilderModel, ScopeMap, ScopeModel};
use crate::sorting::{ordered, ordered_is, ordered_set};
use crate::surface::{
    CtorSurface, HeaderConstructorSurface, HeaderNamespace, HeaderResolved, HeaderSurface,
    HeaderTypeSurface, Resolved, Surface, TypeSurface,
};
use crate::table::{at_key, with_new, Table};
use crate::text::{
    after_last_dot, before_last_dot, concat, concat5, dot_join, dotted, last_segment,
    split_last_dot, text_eq,
};
use crate::values::{contains_name, outcome, push_value, reached, Dup};

verus! {

/// A name under its canonical form, qualified with the module, and qualified
/// with the import's prefix. Names that are there stay.
pub open spec fn with_qualified(
    module: Seq<char>,
    prefix: Seq<char>,
    names: Map<Seq<char>, Seq<char>>,
    canonical: Seq<char>,
    name: Seq<char>,
) -> Map<Seq<char>, Seq<char>> {
    let m1 = with_new(names, canonical, canonical);
    let m2 = with_new(m1, dotted(module, name), canonical);
    if prefix != module {
        with_new(m2, dotted(prefix, name), canonical)
    } else {
        m2
    }
}

/// Makes a name known under its qualified forms.
pub fn insert_qualified(
    module: &str,
    prefix: &str,
    names: &mut Table<String, String>,
    canonical: &str,
    name: &str,
)
    ensures
        final(names).deep_view() == with_qualified(
            module@,
            prefix@,
            old(names).deep_view(),
            canonical@,
            name@,
        ),
{
    names.insert_if_absent(canonical.to_owned(), canonical.to_owned());
    names.insert_if_absent(dot_join(module, name), canonical.to_owned());
    if !text_eq(prefix, module) {
        names.insert_if_absent(dot_join(prefix, name), canonical.to_owned());
    }
}

pub open spec fn with_qualified_value(
    module: Seq<char>,
    prefix: Seq<char>,
    s: ScopeModel,
    v: (Seq<char>, Seq<char>),
) -> ScopeModel {
    ScopeModel { values: with_qualified(module, prefix, s.values, v.1, v.0), ..s }
}

pub open spec fn with_new_builder(s: ScopeModel, builder: Option<BuilderModel>) -> ScopeModel {
    match builder {
        Some(b) => ScopeModel { record_builders: with_new(s.record_builders, b.context, b), ..s },
        None => s,
    }
}

pub open spec fn with_qualified_type(
    module: Seq<char>,
    prefix: Seq<char>,
    s: ScopeModel,
    t: (Seq<char>, TypeSurface),
) -> ScopeModel {
    with_new_builder(
        ScopeModel {
            types: with_qualified(module, prefix, s.types, t.1.canonical, t.0),
            ..s
        },
        t.1.record_builder,
    )
}

pub open spec fn with_qualified_ctor(
    module: Seq<char>,
    prefix: Seq<char>,
    s: ScopeModel,
    c: (Seq<char>, Seq<char>),
) -> ScopeModel {
    ScopeModel { constructors: with_qualified(module, prefix, s.constructors, c.1, c.0), ..s }
}

pub open spec fn with_qualified_values(
    module: Seq<char>,
    prefix: Seq<char>,
    acc: ScopeModel,
    items: Seq<(Seq<char>, Seq<char>)>,
) -> ScopeModel
    decreases items.len(),
{
    if items.len() == 0 {
        acc
    } else {
        with_qualified_value(
            module,
            prefix,
            with_qualified_values(module, prefix, acc, items.drop_last()),
            items.last(),
        )
    }
}

pub open spec fn with_qualified_types(
    module: Seq<char>,
    prefix: Seq<char>,
    acc: ScopeModel,
    items: Seq<(Seq<char>, TypeSurface)>,
) -> ScopeModel
    decreases items.len(),
{
    if items.len() == 0 {
        acc
    } else {
        with_qualified_type(
            module,
            prefix,
            with_qualified_types(module, prefix, acc, items.drop_last()),
            items.last(),
        )
    }
}

pub open spec fn with_qualified_ctors(
    module: Seq<char>,
    prefix: Seq<char>,
    acc: ScopeModel,
    items: Seq<(Seq<char>, Seq<char>)>,
) -> ScopeModel
    decreases items.len(),
{
    if items.len() == 0 {
        acc
    } else {
        with_qualified_ctor(
            module,
            prefix,
            with_qualified_ctors(module, prefix, acc, items.drop_last()),
            items.last(),
        )
    }
}

/// A scope with the qualified forms of every name of a surface.
pub open spec fn with_qualified_surface(
    module: Seq<char>,
    prefix: Seq<char>,
    s: ScopeModel,
    surface: Surface,
) -> ScopeModel {
    let s = with_qualified_values(module, prefix, s, surface.values);
    let s = with_qualified_types(module, prefix, s, surface.types);
    with_qualified_ctors(module, prefix, s, surface.constructors)
}

fn add_builder(scope: &mut ScopeMap, builder: &Option<crate::scope::RecordBuilderInfo>)
    ensures
        final(scope).deep_view() == with_new_builder(
            old(scope).deep_view(),
            builder.deep_view(),
        ),
{
    if let Some(b) = builder {
        scope.record_builders.insert_if_absent(b.context.clone(), b.dup());
    }
}

fn add_qualified_values(
    module: &str,
    prefix: &str,
    acc: &mut ScopeMap,
    items: &Table<String, String>,
)
    ensures
        final(acc).deep_view() == with_qualified_values(
            module@,
            prefix@,
            old(acc).deep_view(),
            items.order(),
        ),
{
    let ghost a0 = acc.deep_view();
    let ghost all = items.order();
    let n = items.len();
    let mut i: usize = 0;
    assert(all.take(0) =~= Seq::empty());
    while i < n
        invariant
            i <= n,
            all == items.order(),
            n == all.len(),
            acc.deep_view() == with_qualified_values(module@, prefix@, a0, all.take(i as int)),
        decreases n - i,
    {
        proof {
            assert(all.take(i + 1).drop_last() =~= all.take(i as int));
            assert(all.take(i + 1).last() == all[i as int]);
        }
        insert_qualified(
            module,
            prefix,
            &mut acc.values,
            items.value(i).as_str(),
            items.key(i).as_str(),
        );
        i = i + 1;
    }
    assert(all.take(i as int) =~= all);
}

fn add_qualified_types(
    module: &str,
    prefix: &str,
    acc: &mut ScopeMap,
    items: &Table<String, HeaderTypeSurface>,
)
    ensures
        final(acc).deep_view() == with_qualified_types(
            module@,
            prefix@,
            old(acc).deep_view(),
            items.order(),
        ),
{
    let ghost a0 = acc.deep_view();
    let ghost all = items.order();
    let n = items.len();
    let mut i: usize = 0;
    assert(all.take(0) =~= Seq::empty());
    while i < n
        invariant
            i <= n,
            all == items.order(),
            n == all.len(),
            acc.deep_view() == with_qualified_types(module@, prefix@, a0, all.take(i as int)),
        decreases n - i,
    {
        proof {
            assert(all.take(i + 1).drop_last() =~= all.take(i as int));
            assert(all.take(i + 1).last() == all[i as int]);
        }
        let info = items.value(i);
        insert_qualified(
            module,
            prefix,
            &mut acc.types,
            info.canonical.as_str(),
            items.key(i).as_str(),
        );
        add_builder(acc, &info.record_builder);
        i = i + 1;
    }
    assert(all.take(i as int) =~= all);
}

fn add_qualified_ctors(
    module: &str,
    prefix: &str,
    acc: &mut ScopeMap,
    items: &Table<String, String>,
)
    ensures
        final(acc).deep_view() == with_qualified_ctors(
            module@,
            prefix@,
            old(acc).deep_view(),
            items.order(),
        ),
{
    let ghost a0 = acc.deep_view();
    let ghost all = items.order();
    let n = items.len();
    let mut i: usize = 0;
    assert(all.take(0) =~= Seq::empty());
    while i < n
        invariant
            i <= n,
            all == items.order(),
            n == all.len(),
            acc.deep_view() == with_qualified_ctors(module@, prefix@, a0, all.take(i as int)),
        decreases n - i,
    {
        proof {
            assert(all.take(i + 1).drop_last() =~= all.take(i as int));
            assert(all.take(i + 1).last() == all[i as int]);
        }
        insert_qualified(
            module,
            prefix,
            &mut acc.constructors,
            items.value(i).as_str(),
            items.key(i).as_str(),
        );
        i = i + 1;
    }
    assert(all.take(i as int) =~= all);
}

fn insert_header_qualified_entries(
    module: &str,
    prefix: &str,
    scope: &mut ScopeMap,
    surface: &HeaderSurface,
)
    ensures
        final(scope).deep_view() == with_qualified_surface(
            module@,
            prefix@,
            old(scope).deep_view(),
            surface.deep_view(),
        ),
{
    add_qualified_values(module, prefix, scope, &surface.values);
    add_qualified_types(module, prefix, scope, &surface.types);
    add_qualified_ctors(module, prefix, scope, &surface.constructors);
}

/// Whether a written type speaks of effects.
pub open spec fn type_uses_effects(t: HeaderTy) -> bool
    decreases t,
{
    match t {
        HeaderTy::Arrow { from, to, effects, effect_row_vars } => effects.len() > 0
            || effect_row_vars.len() > 0 || type_uses_effects(*from) || type_uses_effects(*to),
        HeaderTy::App { func, arg } => type_uses_effects(*func) || type_uses_effects(*arg),
        HeaderTy::Record(fields) => any_uses_effects(fields),
        HeaderTy::Labeled { inner, .. } => type_uses_effects(*inner),
        HeaderTy::Named(_) | HeaderTy::Var(_) | HeaderTy::Symbol(_) => false,
    }
}

/// Whether one of some named types speaks of effects.
pub open spec fn any_uses_effects(fields: Seq<(Seq<char>, HeaderTy)>) -> bool
    decreases fields,
{
    exists|i: int| 0 <= i < fields.len() && type_uses_effects((#[trigger] fields[i]).1)
}

pub open spec fn function_uses_effects(f: FunctionModel) -> bool {
    f.effects.len() > 0 || f.effect_row_vars.len() > 0 || any_uses_effects(f.params)
        || type_uses_effects(f.return_type)
}

fn header_type_expr_uses_effects(t: &HeaderTypeExpr) -> (r: bool)
    ensures
        r == type_uses_effects(t.deep_view()),
    decreases t,
{
    broadcast use group_header_models;

    match t {
        HeaderTypeExpr::Arrow { from, to, effects, effect_row_vars } => {
            assert(effects.deep_view().len() == effects.len());
            assert(effect_row_vars.deep_view().len() == effect_row_vars.len());
            effects.len() > 0 || effect_row_vars.len() > 0 || header_type_expr_uses_effects(from)
                || header_type_expr_uses_effects(to)
        },
        HeaderTypeExpr::App { func, arg } => header_type_expr_uses_effects(func)
            || header_type_expr_uses_effects(arg),
        HeaderTypeExpr::Record(fields) => any_field_uses_effects(fields),
        HeaderTypeExpr::Labeled { inner, .. } => header_type_expr_uses_effects(inner),
        HeaderTypeExpr::Named(_) | HeaderTypeExpr::Var(_) | HeaderTypeExpr::Symbol(_) => false,
    }
}

fn any_field_uses_effects(fields: &Vec<(String, HeaderTypeExpr)>) -> (r: bool)
    ensures
        r == any_uses_effects(fields.deep_view()),
    decreases fields,
{
    let mut i: usize = 0;
    while i < fields.len()
        invariant
            i <= fields.len(),
            forall|j: int|
                0 <= j < i ==> !type_uses_effects((#[trigger] fields.deep_view()[j]).1),
        decreases fields.len() - i,
    {
        if header_type_expr_uses_effects(&fields[i].1) {
            assert(type_uses_effects(fields.deep_view()[i as int].1));
            return true;
        }
        i = i + 1;
    }
    false
}

fn header_function_uses_effects(f: &HeaderFunction) -> (r: bool)
    ensures
        r == function_uses_effects(f.deep_view()),
{
    assert(f.effects.deep_view().len() == f.effects.len());
    assert(f.effect_row_vars.deep_view().len() == f.effect_row_vars.len());
    f.effects.len() > 0 || f.effect_row_vars.len() > 0 || any_field_uses_effects(&f.params)
        || header_type_expr_uses_effects(&f.return_type)
}

pub open spec fn unsupported(kind: Seq<char>, name: Seq<char>, module: Seq<char>) -> Seq<char> {
    kind + " '"@ + name + "' from module '"@ + module
        + "' cannot be used across a circular import boundary; move it to a shared module"@
}

fn unsupported_cycle_import(name: &str, module: &str, kind: &str) -> (r: String)
    ensures
        r@ == unsupported(kind@, name@, module@),
{
    let start = concat5(kind, " '", name, "' from module '", module);
    concat(
        start.as_str(),
        "' cannot be used across a circular import boundary; move it to a shared module",
    )
}

/// Why a public function cannot be used by a module that it is in a cycle with,
/// if it cannot.
pub open spec fn boundary_error(headers: Headers, canonical: Seq<char>) -> Option<Seq<char>> {
    match before_last_dot(canonical) {
        None => None,
        Some(module) => {
            let name = last_segment(canonical);
            match at_key(headers, module) {
                None => None,
                Some(h) => match at_key(h.functions, name) {
                    None => None,
                    Some(f) => if !f.public {
                        None
                    } else if f.where_clause.len() > 0 {
                        Some(
                            "function '"@ + name + "' from module '"@ + module
                                + "' uses trait constraints that cannot cross a circular import boundary; move it to a shared module"@,
                        )
                    } else if function_uses_effects(f) {
                        Some(
                            "function '"@ + name + "' from module '"@ + module
                                + "' uses effects that cannot cross a circular import boundary; move it to a shared module"@,
                        )
                    } else {
                        None
                    },
                },
            }
        },
    }
}

fn unsupported_function_boundary(
    headers: &Table<String, ModuleHeader>,
    canonical: &str,
) -> (r: Option<String>)
    ensures
        r.deep_view() == boundary_error(headers.order(), canonical@),
{
    let (module, name) = match split_last_dot(canonical) {
        None => {
            return None;
        },
        Some(parts) => parts,
    };
    let header = match headers.named(module.as_str()) {
        None => {
            return None;
        },
        Some(h) => h,
    };
    let function = match header.functions.named(name.as_str()) {
        None => {
            return None;
        },
        Some(f) => f,
    };
    assert(function.where_clause.deep_view().len() == function.where_clause.len());
    if !function.public {
        None
    } else if function.where_clause.len() > 0 {
        Some(
            concat5(
                "function '",
                name.as_str(),
                "' from module '",
                module.as_str(),
                "' uses trait constraints that cannot cross a circular import boundary; move it to a shared module",
            ),
        )
    } else if header_function_uses_effects(function) {
        Some(
            concat5(
                "function '",
                name.as_str(),
                "' from module '",
                module.as_str(),
                "' uses effects that cannot cross a circular import boundary; move it to a shared module",
            ),
        )
    } else {
        None
    }
}

/// A name must not stand for something that cannot cross the boundary of a
/// cycle.
pub open spec fn barred(
    headers: Headers,
    module: Seq<char>,
    name: Seq<char>,
    space: HeaderNamespace,
    kind: Seq<char>,
) -> Result<(), Seq<char>> {
    match name_found(headers, module, name, space) {
        Err(e) => Err(e),
        Ok(Some(_)) => Err(unsupported(kind, name, module)),
        Ok(None) => Ok(()),
    }
}

fn check_barred(
    headers: &Table<String, ModuleHeader>,
    module: &str,
    name: &str,
    space: HeaderNamespace,
    kind: &str,
) -> (r: Result<(), String>)
    ensures
        barred(headers.order(), module@, name@, space, kind@) == reached(r, ()),
{
    match resolve_header_surface_name(headers, module, name, space) {
        Err(e) => Err(e),
        Ok(Some(_)) => Err(unsupported_cycle_import(name, module, kind)),
        Ok(None) => Ok(()),
    }
}

/// A scope with the value that an item names; and whether there is one.
pub open spec fn with_exposed_value(
    headers: Headers,
    module: Seq<char>,
    s: ScopeModel,
    item: ExposedItemModel,
) -> Result<(ScopeModel, bool), Seq<char>> {
    match name_found(headers, module, item.name, HeaderNamespace::Value) {
        Err(e) => Err(e),
        Ok(Some(Resolved::Canonical(canonical))) => match boundary_error(headers, canonical) {
            Some(e) => Err(e),
            None => Ok(
                (
                    ScopeModel {
                        values: with_new(s.values, item_surface(item), canonical),
                        ..s
                    },
                    true,
                ),
            ),
        },
        Ok(_) => Ok((s, false)),
    }
}

/// A scope with the constructor that an item names; and whether there is one.
pub open spec fn with_exposed_ctor(
    headers: Headers,
    module: Seq<char>,
    s: ScopeModel,
    item: ExposedItemModel,
) -> Result<(ScopeModel, bool), Seq<char>> {
    match name_found(headers, module, item.name, HeaderNamespace::Constructor) {
        Err(e) => Err(e),
        Ok(Some(Resolved::Canonical(canonical))) => Ok(
            (with_bare_ctor(s, CtorSurface { surface_name: item_surface(item), canonical }), true),
        ),
        Ok(_) => Ok((s, false)),
    }
}

/// A constructor under its bare name, as a constructor and as a value.
pub open spec fn with_bare_ctor(s: ScopeModel, c: CtorSurface) -> ScopeModel {
    ScopeModel {
        constructors: with_new(s.constructors, c.surface_name, c.canonical),
        values: with_new(s.values, c.surface_name, c.canonical),
        ..s
    }
}

pub open spec fn with_bare_ctors(acc: ScopeModel, items: Seq<CtorSurface>) -> ScopeModel
    decreases items.len(),
{
    if items.len() == 0 {
        acc
    } else {
        with_bare_ctor(with_bare_ctors(acc, items.drop_last()), items.last())
    }
}

/// A scope with the type that an item names, its constructors and its record
/// builder; and whether there is one.
pub open spec fn with_exposed_type(
    headers: Headers,
    module: Seq<char>,
    s: ScopeModel,
    item: ExposedItemModel,
) -> Result<(ScopeModel, bool), Seq<char>> {
    match name_found(headers, module, item.name, HeaderNamespace::Type) {
        Err(e) => Err(e),
        Ok(Some(Resolved::Type(info))) => Ok(
            (
                with_new_builder(
                    with_bare_ctors(
                        ScopeModel {
                            types: with_new(s.types, item_surface(item), info.canonical),
                            ..s
                        },
                        info.constructors,
                    ),
                    info.record_builder,
                ),
                true,
            ),
        ),
        Ok(_) => Ok((s, false)),
    }
}

/// Why an exposed name that stands for nothing is refused.
pub open spec fn missing_item(headers: Headers, module: Seq<char>, name: Seq<char>) -> Seq<char> {
    if at_key(headers, module) is Some && at_key(headers, module)->0.unannotated_functions.contains(
        name,
    ) {
        "function '"@ + name + "' from module '"@ + module
            + "' needs a type annotation to be used across a circular import boundary"@
    } else {
        "'"@ + name + "' is not exported by module '"@ + module + "'"@
    }
}

/// A scope with what an exposed item stands for. Handlers, traits and effects
/// cannot be exposed across a cycle.
pub open spec fn with_exposed(
    headers: Headers,
    module: Seq<char>,
    s: ScopeModel,
    item: ExposedItemModel,
) -> Result<ScopeModel, Seq<char>> {
    match barred(headers, module, item.name, HeaderNamespace::Handler, "handler"@) {
        Err(e) => Err(e),
        Ok(_) => match barred(headers, module, item.name, HeaderNamespace::Trait, "trait"@) {
            Err(e) => Err(e),
            Ok(_) => match barred(headers, module, item.name, HeaderNamespace::Effect, "effect"@) {
                Err(e) => Err(e),
                Ok(_) => match with_exposed_value(headers, module, s, item) {
                    Err(e) => Err(e),
                    Ok((s1, is_value)) => match with_exposed_ctor(headers, module, s1, item) {
                        Err(e) => Err(e),
                        Ok((s2, is_ctor)) => match with_exposed_type(headers, module, s2, item) {
                            Err(e) => Err(e),
                            Ok((s3, is_type)) => if is_value || is_ctor || is_type {
                                Ok(s3)
                            } else {
                                Err(missing_item(headers, module, item.name))
                            },
                        },
                    },
                },
            },
        },
    }
}

pub open spec fn with_all_exposed(
    headers: Headers,
    module: Seq<char>,
    acc: ScopeModel,
    items: Seq<ExposedItemModel>,
) -> Result<ScopeModel, Seq<char>>
    decreases items.len(),
{
    if items.len() == 0 {
        Ok(acc)
    } else {
        match with_all_exposed(headers, module, acc, items.drop_last()) {
            Ok(acc) => with_exposed(headers, module, acc, items.last()),
            Err(e) => Err(e),
        }
    }
}

/// The first failure is the outcome.
proof fn with_all_exposed_stops(
    headers: Headers,
    module: Seq<char>,
    acc: ScopeModel,
    items: Seq<ExposedItemModel>,
    n: int,
)
    requires
        0 <= n <= items.len(),
        with_all_exposed(headers, module, acc, items.take(n)) is Err,
    ensures
        with_all_exposed(headers, module, acc, items) == with_all_exposed(
            headers,
            module,
            acc,
            items.take(n),
        ),
    decreases items.len(),
{
    if n < items.len() {
        assert(items.drop_last().take(n) =~= items.take(n));
        with_all_exposed_stops(headers, module, acc, items.drop_last(), n);
    } else {
        assert(items.take(n) =~= items);
    }
}

fn add_bare_ctors(acc: &mut ScopeMap, items: &Vec<HeaderConstructorSurface>)
    ensures
        final(acc).deep_view() == with_bare_ctors(old(acc).deep_view(), items.deep_view()),
{
    let ghost a0 = acc.deep_view();
    let ghost all = items.deep_view();
    let mut i: usize = 0;
    assert(all.take(0) =~= Seq::empty());
    while i < items.len()
        invariant
            i <= items.len(),
            all == items.deep_view(),
            acc.deep_view() == with_bare_ctors(a0, all.take(i as int)),
        decreases items.len() - i,
    {
        proof {
            assert(all.take(i + 1).drop_last() =~= all.take(i as int));
            assert(all.take(i + 1).last() == all[i as int]);
        }
        let c = &items[i];
        acc.constructors.insert_if_absent(c.surface_name.clone(), c.canonical.clone());
        acc.values.insert_if_absent(c.surface_name.clone(), c.canonical.clone());
        i = i + 1;
    }
    assert(all.take(i as int) =~= all);
}

fn expose_value(
    headers: &Table<String, ModuleHeader>,
    module: &str,
    scope: &mut ScopeMap,
    item: &HeaderExposedItem,
) -> (r: Result<bool, String>)
    ensures
        with_exposed_value(
            headers.order(),
            module@,
            old(scope).deep_view(),
            item.deep_view(),
        ) == (match r {
            Ok(found) => Ok((final(scope).deep_view(), found)),
            Err(e) => Err(e@),
        }),
{
    match resolve_header_surface_name(
        headers,
        module,
        item.name.as_str(),
        HeaderNamespace::Value,
    ) {
        Err(e) => Err(e),
        Ok(Some(HeaderResolved::Canonical(canonical))) => {
            if let Some(e) = unsupported_function_boundary(headers, canonical.as_str()) {
                return Err(e);
            }
            scope.values.insert_if_absent(item.surface_name().clone(), canonical);
            Ok(true)
        },
        Ok(_) => Ok(false),
    }
}

fn expose_ctor(
    headers: &Table<String, ModuleHeader>,
    module: &str,
    scope: &mut ScopeMap,
    item: &HeaderExposedItem,
) -> (r: Result<bool, String>)
    ensures
        with_exposed_ctor(
            headers.order(),
            module@,
            old(scope).deep_view(),
            item.deep_view(),
        ) == (match r {
            Ok(found) => Ok((final(scope).deep_view(), found)),
            Err(e) => Err(e@),
        }),
{
    match resolve_header_surface_name(
        headers,
        module,
        item.name.as_str(),
        HeaderNamespace::Constructor,
    ) {
        Err(e) => Err(e),
        Ok(Some(HeaderResolved::Canonical(canonical))) => {
            scope.constructors.insert_if_absent(item.surface_name().clone(), canonical.clone());
            scope.values.insert_if_absent(item.surface_name().clone(), canonical);
            Ok(true)
        },
        Ok(_) => Ok(false),
    }
}

fn expose_type(
    headers: &Table<String, ModuleHeader>,
    module: &str,
    scope: &mut ScopeMap,
    item: &HeaderExposedItem,
) -> (r: Result<bool, String>)
    ensures
        with_exposed_type(
            headers.order(),
            module@,
            old(scope).deep_view(),
            item.deep_view(),
        ) == (match r {
            Ok(found) => Ok((final(scope).deep_view(), found)),
            Err(e) => Err(e@),
        }),
{
    match resolve_header_surface_name(
        headers,
        module,
        item.name.as_str(),
        HeaderNamespace::Type,
    ) {
        Err(e) => Err(e),
        Ok(Some(HeaderResolved::Type(info))) => {
            scope.types.insert_if_absent(item.surface_name().clone(), info.canonical.clone());
            add_bare_ctors(scope, &info.constructors);
            add_builder(scope, &info.record_builder);
            Ok(true)
        },
        Ok(_) => Ok(false),
    }
}

fn missing_item_error(
    headers: &Table<String, ModuleHeader>,
    module: &str,
    name: &str,
) -> (r: String)
    ensures
        r@ == missing_item(headers.order(), module@, name@),
{
    let unannotated = match headers.named(module) {
        Some(h) => contains_name(&h.unannotated_functions, name),
        None => false,
    };
    if unannotated {
        concat5(
            "function '",
            name,
            "' from module '",
            module,
            "' needs a type annotation to be used across a circular import boundary",
        )
    } else {
        concat5("'", name, "' is not exported by module '", module, "'")
    }
}

fn insert_header_exposed_item(
    headers: &Table<String, ModuleHeader>,
    module: &str,
    scope: &mut ScopeMap,
    item: &HeaderExposedItem,
) -> (r: Result<(), String>)
    ensures
        with_exposed(headers.order(), module@, old(scope).deep_view(), item.deep_view())
            == reached(r, final(scope).deep_view()),
{
    let name = item.name.as_str();
    if let Err(e) = check_barred(headers, module, name, HeaderNamespace::Handler, "handler") {
        return Err(e);
    }
    if let Err(e) = check_barred(headers, module, name, HeaderNamespace::Trait, "trait") {
        return Err(e);
    }
    if let Err(e) = check_barred(headers, module, name, HeaderNamespace::Effect, "effect") {
        return Err(e);
    }
    let is_value = match expose_value(headers, module, scope, item) {
        Err(e) => {
            return Err(e);
        },
        Ok(found) => found,
    };
    let is_ctor = match expose_ctor(headers, module, scope, item) {
        Err(e) => {
            return Err(e);
        },
        Ok(found) => found,
    };
    let is_type = match expose_type(headers, module, scope, item) {
        Err(e) => {
            return Err(e);
        },
        Ok(found) => found,
    };
    if is_value || is_ctor || is_type {
        Ok(())
    } else {
        Err(missing_item_error(headers, module, name))
    }
}

fn expose_all(
    headers: &Table<String, ModuleHeader>,
    module: &str,
    acc: &mut ScopeMap,
    items: &Vec<HeaderExposedItem>,
) -> (r: Result<(), String>)
    ensures
        with_all_exposed(
            headers.order(),
            module@,
            old(acc).deep_view(),
            items.deep_view(),
        ) == reached(r, final(acc).deep_view()),
{
    let ghost a0 = acc.deep_view();
    let ghost all = items.deep_view();
    let mut i: usize = 0;
    assert(all.take(0) =~= Seq::empty());
    while i < items.len()
        invariant
            i <= items.len(),
            all == items.deep_view(),
            a0 == old(acc).deep_view(),
            with_all_exposed(
                headers.order(),
                module@,
                a0,
                all.take(i as int),
            ) == Ok::<_, Seq<char>>(acc.deep_view()),
        decreases items.len() - i,
    {
        proof {
            assert(all.take(i + 1).drop_last() =~= all.take(i as int));
            assert(all.take(i + 1).last() == all[i as int]);
        }
        let r = insert_header_exposed_item(headers, module, acc, &items[i]);
        if let Err(e) = r {
            proof {
                with_all_exposed_stops(headers.order(), module@, a0, all, i + 1);
            }
            return Err(e);
        }
        i = i + 1;
    }
    assert(all.take(i as int) =~= all);
    Ok(())
}

pub open spec fn plain_item(name: Seq<char>) -> ExposedItemModel {
    ExposedItemModel { name, alias: None, public: false }
}

/// The items that an import of everything exposes: the values and types of the
/// surface, in order.
pub open spec fn items_of_surface(s: Surface) -> Seq<ExposedItemModel> {
    let values = s.values.map_values(|v: (Seq<char>, Seq<char>)| v.0);
    let types = s.types.map_values(|t: (Seq<char>, TypeSurface)| t.0);
    ordered((values + types).to_set()).map_values(|n: Seq<char>| plain_item(n))
}

fn exposed_items_for_surface(surface: &HeaderSurface) -> (r: Vec<HeaderExposedItem>)
    ensures
        r.deep_view() == items_of_surface(surface.deep_view()),
{
    let ghost s = surface.deep_view();
    let ghost values = s.values.map_values(|v: (Seq<char>, Seq<char>)| v.0);
    let ghost types = s.types.map_values(|t: (Seq<char>, TypeSurface)| t.0);
    let mut names: Vec<String> = Vec::new();
    let n = surface.values.len();
    let mut i: usize = 0;
    while i < n
        invariant
            i <= n,
            n == values.len(),
            s == surface.deep_view(),
            values == s.values.map_values(|v: (Seq<char>, Seq<char>)| v.0),
            names.deep_view() == values.take(i as int),
        decreases n - i,
    {
        assert(values.take(i + 1) =~= values.take(i as int).push(values[i as int]));
        push_value(&mut names, surface.values.key(i).clone());
        i = i + 1;
    }
    assert(values.take(i as int) =~= values);
    let n = surface.types.len();
    let mut i: usize = 0;
    assert(values + types.take(0) =~= values);
    while i < n
        invariant
            i <= n,
            n == types.len(),
            s == surface.deep_view(),
            types == s.types.map_values(|t: (Seq<char>, TypeSurface)| t.0),
            names.deep_view() == values + types.take(i as int),
        decreases n - i,
    {
        assert(values + types.take(i + 1) =~= (values + types.take(i as int)).push(
            types[i as int],
        ));
        push_value(&mut names, surface.types.key(i).clone());
        i = i + 1;
    }
    assert(types.take(i as int) =~= types);
    let sorted = ordered_set(&names);
    let ghost listing = ordered((values + types).to_set());
    proof {
        ordered_is(sorted.deep_view(), (values + types).to_set());
    }
    let mut out: Vec<HeaderExposedItem> = Vec::new();
    let mut i: usize = 0;
    while i < sorted.len()
        invariant
            i <= sorted.len(),
            out.len() == i,
            sorted.deep_view() == listing,
            forall|j: int| 0 <= j < i ==> #[trigger] out.deep_view()[j] == plain_item(listing[j]),
        decreases sorted.len() - i,
    {
        let item = HeaderExposedItem { name: sorted[i].clone(), alias: None, public: false };
        push_value(&mut out, item);
        i = i + 1;
    }
    assert(out.deep_view() =~= items_of_surface(s));
    out
}

/// A scope with the module of each name in it.
pub open spec fn with_own_origins(s: ScopeModel) -> ScopeModel {
    ScopeModel {
        origins: with_origins(
            s.origins,
            canonicals(s).union(s.record_builders.dom()),
            |c: Seq<char>| own_origins(c),
        ),
        ..s
    }
}

/// The scope of an import, from headers alone: the qualified forms of every
/// name of the module's surface, and the bare names that are exposed.
pub open spec fn header_import_scope(
    headers: Headers,
    module: Seq<char>,
    prefix: Seq<char>,
    exposing: Option<ExposingModel>,
) -> Result<ScopeModel, Seq<char>> {
    match surface_of(headers, module, Seq::empty()) {
        Err(e) => Err(e),
        Ok(surface) => {
            let qualified = with_qualified_surface(module, prefix, empty_scope(), surface);
            let exposed = match exposing {
                None => Ok(qualified),
                Some(ExposingModel::All { .. }) => with_all_exposed(
                    headers,
                    module,
                    qualified,
                    items_of_surface(surface),
                ),
                Some(ExposingModel::Items(items)) => with_all_exposed(
                    headers,
                    module,
                    qualified,
                    items,
                ),
            };
            match exposed {
                Err(e) => Err(e),
                Ok(s) => Ok(with_own_origins(s)),
            }
        },
    }
}

fn insert_header_origins(scope: &mut ScopeMap)
    ensures
        final(scope).deep_view() == with_own_origins(old(scope).deep_view()),
{
    let ghost s = scope.deep_view();
    let ghost f = |c: Seq<char>| own_origins(c);
    crate::origins::add_own_origins(&mut scope.origins, &scope.values);
    crate::origins::add_own_origins(&mut scope.origins, &scope.handlers);
    crate::origins::add_own_origins(&mut scope.origins, &scope.constructors);
    crate::origins::add_own_origins(&mut scope.origins, &scope.effects);
    crate::origins::add_own_origins(&mut scope.origins, &scope.traits);
    crate::origins::add_own_origins(&mut scope.origins, &scope.types);
    let n = scope.record_builders.len();
    let ghost all = scope.record_builders.order();
    let ghost names = all.map_values(|e: (Seq<char>, BuilderModel)| e.0);
    let ghost origins1 = scope.origins.deep_view();
    let mut i: usize = 0;
    assert(with_origins(origins1, names.take(0).to_set(), f) =~= origins1);
    while i < n
        invariant
            i <= n,
            n == all.len(),
            all == scope.record_builders.order(),
            names == all.map_values(|e: (Seq<char>, BuilderModel)| e.0),
            f == (|c: Seq<char>| own_origins(c)),
            crate::table::lists(all, scope.record_builders.deep_view()),
            scope.deep_view() == (ScopeModel {
                origins: with_origins(origins1, names.take(i as int).to_set(), f),
                ..s
            }),
        decreases n - i,
    {
        let canonical = scope.record_builders.key(i).clone();
        let module = canonical_module(canonical.as_str());
        proof {
            assert(names.take(i + 1) =~= names.take(i as int).push(canonical@));
            assert forall|c: Seq<char>| names.take(i + 1).contains(c) <==> names.take(
                i as int,
            ).contains(c) || c == canonical@ by {
                crate::seqs::push_contains(names.take(i as int), canonical@, c);
            }
            assert(with_new(
                with_origins(origins1, names.take(i as int).to_set(), f),
                canonical@,
                f(canonical@),
            ) =~= with_origins(origins1, names.take(i + 1).to_set(), f));
        }
        scope.origins.insert_if_absent(canonical, module);
        i = i + 1;
    }
    proof {
        assert(names.take(i as int) =~= names);
        assert forall|c: Seq<char>| names.to_set().contains(c)
            <==> s.record_builders.dom().contains(c) by {
            if s.record_builders.dom().contains(c) {
                let j = choose|j: int| 0 <= j < all.len() && (#[trigger] all[j]).0 == c;
                assert(names[j] == c);
            }
            if names.contains(c) {
                let j = choose|j: int| 0 <= j < names.len() && names[j] == c;
                assert(all[j].0 == c);
            }
        }
        assert(scope.deep_view().origins =~= with_own_origins(s).origins);
    }
}

/// The scope of an import, from headers alone.
pub fn resolve_header_import(
    headers: &Table<String, ModuleHeader>,
    module: &str,
    prefix: &str,
    exposing: Option<&HeaderExposing>,
) -> (r: Result<ScopeMap, String>)
    ensures
        outcome(r) == header_import_scope(
            headers.order(),
            module@,
            prefix@,
            exposing.deep_view(),
        ),
{
    let surface = match public_header_surface(headers, module) {
        Err(e) => {
            return Err(e);
        },
        Ok(s) => s,
    };
    let mut scope = ScopeMap::new();
    insert_header_qualified_entries(module, prefix, &mut scope, &surface);
    let exposed = match exposing {
        None => Ok(()),
        Some(HeaderExposing::All { .. }) => {
            let items = exposed_items_for_surface(&surface);
            expose_all(headers, module, &mut scope, &items)
        },
        Some(HeaderExposing::Items(items)) => expose_all(headers, module, &mut scope, items),
    };
    if let Err(e) = exposed {
        return Err(e);
    }
    insert_header_origins(&mut scope);
    Ok(scope)
}

/// The prefix of an import: its alias, or the last part of the module's name.
pub open spec fn import_prefix(import: ImportModel) -> Seq<char> {
    match import.alias {
        Some(alias) => alias,
        None => last_segment(import.module),
    }
}

pub open spec fn with_header_import(
    headers: Headers,
    s: ScopeModel,
    import: ImportModel,
) -> Result<ScopeModel, Seq<char>> {
    match header_import_scope(headers, import.module, import_prefix(import), import.exposing) {
        Err(e) => Err(e),
        Ok(t) => Ok(merged_scopes(s, t)),
    }
}

/// The scope of a list of imports, the later ones over the earlier ones.
pub open spec fn with_header_imports(
    headers: Headers,
    acc: ScopeModel,
    items: Seq<ImportModel>,
) -> Result<ScopeModel, Seq<char>>
    decreases items.len(),
{
    if items.len() == 0 {
        Ok(acc)
    } else {
        match with_header_imports(headers, acc, items.drop_last()) {
            Ok(acc) => with_header_import(headers, acc, items.last()),
            Err(e) => Err(e),
        }
    }
}

/// The first failure is the outcome.
proof fn with_header_imports_stops(
    headers: Headers,
    acc: ScopeModel,
    items: Seq<ImportModel>,
    n: int,
)
    requires
        0 <= n <= items.len(),
        with_header_imports(headers, acc, items.take(n)) is Err,
    ensures
        with_header_imports(headers, acc, items) == with_header_imports(
            headers,
            acc,
            items.take(n),
        ),
    decreases items.len(),
{
    if n < items.len() {
        assert(items.drop_last().take(n) =~= items.take(n));
        with_header_imports_stops(headers, acc, items.drop_last(), n);
    } else {
        assert(items.take(n) =~= items);
    }
}

fn merge_header_imports(
    headers: &Table<String, ModuleHeader>,
    acc: &mut ScopeMap,
    items: &Vec<HeaderImport>,
) -> (r: Result<(), String>)
    ensures
        with_header_imports(
            headers.order(),
            old(acc).deep_view(),
            items.deep_view(),
        ) == reached(r, final(acc).deep_view()),
{
    let ghost a0 = acc.deep_view();
    let ghost all = items.deep_view();
    let mut i: usize = 0;
    assert(all.take(0) =~= Seq::empty());
    while i < items.len()
        invariant
            i <= items.len(),
            all == items.deep_view(),
            a0 == old(acc).deep_view(),
            with_header_imports(
                headers.order(),
                a0,
                all.take(i as int),
            ) == Ok::<_, Seq<char>>(acc.deep_view()),
        decreases items.len() - i,
    {
        proof {
            assert(all.take(i + 1).drop_last() =~= all.take(i as int));
            assert(all.take(i + 1).last() == all[i as int]);
        }
        let import = &items[i];
        let prefix = match &import.alias {
            Some(alias) => alias.as_str(),
            None => after_last_dot(import.module.as_str()),
        };
        let exposing = match &import.exposing {
            Some(e) => Some(e),
            None => None,
        };
        let r: Result<(), String> = match resolve_header_import(
            headers,
            import.module.as_str(),
            prefix,
            exposing,
        ) {
            Err(e) => Err(e),
            Ok(import_scope) => {
                acc.merge(&import_scope);
                Ok(())
            },
        };
        if let Err(e) = r {
            proof {
                with_header_imports_stops(headers.order(), a0, all, i + 1);
            }
            return Err(e);
        }
        i = i + 1;
    }
    assert(all.take(i as int) =~= all);
    Ok(())
}

/// The scope that a module's imports give it, from headers alone.
pub fn scope_for_header_imports(
    header: &ModuleHeader,
    headers: &Table<String, ModuleHeader>,
) -> (r: Result<ScopeMap, String>)
    ensures
        outcome(r) == with_header_imports(
            headers.order(),
            empty_scope(),
            header.deep_view().imports,
        ),
{
    let mut scope = ScopeMap::new();
    match merge_header_imports(headers, &mut scope, &header.imports) {
        Err(e) => Err(e),
        Ok(_) => Ok(scope),
    }
}

/// Whether a name is one of the forms of an entry of a surface: its canonical name, or its
/// name qualified with the module or with the prefix.
pub open spec fn is_form_of(
    module: Seq<char>,
    prefix: Seq<char>,
    entry: (Seq<char>, Seq<char>),
    name: Seq<char>,
) -> bool {
    name == entry.1 || name == dotted(module, entry.0) || name == dotted(prefix, entry.0)
}

/// Whether names have all forms of some entries besides, each for the canonical name of
/// one of them, and no other names.
pub open spec fn has_forms(
    module: Seq<char>,
    prefix: Seq<char>,
    before: Map<Seq<char>, Seq<char>>,
    after: Map<Seq<char>, Seq<char>>,
    entries: Seq<(Seq<char>, Seq<char>)>,
) -> bool {
    &&& forall|n: Seq<char>| #[trigger]
        before.dom().contains(n) ==> after.dom().contains(n) && after[n] == before[n]
    &&& forall|i: int, n: Seq<char>|
        0 <= i < entries.len() && #[trigger] is_form_of(module, prefix, entries[i], n)
            ==> after.dom().contains(n)
    &&& forall|n: Seq<char>| #[trigger]
        after.dom().contains(n) && !before.dom().contains(n) ==> exists|i: int|
            0 <= i < entries.len() && #[trigger] is_form_of(module, prefix, entries[i], n)
                && after[n] == entries[i].1
}

proof fn forms_are_added(
    module: Seq<char>,
    prefix: Seq<char>,
    before: Map<Seq<char>, Seq<char>>,
    names: Map<Seq<char>, Seq<char>>,
    entries: Seq<(Seq<char>, Seq<char>)>,
)
    requires
        entries.len() > 0,
        has_forms(module, prefix, before, names, entries.drop_last()),
    ensures
        has_forms(
            module,
            prefix,
            before,
            with_qualified(module, prefix, names, entries.last().1, entries.last().0),
            entries,
        ),
{
    let init = entries.drop_last();
    let last = entries.last();
    let after = with_qualified(module, prefix, names, last.1, last.0);
    assert(entries[entries.len() - 1] == last);
    assert forall|n: Seq<char>| #[trigger] after.dom().contains(n) <==> names.dom().contains(n)
        || is_form_of(module, prefix, last, n) by {}
    assert forall|n: Seq<char>| #[trigger] names.dom().contains(n) implies after.dom().contains(n)
        && after[n] == names[n] by {}
    assert forall|i: int, n: Seq<char>|
        0 <= i < entries.len() && #[trigger] is_form_of(
            module,
            prefix,
            entries[i],
            n,
        ) implies after.dom().contains(n) by {
        if i < init.len() {
            assert(is_form_of(module, prefix, init[i], n));
        }
    }
    assert forall|n: Seq<char>| #[trigger] after.dom().contains(n) && !before.dom().contains(
        n,
    ) implies exists|i: int|
        0 <= i < entries.len() && #[trigger] is_form_of(module, prefix, entries[i], n) && after[n]
            == entries[i].1 by {
        if names.dom().contains(n) {
            let i = choose|i: int|
                0 <= i < init.len() && #[trigger] is_form_of(module, prefix, init[i], n)
                    && names[n] == init[i].1;
            assert(is_form_of(module, prefix, entries[i], n));
        } else {
            assert(is_form_of(module, prefix, entries[entries.len() - 1], n));
        }
    }
}

proof fn values_are_qualified(
    module: Seq<char>,
    prefix: Seq<char>,
    s: ScopeModel,
    items: Seq<(Seq<char>, Seq<char>)>,
)
    ensures
        ({
            let after = with_qualified_values(module, prefix, s, items);
            &&& has_forms(module, prefix, s.values, after.values, items)
            &&& after.types == s.types
            &&& after.constructors == s.constructors
        }),
    decreases items.len(),
{
    if items.len() > 0 {
        let init = items.drop_last();
        values_are_qualified(module, prefix, s, init);
        forms_are_added(
            module,
            prefix,
            s.values,
            with_qualified_values(module, prefix, s, init).values,
            items,
        );
    }
}

proof fn ctors_are_qualified(
    module: Seq<char>,
    prefix: Seq<char>,
    s: ScopeModel,
    items: Seq<(Seq<char>, Seq<char>)>,
)
    ensures
        ({
            let after = with_qualified_ctors(module, prefix, s, items);
            &&& has_forms(module, prefix, s.constructors, after.constructors, items)
            &&& after.types == s.types
            &&& after.values == s.values
        }),
    decreases items.len(),
{
    if items.len() > 0 {
        let init = items.drop_last();
        ctors_are_qualified(module, prefix, s, init);
        forms_are_added(
            module,
            prefix,
            s.constructors,
            with_qualified_ctors(module, prefix, s, init).constructors,
            items,
        );
    }
}

/// The types of a surface with their canonical names.
pub open spec fn named_types(types: Seq<(Seq<char>, TypeSurface)>) -> Seq<(Seq<char>, Seq<char>)> {
    types.map_values(|t: (Seq<char>, TypeSurface)| (t.0, t.1.canonical))
}

proof fn types_are_qualified(
    module: Seq<char>,
    prefix: Seq<char>,
    s: ScopeModel,
    items: Seq<(Seq<char>, TypeSurface)>,
)
    ensures
        ({
            let after = with_qualified_types(module, prefix, s, items);
            &&& has_forms(module, prefix, s.types, after.types, named_types(items))
            &&& after.values == s.values
            &&& after.constructors == s.constructors
        }),
    decreases items.len(),
{
    if items.len() > 0 {
        let init = items.drop_last();
        types_are_qualified(module, prefix, s, init);
        assert(named_types(items).drop_last() =~= named_types(init));
        assert(named_types(items).last() == (items.last().0, items.last().1.canonical));
        forms_are_added(
            module,
            prefix,
            s.types,
            with_qualified_types(module, prefix, s, init).types,
            named_types(items),
        );
    }
}

/// An import of a module brings in each value, type and constructor of its surface: under
/// its canonical name, and qualified with the module and with the prefix. Each of these
/// stands for the canonical name, and nothing else comes in.
pub proof fn imports_qualify_their_surface(
    module: Seq<char>,
    prefix: Seq<char>,
    s: ScopeModel,
    surface: Surface,
)
    ensures
        ({
            let after = with_qualified_surface(module, prefix, s, surface);
            &&& has_forms(module, prefix, s.values, after.values, surface.values)
            &&& has_forms(module, prefix, s.types, after.types, named_types(surface.types))
            &&& has_forms(
                module,
                prefix,
                s.constructors,
                after.constructors,
                surface.constructors,
            )
        }),
{
    let s1 = with_qualified_values(module, prefix, s, surface.values);
    let s2 = with_qualified_types(module, prefix, s1, surface.types);
    values_are_qualified(module, prefix, s, surface.values);
    types_are_qualified(module, prefix, s1, surface.types);
    ctors_are_qualified(module, prefix, s2, surface.constructors);
}

proof fn bare_ctors_are_there(s: ScopeModel, items: Seq<CtorSurface>)
    ensures
        with_bare_ctors(s, items).types == s.types,
        forall|n: Seq<char>| #[trigger]
            s.values.dom().contains(n) ==> with_bare_ctors(s, items).values.dom().contains(n)
                && with_bare_ctors(s, items).values[n] == s.values[n],
        forall|n: Seq<char>| #[trigger]
            s.constructors.dom().contains(n) ==> with_bare_ctors(
                s,
                items,
            ).constructors.dom().contains(n) && with_bare_ctors(s, items).constructors[n]
                == s.constructors[n],
        forall|i: int|
            0 <= i < items.len() ==> with_bare_ctors(s, items).constructors.dom().contains(
                (#[trigger] items[i]).surface_name,
            ) && with_bare_ctors(s, items).values.dom().contains(items[i].surface_name),
    decreases items.len(),
{
    if items.len() > 0 {
        let init = items.drop_last();
        bare_ctors_are_there(s, init);
        assert(items[items.len() - 1] == items.last());
        assert(forall|i: int| 0 <= i < init.len() ==> #[trigger] items[i] == init[i]);
    }
}

/// An exposed item is in scope under its own name: the value, the constructor or the type
/// that it names, a type with its constructors. What was in scope stays, and an item that
/// names nothing is refused.
pub proof fn exposed_items_are_in_scope(
    headers: Headers,
    module: Seq<char>,
    s: ScopeModel,
    item: ExposedItemModel,
)
    ensures
        with_exposed(headers, module, s, item) matches Ok(t) ==> {
            let surface = item_surface(item);
            let value = name_found(headers, module, item.name, HeaderNamespace::Value);
            let ctor = name_found(headers, module, item.name, HeaderNamespace::Constructor);
            let ty = name_found(headers, module, item.name, HeaderNamespace::Type);
            &&& forall|n: Seq<char>| #[trigger]
                s.values.dom().contains(n) ==> t.values.dom().contains(n) && t.values[n]
                    == s.values[n]
            &&& forall|n: Seq<char>| #[trigger]
                s.types.dom().contains(n) ==> t.types.dom().contains(n) && t.types[n]
                    == s.types[n]
            &&& forall|n: Seq<char>| #[trigger]
                s.constructors.dom().contains(n) ==> t.constructors.dom().contains(n)
                    && t.constructors[n] == s.constructors[n]
            &&& value matches Ok(Some(Resolved::Canonical(canonical)))
                ==> t.values.dom().contains(surface) && (!s.values.dom().contains(surface)
                ==> t.values[surface] == canonical)
            &&& ctor matches Ok(Some(Resolved::Canonical(canonical)))
                ==> t.constructors.dom().contains(surface) && (!s.constructors.dom().contains(
                surface,
            ) ==> t.constructors[surface] == canonical)
            &&& ty matches Ok(Some(Resolved::Type(info))) ==> t.types.dom().contains(surface) && (
            !s.types.dom().contains(surface) ==> t.types[surface] == info.canonical) && forall|
                i: int,
            |
                0 <= i < info.constructors.len() ==> t.constructors.dom().contains(
                    (#[trigger] info.constructors[i]).surface_name,
                )
            &&& t.values.dom().contains(surface) || t.constructors.dom().contains(surface)
                || t.types.dom().contains(surface)
        },
{
    if let Ok(t) = with_exposed(headers, module, s, item) {
        let s1 = with_exposed_value(headers, module, s, item)->Ok_0.0;
        let s2 = with_exposed_ctor(headers, module, s1, item)->Ok_0.0;
        if let Ok(Some(Resolved::Type(info))) = name_found(
            headers,
            module,
            item.name,
            HeaderNamespace::Type,
        ) {
            let s3 = ScopeModel {
                types: with_new(s2.types, item_surface(item), info.canonical),
                ..s2
            };
            bare_ctors_are_there(s3, info.constructors);
            let s4 = with_bare_ctors(s3, info.constructors);
            assert(t.values == s4.values && t.constructors == s4.constructors && t.types
                == s4.types);
            assert forall|n: Seq<char>| #[trigger]
                s2.values.dom().contains(n) implies t.values.dom().contains(n) && t.values[n]
                == s2.values[n] by {
                assert(s3.values.dom().contains(n));
            }
            assert forall|n: Seq<char>| #[trigger]
                s2.constructors.dom().contains(n) implies t.constructors.dom().contains(n)
                && t.constructors[n] == s2.constructors[n] by {
                assert(s3.constructors.dom().contains(n));
            }
        } else {
            assert(t == s2);
        }
        assert forall|n: Seq<char>| #[trigger] s.values.dom().contains(n) implies t.values.dom().contains(
            n,
        ) && t.values[n] == s.values[n] by {
            assert(s1.values.dom().contains(n) && s1.values[n] == s.values[n]);
            assert(s2.values.dom().contains(n) && s2.values[n] == s.values[n]);
        }
        assert forall|n: Seq<char>| #[trigger]
            s.constructors.dom().contains(n) implies t.constructors.dom().contains(n)
            && t.constructors[n] == s.constructors[n] by {
            assert(s2.constructors.dom().contains(n) && s2.constructors[n] == s.constructors[n]);
        }
        if let Ok(Some(Resolved::Canonical(canonical))) = name_found(
            headers,
            module,
            item.name,
            HeaderNamespace::Constructor,
        ) {
            let surface = item_surface(item);
            assert(s2.constructors == with_new(s.constructors, surface, canonical));
            assert(s2.constructors.dom().contains(surface));
            assert(t.constructors[surface] == s2.constructors[surface]);
        }
    }
}

/// A handler, a trait or an effect cannot be exposed across a cycle, nor can a function
/// with constraints or effects.
pub proof fn cycles_share_plain_functions(
    headers: Headers,
    module: Seq<char>,
    s: ScopeModel,
    item: ExposedItemModel,
)
    requires
        with_exposed(headers, module, s, item) is Ok,
    ensures
        name_found(headers, module, item.name, HeaderNamespace::Handler) == Ok::<
            Option<Resolved>,
            Seq<char>,
        >(None),
        name_found(headers, module, item.name, HeaderNamespace::Trait) == Ok::<
            Option<Resolved>,
            Seq<char>,
        >(None),
        name_found(headers, module, item.name, HeaderNamespace::Effect) == Ok::<
            Option<Resolved>,
            Seq<char>,
        >(None),
        name_found(headers, module, item.name, HeaderNamespace::Value) matches Ok(
            Some(Resolved::Canonical(canonical)),
        ) ==> (before_last_dot(canonical) matches Some(owner) ==> (at_key(
            headers,
            owner,
        ) matches Some(h) ==> (at_key(h.functions, last_segment(canonical)) matches Some(f)
            ==> f.public ==> {
            &&& f.where_clause.len() == 0
            &&& f.effects.len() == 0
            &&& f.effect_row_vars.len() == 0
            &&& forall|i: int|
                0 <= i < f.params.len() ==> !type_uses_effects((#[trigger] f.params[i]).1)
            &&& !type_uses_effects(f.return_type)
        }))),
{
}

} // verus!
