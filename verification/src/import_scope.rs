//! Import scopes: what the names that an import brings stand for.

use vstd::prelude::*;
use crate::ast::{surface_of, ExposedItem};
use crate::header_scope::{insert_qualified, with_qualified};
use crate::infos::{
    EffectDefInfo, EffectModel, EffectOpSig, ExportsModel, HandlerInfo, MethodModel, ModuleExports,
    OpModel, TraitInfo, TraitMethodInfo, TraitModel,
};
use crate::origins::{add_origins_in, with_origins};
use crate::schemes::{Scheme, SchemeModel};
use crate::scope::{canonicals, empty_scope, with_members, ScopeMap, ScopeModel};
use crate::seqs::{add_new, add_new_contains, add_new_distinct, add_new_in_turn, push_new};
use crate::table::{at_key, has_key, with_new, Table};
use crate::text::{before_last_dot, concat5, dot_join, dotted, split_last_dot, text_eq};
use crate::token::Span;
use crate::values::{contains_name, outcome, push_value, reached};

verus! {

/// The characters that begin the names of types, as `char::is_uppercase` tells
/// them.
pub uninterp spec fn uppercase(c: char) -> bool;

/// `char::is_uppercase`, whose answer depends on the character alone.
#[verifier::external_body]
fn char_is_uppercase(c: char) -> (r: bool)
    ensures
        r == uppercase(c),
{
    c.is_uppercase()
}

/// Whether a name is that of a type, a constructor, a trait or an effect.
pub open spec fn names_type(name: Seq<char>) -> bool {
    name.len() > 0 && uppercase(name[0])
}

/// Whether a name is that of a type, a constructor, a trait or an effect.
pub fn is_type_name(name: &str) -> (r: bool)
    ensures
        r == names_type(name@),
{
    if name.unicode_len() == 0 {
        false
    } else {
        char_is_uppercase(name.get_char(0))
    }
}

/// The builtin types: bare name and canonical name.
pub open spec fn builtin_types() -> Seq<(Seq<char>, Seq<char>)> {
    seq![
        ("Int"@, "Std.Int.Int"@),
        ("Float"@, "Std.Float.Float"@),
        ("String"@, "Std.String.String"@),
        ("Bool"@, "Std.Bool.Bool"@),
        ("Unit"@, "Std.Base.Unit"@),
        ("List"@, "Std.List.List"@),
        ("Dict"@, "Std.Dict.Dict"@),
        ("Set"@, "Std.Set.Set"@),
        ("BitString"@, "Std.BitString.BitString"@),
        ("Tuple"@, "Std.Base.Tuple"@),
        ("Handler"@, "Std.Base.Handler"@),
        ("Maybe"@, "Std.Maybe.Maybe"@),
        ("Result"@, "Std.Result.Result"@),
        ("Ordering"@, "Std.Base.Ordering"@),
        ("Pid"@, "Std.Actor.Pid"@),
        ("ExitReason"@, "Std.Actor.ExitReason"@),
    ]
}

fn name_pair(bare: &str, canonical: &str) -> (r: (String, String))
    ensures
        r.deep_view() == (bare@, canonical@),
{
    (bare.to_owned(), canonical.to_owned())
}

/// The builtin types: bare name and canonical name.
pub fn builtin_type_names() -> (r: Vec<(String, String)>)
    ensures
        r.deep_view() == builtin_types(),
{
    let mut out: Vec<(String, String)> = Vec::new();
    out.push(name_pair("Int", "Std.Int.Int"));
    out.push(name_pair("Float", "Std.Float.Float"));
    out.push(name_pair("String", "Std.String.String"));
    out.push(name_pair("Bool", "Std.Bool.Bool"));
    out.push(name_pair("Unit", "Std.Base.Unit"));
    out.push(name_pair("List", "Std.List.List"));
    out.push(name_pair("Dict", "Std.Dict.Dict"));
    out.push(name_pair("Set", "Std.Set.Set"));
    out.push(name_pair("BitString", "Std.BitString.BitString"));
    out.push(name_pair("Tuple", "Std.Base.Tuple"));
    out.push(name_pair("Handler", "Std.Base.Handler"));
    out.push(name_pair("Maybe", "Std.Maybe.Maybe"));
    out.push(name_pair("Result", "Std.Result.Result"));
    out.push(name_pair("Ordering", "Std.Base.Ordering"));
    out.push(name_pair("Pid", "Std.Actor.Pid"));
    out.push(name_pair("ExitReason", "Std.Actor.ExitReason"));
    assert(out.deep_view() =~= builtin_types());
    out
}

/// The names that an import of everything exposes, each once: values, then
/// types, type aliases, records, traits, effects and handlers.
pub open spec fn all_exposed_names(x: ExportsModel) -> Seq<Seq<char>> {
    add_new(
        Seq::empty(),
        keys_of(x.bindings) + keys_of(x.type_constructors) + keys_of(x.type_aliases) + keys_of(
            x.record_defs,
        ) + keys_of(x.traits) + keys_of(x.effects) + keys_of(x.handlers),
    )
}

/// An import of everything lists each export once: a name is on the list just
/// where the module exports something under it.
pub proof fn everything_is_listed_once(x: ExportsModel, name: Seq<char>)
    ensures
        all_exposed_names(x).no_duplicates(),
        all_exposed_names(x).contains(name) <==> has_key(x.bindings, name) || has_key(
            x.type_constructors,
            name,
        ) || has_key(x.type_aliases, name) || has_key(x.record_defs, name) || has_key(
            x.traits,
            name,
        ) || has_key(x.effects, name) || has_key(x.handlers, name),
{
    let a = keys_of(x.bindings);
    let b = a + keys_of(x.type_constructors);
    let c = b + keys_of(x.type_aliases);
    let d = c + keys_of(x.record_defs);
    let e = d + keys_of(x.traits);
    let f = e + keys_of(x.effects);
    let g = f + keys_of(x.handlers);
    add_new_distinct(Seq::empty(), g);
    add_new_contains(Seq::empty(), g, name);
    keys_are_keys(x.bindings, name);
    keys_are_keys(x.type_constructors, name);
    keys_are_keys(x.type_aliases, name);
    keys_are_keys(x.record_defs, name);
    keys_are_keys(x.traits, name);
    keys_are_keys(x.effects, name);
    keys_are_keys(x.handlers, name);
    in_either(a, keys_of(x.type_constructors), name);
    in_either(b, keys_of(x.type_aliases), name);
    in_either(c, keys_of(x.record_defs), name);
    in_either(d, keys_of(x.traits), name);
    in_either(e, keys_of(x.effects), name);
    in_either(f, keys_of(x.handlers), name);
}

proof fn in_either(a: Seq<Seq<char>>, b: Seq<Seq<char>>, name: Seq<char>)
    ensures
        (a + b).contains(name) <==> a.contains(name) || b.contains(name),
{
    if a.contains(name) {
        let k = choose|k: int| 0 <= k < a.len() && a[k] == name;
        assert((a + b)[k] == name);
    }
    if b.contains(name) {
        let k = choose|k: int| 0 <= k < b.len() && b[k] == name;
        assert((a + b)[a.len() + k] == name);
    }
}

proof fn keys_are_keys<V>(entries: Seq<(Seq<char>, V)>, name: Seq<char>)
    ensures
        keys_of(entries).contains(name) <==> has_key(entries, name),
{
    if keys_of(entries).contains(name) {
        let k = choose|k: int| 0 <= k < entries.len() && keys_of(entries)[k] == name;
        assert(entries[k].0 == name);
    }
    if has_key(entries, name) {
        let k = choose|k: int| 0 <= k < entries.len() && (#[trigger] entries[k]).0 == name;
        assert(keys_of(entries)[k] == name);
    }
}

/// The keys of a list of entries.
pub open spec fn keys_of<V>(entries: Seq<(Seq<char>, V)>) -> Seq<Seq<char>> {
    entries.map_values(|e: (Seq<char>, V)| e.0)
}

fn add_keys<V: DeepView>(names: &mut Vec<String>, t: &Table<String, V>)
    ensures
        final(names).deep_view() == add_new(old(names).deep_view(), keys_of(t.order())),
{
    let ghost names0 = names.deep_view();
    let ghost all = keys_of(t.order());
    let n = t.len();
    let mut i: usize = 0;
    assert(all.take(0) =~= Seq::empty());
    while i < n
        invariant
            i <= n,
            n == all.len(),
            all == keys_of(t.order()),
            names.deep_view() == add_new(names0, all.take(i as int)),
        decreases n - i,
    {
        proof {
            assert(all.take(i + 1).drop_last() =~= all.take(i as int));
            assert(all.take(i + 1).last() == all[i as int]);
        }
        push_new(names, t.key(i).clone());
        i = i + 1;
    }
    assert(all.take(i as int) =~= all);
}

/// The items that an import of everything stands for.
pub fn synthesize_all_exposed(exports: &ModuleExports, public: bool) -> (r: Vec<ExposedItem>)
    ensures
        r@.map_values(|i: ExposedItem| i.name@) == all_exposed_names(exports.deep_view()),
        forall|i: int|
            #![trigger r@[i]]
            0 <= i < r@.len() ==> r@[i].alias is None && r@[i].public == public && r@[i].span
                == (Span { start: 0, end: 0 }),
{
    let ghost x = exports.deep_view();
    let mut names: Vec<String> = Vec::new();
    let ghost all = keys_of(x.bindings);
    let mut i: usize = 0;
    assert(all.take(0) =~= Seq::empty());
    assert(names.deep_view() =~= Seq::empty());
    while i < exports.bindings.len()
        invariant
            i <= exports.bindings.len(),
            x == exports.deep_view(),
            all == keys_of(x.bindings),
            names.deep_view() == add_new(Seq::empty(), all.take(i as int)),
        decreases exports.bindings.len() - i,
    {
        proof {
            assert(all.take(i + 1).drop_last() =~= all.take(i as int));
            assert(all.take(i + 1).last() == all[i as int]);
        }
        push_new(&mut names, exports.bindings[i].0.clone());
        i = i + 1;
    }
    assert(all.take(i as int) =~= all);
    add_keys(&mut names, &exports.type_constructors);
    add_keys(&mut names, &exports.type_aliases);
    add_keys(&mut names, &exports.record_defs);
    add_keys(&mut names, &exports.traits);
    add_keys(&mut names, &exports.effects);
    add_keys(&mut names, &exports.handlers);
    proof {
        let a = keys_of(x.bindings);
        let b = a + keys_of(x.type_constructors);
        let c = b + keys_of(x.type_aliases);
        let d = c + keys_of(x.record_defs);
        let e = d + keys_of(x.traits);
        let f = e + keys_of(x.effects);
        add_new_in_turn(Seq::empty(), a, keys_of(x.type_constructors));
        add_new_in_turn(Seq::empty(), b, keys_of(x.type_aliases));
        add_new_in_turn(Seq::empty(), c, keys_of(x.record_defs));
        add_new_in_turn(Seq::empty(), d, keys_of(x.traits));
        add_new_in_turn(Seq::empty(), e, keys_of(x.effects));
        add_new_in_turn(Seq::empty(), f, keys_of(x.handlers));
    }
    let mut items: Vec<ExposedItem> = Vec::new();
    let mut i: usize = 0;
    while i < names.len()
        invariant
            i <= names.len(),
            items.len() == i,
            forall|j: int|
                #![trigger items@[j]]
                0 <= j < i ==> items@[j].name@ == names.deep_view()[j] && items@[j].alias is None
                    && items@[j].public == public && items@[j].span == (Span { start: 0, end: 0 }),
        decreases names.len() - i,
    {
        items.push(
            ExposedItem {
                name: names[i].clone(),
                alias: None,
                public,
                span: Span { start: 0, end: 0 },
            },
        );
        i = i + 1;
    }
    assert(items@.map_values(|i: ExposedItem| i.name@) =~= names.deep_view());
    items
}

/// Where a name comes from: its recorded origin, or else the module itself.
pub open spec fn origin_of(
    origins: Seq<(Seq<char>, Seq<char>)>,
    module: Seq<char>,
    name: Seq<char>,
) -> Seq<char> {
    match at_key(origins, name) {
        Some(origin) => origin,
        None => dotted(module, name),
    }
}

/// Where a name comes from.
pub fn origin_name(origins: &Table<String, String>, module: &str, name: &str) -> (r: String)
    ensures
        r@ == origin_of(origins.order(), module@, name@),
{
    match origins.named(name) {
        Some(origin) => origin.clone(),
        None => dot_join(module, name),
    }
}

/// A trait method under the canonical name of its trait, under the module's name
/// for the trait, and under the import's prefix for it.
pub open spec fn with_qualified_method(
    module: Seq<char>,
    prefix: Seq<char>,
    trait_name: Seq<char>,
    trait_canonical: Seq<char>,
    values: Map<Seq<char>, Seq<char>>,
    m: MethodModel,
) -> Map<Seq<char>, Seq<char>> {
    let canonical = dotted(trait_canonical, m.name);
    let v1 = with_new(values, canonical, canonical);
    let v2 = with_new(v1, dotted(dotted(module, trait_name), m.name), canonical);
    if prefix != module {
        with_new(v2, dotted(dotted(prefix, trait_name), m.name), canonical)
    } else {
        v2
    }
}

pub open spec fn with_qualified_methods(
    module: Seq<char>,
    prefix: Seq<char>,
    trait_name: Seq<char>,
    trait_canonical: Seq<char>,
    acc: Map<Seq<char>, Seq<char>>,
    items: Seq<MethodModel>,
) -> Map<Seq<char>, Seq<char>>
    decreases items.len(),
{
    if items.len() == 0 {
        acc
    } else {
        with_qualified_method(
            module,
            prefix,
            trait_name,
            trait_canonical,
            with_qualified_methods(
                module,
                prefix,
                trait_name,
                trait_canonical,
                acc,
                items.drop_last(),
            ),
            items.last(),
        )
    }
}

pub open spec fn names_of_methods(methods: Seq<MethodModel>) -> Seq<Seq<char>> {
    methods.map_values(|m: MethodModel| method_name_of(m))
}

pub open spec fn method_name_of(m: MethodModel) -> Seq<char> {
    m.name
}

pub open spec fn names_of_ops(ops: Seq<OpModel>) -> Seq<Seq<char>> {
    ops.map_values(|op: OpModel| op_name_of(op))
}

pub open spec fn op_name_of(op: OpModel) -> Seq<char> {
    op.name
}

/// A scope with an exported trait: qualified forms of it and of its methods; and
/// where the import exposes no list, its bare name and methods too.
pub open spec fn with_imported_trait(
    x: ExportsModel,
    module: Seq<char>,
    prefix: Seq<char>,
    bare: bool,
    s: ScopeModel,
    t: (Seq<char>, TraitModel),
) -> ScopeModel {
    let canonical = origin_of(x.trait_origins, module, t.0);
    let s1 = ScopeModel {
        traits: with_qualified(module, prefix, s.traits, canonical, t.0),
        values: with_qualified_methods(
            module,
            prefix,
            t.0,
            canonical,
            s.values,
            t.1.methods,
        ),
        ..s
    };
    if bare {
        ScopeModel {
            traits: with_new(s1.traits, t.0, canonical),
            trait_methods: with_members(canonical, s1.trait_methods, names_of_methods(t.1.methods)),
            ..s1
        }
    } else {
        s1
    }
}

pub open spec fn with_imported_effect(
    x: ExportsModel,
    module: Seq<char>,
    prefix: Seq<char>,
    s: ScopeModel,
    e: (Seq<char>, EffectModel),
) -> ScopeModel {
    let canonical = origin_of(x.effect_origins, module, e.0);
    ScopeModel { effects: with_qualified(module, prefix, s.effects, canonical, e.0), ..s }
}

pub open spec fn with_imported_handler(
    x: ExportsModel,
    module: Seq<char>,
    prefix: Seq<char>,
    s: ScopeModel,
    h: (Seq<char>, crate::infos::HandlerModel),
) -> ScopeModel {
    let canonical = origin_of(x.handler_origins, module, h.0);
    ScopeModel { handlers: with_qualified(module, prefix, s.handlers, canonical, h.0), ..s }
}

pub open spec fn with_imported_value(
    x: ExportsModel,
    module: Seq<char>,
    prefix: Seq<char>,
    s: ScopeModel,
    b: (Seq<char>, SchemeModel),
) -> ScopeModel {
    let canonical = origin_of(x.binding_origins, module, b.0);
    ScopeModel { values: with_qualified(module, prefix, s.values, canonical, b.0), ..s }
}

pub open spec fn with_imported_ctor(
    x: ExportsModel,
    module: Seq<char>,
    prefix: Seq<char>,
    s: ScopeModel,
    ctor: Seq<char>,
) -> ScopeModel {
    if has_key(x.bindings, ctor) {
        let canonical = origin_of(x.binding_origins, module, ctor);
        ScopeModel {
            constructors: with_qualified(module, prefix, s.constructors, canonical, ctor),
            ..s
        }
    } else {
        s
    }
}

pub open spec fn with_imported_ctors_of(
    x: ExportsModel,
    module: Seq<char>,
    prefix: Seq<char>,
    acc: ScopeModel,
    items: Seq<Seq<char>>,
) -> ScopeModel
    decreases items.len(),
{
    if items.len() == 0 {
        acc
    } else {
        with_imported_ctor(
            x,
            module,
            prefix,
            with_imported_ctors_of(x, module, prefix, acc, items.drop_last()),
            items.last(),
        )
    }
}

pub open spec fn with_imported_type_ctors(
    x: ExportsModel,
    module: Seq<char>,
    prefix: Seq<char>,
    s: ScopeModel,
    t: (Seq<char>, Seq<Seq<char>>),
) -> ScopeModel {
    with_imported_ctors_of(x, module, prefix, s, t.1)
}

pub open spec fn with_imported_type(
    x: ExportsModel,
    module: Seq<char>,
    prefix: Seq<char>,
    s: ScopeModel,
    t: (Seq<char>, usize),
) -> ScopeModel {
    let canonical = origin_of(x.type_origins, module, t.0);
    ScopeModel { types: with_qualified(module, prefix, s.types, canonical, t.0), ..s }
}

/// A scope with a builtin type, where the module is the home of it.
pub open spec fn with_builtin_type(
    module: Seq<char>,
    prefix: Seq<char>,
    s: ScopeModel,
    b: (Seq<char>, Seq<char>),
) -> ScopeModel {
    if before_last_dot(b.1) == Some(module) {
        let types = with_new(s.types, b.1, b.1);
        ScopeModel {
            types: if prefix != module {
                with_new(types, dotted(prefix, b.0), b.1)
            } else {
                types
            },
            ..s
        }
    } else {
        s
    }
}

pub open spec fn with_imported_traits(
    x: ExportsModel,
    module: Seq<char>,
    prefix: Seq<char>,
    bare: bool,
    acc: ScopeModel,
    items: Seq<(Seq<char>, TraitModel)>,
) -> ScopeModel
    decreases items.len(),
{
    if items.len() == 0 {
        acc
    } else {
        with_imported_trait(
            x,
            module,
            prefix,
            bare,
            with_imported_traits(x, module, prefix, bare, acc, items.drop_last()),
            items.last(),
        )
    }
}

pub open spec fn with_imported_effects(
    x: ExportsModel,
    module: Seq<char>,
    prefix: Seq<char>,
    acc: ScopeModel,
    items: Seq<(Seq<char>, EffectModel)>,
) -> ScopeModel
    decreases items.len(),
{
    if items.len() == 0 {
        acc
    } else {
        with_imported_effect(
            x,
            module,
            prefix,
            with_imported_effects(x, module, prefix, acc, items.drop_last()),
            items.last(),
        )
    }
}

pub open spec fn with_imported_handlers(
    x: ExportsModel,
    module: Seq<char>,
    prefix: Seq<char>,
    acc: ScopeModel,
    items: Seq<(Seq<char>, crate::infos::HandlerModel)>,
) -> ScopeModel
    decreases items.len(),
{
    if items.len() == 0 {
        acc
    } else {
        with_imported_handler(
            x,
            module,
            prefix,
            with_imported_handlers(x, module, prefix, acc, items.drop_last()),
            items.last(),
        )
    }
}

pub open spec fn with_imported_values(
    x: ExportsModel,
    module: Seq<char>,
    prefix: Seq<char>,
    acc: ScopeModel,
    items: Seq<(Seq<char>, SchemeModel)>,
) -> ScopeModel
    decreases items.len(),
{
    if items.len() == 0 {
        acc
    } else {
        with_imported_value(
            x,
            module,
            prefix,
            with_imported_values(x, module, prefix, acc, items.drop_last()),
            items.last(),
        )
    }
}

pub open spec fn with_imported_ctors(
    x: ExportsModel,
    module: Seq<char>,
    prefix: Seq<char>,
    acc: ScopeModel,
    items: Seq<(Seq<char>, Seq<Seq<char>>)>,
) -> ScopeModel
    decreases items.len(),
{
    if items.len() == 0 {
        acc
    } else {
        with_imported_type_ctors(
            x,
            module,
            prefix,
            with_imported_ctors(x, module, prefix, acc, items.drop_last()),
            items.last(),
        )
    }
}

pub open spec fn with_imported_types(
    x: ExportsModel,
    module: Seq<char>,
    prefix: Seq<char>,
    acc: ScopeModel,
    items: Seq<(Seq<char>, usize)>,
) -> ScopeModel
    decreases items.len(),
{
    if items.len() == 0 {
        acc
    } else {
        with_imported_type(
            x,
            module,
            prefix,
            with_imported_types(x, module, prefix, acc, items.drop_last()),
            items.last(),
        )
    }
}

pub open spec fn with_builtin_types(
    module: Seq<char>,
    prefix: Seq<char>,
    acc: ScopeModel,
    items: Seq<(Seq<char>, Seq<char>)>,
) -> ScopeModel
    decreases items.len(),
{
    if items.len() == 0 {
        acc
    } else {
        with_builtin_type(
            module,
            prefix,
            with_builtin_types(module, prefix, acc, items.drop_last()),
            items.last(),
        )
    }
}

/// The qualified names that an import brings, and the bare trait names where it
/// exposes no list.
pub open spec fn imported_names(
    x: ExportsModel,
    module: Seq<char>,
    prefix: Seq<char>,
    bare: bool,
) -> ScopeModel {
    let s = with_imported_traits(x, module, prefix, bare, empty_scope(), x.traits);
    let s = with_imported_effects(x, module, prefix, s, x.effects);
    let s = with_imported_handlers(x, module, prefix, s, x.handlers);
    let s = with_imported_values(x, module, prefix, s, x.bindings);
    let s = with_imported_ctors(x, module, prefix, s, x.type_constructors);
    let s = with_imported_types(x, module, prefix, s, x.type_arity);
    with_builtin_types(module, prefix, s, builtin_types())
}

/// Whether a name is that of a builtin type with its home in a module.
pub open spec fn is_builtin_of(module: Seq<char>, name: Seq<char>) -> bool {
    exists|i: int|
        0 <= i < builtin_types().len() && (#[trigger] builtin_types()[i]).0 == name
            && before_last_dot(builtin_types()[i].1) == Some(module)
}

/// Whether a name is that of a constructor of an exported type.
pub open spec fn is_ctor_of(types: Seq<(Seq<char>, Seq<Seq<char>>)>, name: Seq<char>) -> bool {
    exists|i: int| 0 <= i < types.len() && (#[trigger] types[i]).1.contains(name)
}

/// A constructor of an exposed type under its bare name.
pub open spec fn with_bare_ctor_of(
    x: ExportsModel,
    module: Seq<char>,
    s: ScopeModel,
    ctor: Seq<char>,
) -> ScopeModel {
    if has_key(x.bindings, ctor) {
        let canonical = origin_of(x.binding_origins, module, ctor);
        ScopeModel {
            constructors: with_new(s.constructors, ctor, canonical),
            values: with_new(s.values, ctor, canonical),
            ..s
        }
    } else {
        s
    }
}

pub open spec fn with_bare_ctors_of(
    x: ExportsModel,
    module: Seq<char>,
    acc: ScopeModel,
    items: Seq<Seq<char>>,
) -> ScopeModel
    decreases items.len(),
{
    if items.len() == 0 {
        acc
    } else {
        with_bare_ctor_of(
            x,
            module,
            with_bare_ctors_of(x, module, acc, items.drop_last()),
            items.last(),
        )
    }
}

/// Whether an exposed name with an uppercase letter stands for anything.
pub open spec fn exports_type_name(x: ExportsModel, module: Seq<char>, name: Seq<char>) -> bool {
    has_key(x.bindings, name) || has_key(x.type_arity, name) || has_key(x.record_defs, name)
        || is_builtin_of(module, name) || has_key(x.type_constructors, name) || has_key(
        x.effects,
        name,
    ) || has_key(x.traits, name)
}

/// A scope with an exposed name that begins with an uppercase letter: as a value
/// and a type, with the constructors of the type, as a constructor, as an effect
/// with its operations and as a trait with its methods, as far as the module
/// exports such things.
pub open spec fn with_type_item(
    x: ExportsModel,
    module: Seq<char>,
    s: ScopeModel,
    name: Seq<char>,
    surface: Seq<char>,
) -> ScopeModel {
    let value = origin_of(x.binding_origins, module, name);
    let s = if has_key(x.bindings, name) {
        ScopeModel { values: with_new(s.values, surface, value), ..s }
    } else {
        s
    };
    let s = ScopeModel {
        types: with_new(s.types, surface, origin_of(x.type_origins, module, name)),
        ..s
    };
    let s = match at_key(x.type_constructors, name) {
        Some(ctors) => with_bare_ctors_of(x, module, s, ctors),
        None => s,
    };
    let s = if is_ctor_of(x.type_constructors, name) && has_key(x.bindings, name) {
        ScopeModel {
            constructors: with_new(s.constructors, surface, value),
            values: with_new(s.values, surface, value),
            ..s
        }
    } else {
        s
    };
    let s = match at_key(x.effects, name) {
        Some(info) => {
            let effect = origin_of(x.effect_origins, module, name);
            ScopeModel {
                effects: with_new(s.effects, surface, effect),
                effect_ops: with_members(effect, s.effect_ops, names_of_ops(info.ops)),
                ..s
            }
        },
        None => s,
    };
    match at_key(x.traits, name) {
        Some(info) => {
            let canonical = origin_of(x.trait_origins, module, name);
            ScopeModel {
                traits: with_new(s.traits, surface, canonical),
                trait_methods: with_members(
                    canonical,
                    s.trait_methods,
                    names_of_methods(info.methods),
                ),
                ..s
            }
        },
        None => s,
    }
}

/// Whether a name is that of a method of an exported trait.
pub open spec fn is_method_of(traits: Seq<(Seq<char>, TraitModel)>, name: Seq<char>) -> bool {
    exists|i: int|
        0 <= i < traits.len() && names_of_methods((#[trigger] traits[i]).1.methods).contains(name)
}

/// Whether an exposed name with a lowercase letter stands for anything: a value
/// that is no trait method, or a handler.
pub open spec fn exports_value_name(x: ExportsModel, name: Seq<char>) -> bool {
    has_key(x.handlers, name) || (has_key(x.bindings, name) && !is_method_of(x.traits, name))
}

/// A scope with an exposed name that begins with a lowercase letter.
pub open spec fn with_value_item(
    x: ExportsModel,
    module: Seq<char>,
    s: ScopeModel,
    name: Seq<char>,
    surface: Seq<char>,
) -> ScopeModel {
    let s = if has_key(x.bindings, name) {
        ScopeModel {
            values: with_new(s.values, surface, origin_of(x.binding_origins, module, name)),
            ..s
        }
    } else {
        s
    };
    if has_key(x.handlers, name) {
        ScopeModel {
            handlers: with_new(s.handlers, surface, origin_of(x.handler_origins, module, name)),
            ..s
        }
    } else {
        s
    }
}

pub open spec fn not_exported(prefix: Seq<char>, name: Seq<char>) -> Seq<char> {
    "'"@ + name + "' is not exported by module '"@ + prefix + "'"@
}

/// A scope with what an exposed item stands for, or why it is refused. `is_type`
/// says whether its name begins with an uppercase letter.
pub open spec fn with_item(
    x: ExportsModel,
    module: Seq<char>,
    prefix: Seq<char>,
    is_type: bool,
    s: ScopeModel,
    item: ExposedItem,
) -> Result<ScopeModel, Seq<char>> {
    if is_type {
        if exports_type_name(x, module, item.name@) {
            Ok(with_type_item(x, module, s, item.name@, surface_of(item)))
        } else {
            Err(not_exported(prefix, item.name@))
        }
    } else {
        if exports_value_name(x, item.name@) {
            Ok(with_value_item(x, module, s, item.name@, surface_of(item)))
        } else {
            Err(not_exported(prefix, item.name@))
        }
    }
}

pub open spec fn with_named_item(
    x: ExportsModel,
    module: Seq<char>,
    prefix: Seq<char>,
    s: ScopeModel,
    item: ExposedItem,
) -> Result<ScopeModel, Seq<char>> {
    with_item(x, module, prefix, names_type(item.name@), s, item)
}

pub open spec fn with_items(
    x: ExportsModel,
    module: Seq<char>,
    prefix: Seq<char>,
    acc: ScopeModel,
    items: Seq<ExposedItem>,
) -> Result<ScopeModel, Seq<char>>
    decreases items.len(),
{
    if items.len() == 0 {
        Ok(acc)
    } else {
        match with_items(x, module, prefix, acc, items.drop_last()) {
            Ok(acc) => with_named_item(x, module, prefix, acc, items.last()),
            Err(e) => Err(e),
        }
    }
}

/// The first failure is the outcome.
proof fn with_items_stops(
    x: ExportsModel,
    module: Seq<char>,
    prefix: Seq<char>,
    acc: ScopeModel,
    items: Seq<ExposedItem>,
    n: int,
)
    requires
        0 <= n <= items.len(),
        with_items(x, module, prefix, acc, items.take(n)) is Err,
    ensures
        with_items(x, module, prefix, acc, items) == with_items(
            x,
            module,
            prefix,
            acc,
            items.take(n),
        ),
    decreases items.len(),
{
    if n < items.len() {
        assert(items.drop_last().take(n) =~= items.take(n));
        with_items_stops(x, module, prefix, acc, items.drop_last(), n);
    } else {
        assert(items.take(n) =~= items);
    }
}

/// A scope in which every name comes from one module.
pub open spec fn with_module_origins(module: Seq<char>, s: ScopeModel) -> ScopeModel {
    ScopeModel {
        origins: with_origins(s.origins, canonicals(s), |c: Seq<char>| module),
        ..s
    }
}

/// The scope of an import: the qualified forms of everything that the module
/// exports, and the bare names that are exposed.
pub open spec fn import_scope(
    x: ExportsModel,
    module: Seq<char>,
    prefix: Seq<char>,
    exposing: Option<Seq<ExposedItem>>,
) -> Result<ScopeModel, Seq<char>> {
    let s = imported_names(x, module, prefix, exposing is None);
    match exposing {
        None => Ok(with_module_origins(module, s)),
        Some(items) => match with_items(x, module, prefix, s, items) {
            Ok(s) => Ok(with_module_origins(module, s)),
            Err(e) => Err(e),
        },
    }
}

fn add_qualified_methods(
    module: &str,
    prefix: &str,
    trait_name: &str,
    trait_canonical: &str,
    acc: &mut Table<String, String>,
    items: &Vec<TraitMethodInfo>,
)
    ensures
        final(acc).deep_view() == with_qualified_methods(
            module@,
            prefix@,
            trait_name@,
            trait_canonical@,
            old(acc).deep_view(),
            items.deep_view(),
        ),
{
    let ghost a0 = acc.deep_view();
    let ghost all = items.deep_view();
    let mut i: usize = 0;
    assert(all.take(0) =~= Seq::empty());
    while i < items.len()
        invariant
            i <= items.len(),
            all == items.deep_view(),
            acc.deep_view() == with_qualified_methods(
                module@,
                prefix@,
                trait_name@,
                trait_canonical@,
                a0,
                all.take(i as int),
            ),
        decreases items.len() - i,
    {
        proof {
            assert(all.take(i + 1).drop_last() =~= all.take(i as int));
            assert(all.take(i + 1).last() == all[i as int]);
        }
        let name = items[i].name.as_str();
        let canonical = dot_join(trait_canonical, name);
        acc.insert_if_absent(canonical.clone(), canonical.clone());
        let in_module = dot_join(module, trait_name);
        acc.insert_if_absent(dot_join(in_module.as_str(), name), canonical.clone());
        if !text_eq(prefix, module) {
            let in_prefix = dot_join(prefix, trait_name);
            acc.insert_if_absent(dot_join(in_prefix.as_str(), name), canonical);
        }
        i = i + 1;
    }
    assert(all.take(i as int) =~= all);
}

/// The names of methods.
pub fn method_names(v: &Vec<TraitMethodInfo>) -> (r: Vec<String>)
    ensures
        r.deep_view() == v.deep_view().map_values(|x: MethodModel| method_name_of(x)),
{
    let mut out: Vec<String> = Vec::new();
    let mut i: usize = 0;
    while i < v.len()
        invariant
            i <= v.len(),
            out.len() == i,
            forall|j: int|
                0 <= j < i ==> #[trigger] out.deep_view()[j] == method_name_of(v.deep_view()[j]),
        decreases v.len() - i,
    {
        push_value(&mut out, v[i].name.clone());
        i = i + 1;
    }
    assert(out.deep_view() =~= v.deep_view().map_values(|x: MethodModel| method_name_of(x)));
    out
}

/// The names of operations.
pub fn op_names(v: &Vec<EffectOpSig>) -> (r: Vec<String>)
    ensures
        r.deep_view() == v.deep_view().map_values(|x: OpModel| op_name_of(x)),
{
    let mut out: Vec<String> = Vec::new();
    let mut i: usize = 0;
    while i < v.len()
        invariant
            i <= v.len(),
            out.len() == i,
            forall|j: int|
                0 <= j < i ==> #[trigger] out.deep_view()[j] == op_name_of(v.deep_view()[j]),
        decreases v.len() - i,
    {
        push_value(&mut out, v[i].name.clone());
        i = i + 1;
    }
    assert(out.deep_view() =~= v.deep_view().map_values(|x: OpModel| op_name_of(x)));
    out
}

fn add_imported_traits(
    x: &ModuleExports,
    module: &str,
    prefix: &str,
    bare: bool,
    acc: &mut ScopeMap,
    items: &Table<String, TraitInfo>,
)
    ensures
        final(acc).deep_view() == with_imported_traits(
            x.deep_view(),
            module@,
            prefix@,
            bare,
            old(acc).deep_view(),
            items.order(),
        ),
{
    let ghost a0 = acc.deep_view();
    let ghost all = items.order();
    let n = items.len();
    let mut i: usize = 0;
    assert(all.take(0) =~= Seq::empty());
    while i < n
        invariant
            i <= n,
            all == items.order(),
            n == all.len(),
            acc.deep_view() == with_imported_traits(
                x.deep_view(),
                module@,
                prefix@,
                bare,
                a0,
                all.take(i as int),
            ),
        decreases n - i,
    {
        proof {
            assert(all.take(i + 1).drop_last() =~= all.take(i as int));
            assert(all.take(i + 1).last() == all[i as int]);
        }
        let name = items.key(i);
        let info = items.value(i);
        let canonical = origin_name(&x.trait_origins, module, name.as_str());
        insert_qualified(
            module,
            prefix,
            &mut acc.traits,
            canonical.as_str(),
            name.as_str(),
        );
        add_qualified_methods(
            module,
            prefix,
            name.as_str(),
            canonical.as_str(),
            &mut acc.values,
            &info.methods,
        );
        if bare {
            acc.traits.insert_if_absent(name.clone(), canonical.clone());
            let methods = method_names(&info.methods);
            acc.register_trait_methods(canonical.as_str(), &methods);
        }
        i = i + 1;
    }
    assert(all.take(i as int) =~= all);
}

fn add_imported_effects(
    x: &ModuleExports,
    module: &str,
    prefix: &str,
    acc: &mut ScopeMap,
    items: &Table<String, EffectDefInfo>,
)
    ensures
        final(acc).deep_view() == with_imported_effects(
            x.deep_view(),
            module@,
            prefix@,
            old(acc).deep_view(),
            items.order(),
        ),
{
    let ghost a0 = acc.deep_view();
    let ghost all = items.order();
    let n = items.len();
    let mut i: usize = 0;
    assert(all.take(0) =~= Seq::empty());
    while i < n
        invariant
            i <= n,
            all == items.order(),
            n == all.len(),
            acc.deep_view() == with_imported_effects(
                x.deep_view(),
                module@,
                prefix@,
                a0,
                all.take(i as int),
            ),
        decreases n - i,
    {
        proof {
            assert(all.take(i + 1).drop_last() =~= all.take(i as int));
            assert(all.take(i + 1).last() == all[i as int]);
        }
        let name = items.key(i);
        let canonical = origin_name(&x.effect_origins, module, name.as_str());
        insert_qualified(
            module,
            prefix,
            &mut acc.effects,
            canonical.as_str(),
            name.as_str(),
        );
        i = i + 1;
    }
    assert(all.take(i as int) =~= all);
}

fn add_imported_handlers(
    x: &ModuleExports,
    module: &str,
    prefix: &str,
    acc: &mut ScopeMap,
    items: &Table<String, HandlerInfo>,
)
    ensures
        final(acc).deep_view() == with_imported_handlers(
            x.deep_view(),
            module@,
            prefix@,
            old(acc).deep_view(),
            items.order(),
        ),
{
    let ghost a0 = acc.deep_view();
    let ghost all = items.order();
    let n = items.len();
    let mut i: usize = 0;
    assert(all.take(0) =~= Seq::empty());
    while i < n
        invariant
            i <= n,
            all == items.order(),
            n == all.len(),
            acc.deep_view() == with_imported_handlers(
                x.deep_view(),
                module@,
                prefix@,
                a0,
                all.take(i as int),
            ),
        decreases n - i,
    {
        proof {
            assert(all.take(i + 1).drop_last() =~= all.take(i as int));
            assert(all.take(i + 1).last() == all[i as int]);
        }
        let name = items.key(i);
        let canonical = origin_name(&x.handler_origins, module, name.as_str());
        insert_qualified(
            module,
            prefix,
            &mut acc.handlers,
            canonical.as_str(),
            name.as_str(),
        );
        i = i + 1;
    }
    assert(all.take(i as int) =~= all);
}

fn add_imported_values(
    x: &ModuleExports,
    module: &str,
    prefix: &str,
    acc: &mut ScopeMap,
    items: &Vec<(String, Scheme)>,
)
    ensures
        final(acc).deep_view() == with_imported_values(
            x.deep_view(),
            module@,
            prefix@,
            old(acc).deep_view(),
            items.deep_view(),
        ),
{
    let ghost a0 = acc.deep_view();
    let ghost all = items.deep_view();
    let mut i: usize = 0;
    assert(all.take(0) =~= Seq::empty());
    while i < items.len()
        invariant
            i <= items.len(),
            all == items.deep_view(),
            acc.deep_view() == with_imported_values(
                x.deep_view(),
                module@,
                prefix@,
                a0,
                all.take(i as int),
            ),
        decreases items.len() - i,
    {
        proof {
            assert(all.take(i + 1).drop_last() =~= all.take(i as int));
            assert(all.take(i + 1).last() == all[i as int]);
        }
        let name = &items[i].0;
        let canonical = origin_name(&x.binding_origins, module, name.as_str());
        insert_qualified(
            module,
            prefix,
            &mut acc.values,
            canonical.as_str(),
            name.as_str(),
        );
        i = i + 1;
    }
    assert(all.take(i as int) =~= all);
}

fn add_imported_types(
    x: &ModuleExports,
    module: &str,
    prefix: &str,
    acc: &mut ScopeMap,
    items: &Table<String, usize>,
)
    ensures
        final(acc).deep_view() == with_imported_types(
            x.deep_view(),
            module@,
            prefix@,
            old(acc).deep_view(),
            items.order(),
        ),
{
    let ghost a0 = acc.deep_view();
    let ghost all = items.order();
    let n = items.len();
    let mut i: usize = 0;
    assert(all.take(0) =~= Seq::empty());
    while i < n
        invariant
            i <= n,
            all == items.order(),
            n == all.len(),
            acc.deep_view() == with_imported_types(
                x.deep_view(),
                module@,
                prefix@,
                a0,
                all.take(i as int),
            ),
        decreases n - i,
    {
        proof {
            assert(all.take(i + 1).drop_last() =~= all.take(i as int));
            assert(all.take(i + 1).last() == all[i as int]);
        }
        let name = items.key(i);
        let canonical = origin_name(&x.type_origins, module, name.as_str());
        insert_qualified(
            module,
            prefix,
            &mut acc.types,
            canonical.as_str(),
            name.as_str(),
        );
        i = i + 1;
    }
    assert(all.take(i as int) =~= all);
}

/// Whether a list of bindings has a name.
pub fn has_binding(bindings: &Vec<(String, Scheme)>, name: &str) -> (r: bool)
    ensures
        r == has_key(bindings.deep_view(), name@),
{
    let mut i: usize = 0;
    while i < bindings.len()
        invariant
            i <= bindings.len(),
            forall|j: int| 0 <= j < i ==> (#[trigger] bindings.deep_view()[j]).0 != name@,
        decreases bindings.len() - i,
    {
        if text_eq(bindings[i].0.as_str(), name) {
            assert(bindings.deep_view()[i as int].0 == name@);
            return true;
        }
        i = i + 1;
    }
    false
}

fn add_imported_ctors_of(
    x: &ModuleExports,
    module: &str,
    prefix: &str,
    acc: &mut ScopeMap,
    items: &Vec<String>,
)
    ensures
        final(acc).deep_view() == with_imported_ctors_of(
            x.deep_view(),
            module@,
            prefix@,
            old(acc).deep_view(),
            items.deep_view(),
        ),
{
    let ghost a0 = acc.deep_view();
    let ghost all = items.deep_view();
    let mut i: usize = 0;
    assert(all.take(0) =~= Seq::empty());
    while i < items.len()
        invariant
            i <= items.len(),
            all == items.deep_view(),
            acc.deep_view() == with_imported_ctors_of(
                x.deep_view(),
                module@,
                prefix@,
                a0,
                all.take(i as int),
            ),
        decreases items.len() - i,
    {
        proof {
            assert(all.take(i + 1).drop_last() =~= all.take(i as int));
            assert(all.take(i + 1).last() == all[i as int]);
        }
        let ctor = &items[i];
        if has_binding(&x.bindings, ctor.as_str()) {
            let canonical = origin_name(&x.binding_origins, module, ctor.as_str());
            insert_qualified(
                module,
                prefix,
                &mut acc.constructors,
                canonical.as_str(),
                ctor.as_str(),
            );
        }
        i = i + 1;
    }
    assert(all.take(i as int) =~= all);
}

fn add_imported_ctors(
    x: &ModuleExports,
    module: &str,
    prefix: &str,
    acc: &mut ScopeMap,
    items: &Table<String, Vec<String>>,
)
    ensures
        final(acc).deep_view() == with_imported_ctors(
            x.deep_view(),
            module@,
            prefix@,
            old(acc).deep_view(),
            items.order(),
        ),
{
    let ghost a0 = acc.deep_view();
    let ghost all = items.order();
    let n = items.len();
    let mut i: usize = 0;
    assert(all.take(0) =~= Seq::empty());
    while i < n
        invariant
            i <= n,
            all == items.order(),
            n == all.len(),
            acc.deep_view() == with_imported_ctors(
                x.deep_view(),
                module@,
                prefix@,
                a0,
                all.take(i as int),
            ),
        decreases n - i,
    {
        proof {
            assert(all.take(i + 1).drop_last() =~= all.take(i as int));
            assert(all.take(i + 1).last() == all[i as int]);
        }
        add_imported_ctors_of(x, module, prefix, acc, items.value(i));
        i = i + 1;
    }
    assert(all.take(i as int) =~= all);
}

/// Whether a canonical name has its home in a module.
fn has_home(canonical: &str, module: &str) -> (r: bool)
    ensures
        r == (before_last_dot(canonical@) == Some(module@)),
{
    match split_last_dot(canonical) {
        Some((owner, _)) => text_eq(owner.as_str(), module),
        None => false,
    }
}

fn add_builtin_types(module: &str, prefix: &str, acc: &mut ScopeMap, items: &Vec<(String, String)>)
    ensures
        final(acc).deep_view() == with_builtin_types(
            module@,
            prefix@,
            old(acc).deep_view(),
            items.deep_view(),
        ),
{
    let ghost a0 = acc.deep_view();
    let ghost all = items.deep_view();
    let mut i: usize = 0;
    assert(all.take(0) =~= Seq::empty());
    while i < items.len()
        invariant
            i <= items.len(),
            all == items.deep_view(),
            acc.deep_view() == with_builtin_types(module@, prefix@, a0, all.take(i as int)),
        decreases items.len() - i,
    {
        proof {
            assert(all.take(i + 1).drop_last() =~= all.take(i as int));
            assert(all.take(i + 1).last() == all[i as int]);
        }
        let canonical = &items[i].1;
        if has_home(canonical.as_str(), module) {
            acc.types.insert_if_absent(canonical.clone(), canonical.clone());
            if !text_eq(prefix, module) {
                let aliased = dot_join(prefix, items[i].0.as_str());
                acc.types.insert_if_absent(aliased, canonical.clone());
            }
        }
        i = i + 1;
    }
    assert(all.take(i as int) =~= all);
}

fn import_names(x: &ModuleExports, module: &str, prefix: &str, bare: bool) -> (r: ScopeMap)
    ensures
        r.deep_view() == imported_names(x.deep_view(), module@, prefix@, bare),
{
    let mut scope = ScopeMap::new();
    add_imported_traits(x, module, prefix, bare, &mut scope, &x.traits);
    add_imported_effects(x, module, prefix, &mut scope, &x.effects);
    add_imported_handlers(x, module, prefix, &mut scope, &x.handlers);
    add_imported_values(x, module, prefix, &mut scope, &x.bindings);
    add_imported_ctors(x, module, prefix, &mut scope, &x.type_constructors);
    add_imported_types(x, module, prefix, &mut scope, &x.type_arity);
    let builtins = builtin_type_names();
    add_builtin_types(module, prefix, &mut scope, &builtins);
    scope
}

fn builtin_of(module: &str, name: &str) -> (r: bool)
    ensures
        r == is_builtin_of(module@, name@),
{
    let builtins = builtin_type_names();
    let mut i: usize = 0;
    while i < builtins.len()
        invariant
            i <= builtins.len(),
            builtins.deep_view() == builtin_types(),
            forall|j: int|
                0 <= j < i ==> !((#[trigger] builtin_types()[j]).0 == name@ && before_last_dot(
                    builtin_types()[j].1,
                ) == Some(module@)),
        decreases builtins.len() - i,
    {
        assert(builtin_types()[i as int] == builtins[i as int].deep_view());
        if text_eq(builtins[i].0.as_str(), name) && has_home(builtins[i].1.as_str(), module) {
            return true;
        }
        i = i + 1;
    }
    assert(builtin_types().len() == builtins.len());
    false
}

fn ctor_of(types: &Table<String, Vec<String>>, name: &str) -> (r: bool)
    ensures
        r == is_ctor_of(types.order(), name@),
{
    let ghost all = types.order();
    let n = types.len();
    let mut i: usize = 0;
    while i < n
        invariant
            i <= n,
            n == all.len(),
            all == types.order(),
            forall|j: int| 0 <= j < i ==> !(#[trigger] all[j]).1.contains(name@),
        decreases n - i,
    {
        if contains_name(types.value(i), name) {
            assert(all[i as int].1.contains(name@));
            return true;
        }
        i = i + 1;
    }
    false
}

fn method_of(traits: &Table<String, TraitInfo>, name: &str) -> (r: bool)
    ensures
        r == is_method_of(traits.order(), name@),
{
    let ghost all = traits.order();
    let n = traits.len();
    let mut i: usize = 0;
    while i < n
        invariant
            i <= n,
            n == all.len(),
            all == traits.order(),
            forall|j: int|
                0 <= j < i ==> !names_of_methods((#[trigger] all[j]).1.methods).contains(name@),
        decreases n - i,
    {
        let names = method_names(&traits.value(i).methods);
        if contains_name(&names, name) {
            assert(names_of_methods(all[i as int].1.methods).contains(name@));
            return true;
        }
        i = i + 1;
    }
    false
}

fn add_bare_ctors_of(x: &ModuleExports, module: &str, acc: &mut ScopeMap, items: &Vec<String>)
    ensures
        final(acc).deep_view() == with_bare_ctors_of(
            x.deep_view(),
            module@,
            old(acc).deep_view(),
            items.deep_view(),
        ),
{
    let ghost a0 = acc.deep_view();
    let ghost all = items.deep_view();
    let mut i: usize = 0;
    assert(all.take(0) =~= Seq::empty());
    while i < items.len()
        invariant
            i <= items.len(),
            all == items.deep_view(),
            acc.deep_view() == with_bare_ctors_of(x.deep_view(), module@, a0, all.take(i as int)),
        decreases items.len() - i,
    {
        proof {
            assert(all.take(i + 1).drop_last() =~= all.take(i as int));
            assert(all.take(i + 1).last() == all[i as int]);
        }
        let ctor = &items[i];
        if has_binding(&x.bindings, ctor.as_str()) {
            let canonical = origin_name(&x.binding_origins, module, ctor.as_str());
            acc.constructors.insert_if_absent(ctor.clone(), canonical.clone());
            acc.values.insert_if_absent(ctor.clone(), canonical);
        }
        i = i + 1;
    }
    assert(all.take(i as int) =~= all);
}

fn add_type_item(x: &ModuleExports, module: &str, scope: &mut ScopeMap, name: &str, surface: &str)
    ensures
        final(scope).deep_view() == with_type_item(
            x.deep_view(),
            module@,
            old(scope).deep_view(),
            name@,
            surface@,
        ),
{
    let value = origin_name(&x.binding_origins, module, name);
    if has_binding(&x.bindings, name) {
        scope.values.insert_if_absent(surface.to_owned(), value.clone());
    }
    scope.types.insert_if_absent(
        surface.to_owned(),
        origin_name(&x.type_origins, module, name),
    );
    if let Some(ctors) = x.type_constructors.named(name) {
        add_bare_ctors_of(x, module, scope, ctors);
    }
    if ctor_of(&x.type_constructors, name) && has_binding(&x.bindings, name) {
        scope.constructors.insert_if_absent(surface.to_owned(), value.clone());
        scope.values.insert_if_absent(surface.to_owned(), value);
    }
    if let Some(info) = x.effects.named(name) {
        let effect = origin_name(&x.effect_origins, module, name);
        scope.effects.insert_if_absent(surface.to_owned(), effect.clone());
        let ops = op_names(&info.ops);
        scope.register_effect_ops(effect.as_str(), &ops);
    }
    if let Some(info) = x.traits.named(name) {
        let canonical = origin_name(&x.trait_origins, module, name);
        scope.traits.insert_if_absent(surface.to_owned(), canonical.clone());
        let methods = method_names(&info.methods);
        scope.register_trait_methods(canonical.as_str(), &methods);
    }
}

fn add_value_item(x: &ModuleExports, module: &str, scope: &mut ScopeMap, name: &str, surface: &str)
    ensures
        final(scope).deep_view() == with_value_item(
            x.deep_view(),
            module@,
            old(scope).deep_view(),
            name@,
            surface@,
        ),
{
    if has_binding(&x.bindings, name) {
        let canonical = origin_name(&x.binding_origins, module, name);
        scope.values.insert_if_absent(surface.to_owned(), canonical);
    }
    if x.handlers.has_name(name) {
        let canonical = origin_name(&x.handler_origins, module, name);
        scope.handlers.insert_if_absent(surface.to_owned(), canonical);
    }
}

/// Adds what an exposed item stands for. `is_type` says whether its name begins
/// with an uppercase letter.
pub fn expose_item(
    x: &ModuleExports,
    module: &str,
    prefix: &str,
    is_type: bool,
    scope: &mut ScopeMap,
    item: &ExposedItem,
) -> (r: Result<(), String>)
    ensures
        with_item(x.deep_view(), module@, prefix@, is_type, old(scope).deep_view(), *item)
            == reached(r, final(scope).deep_view()),
        r is Err ==> final(scope).deep_view() == old(scope).deep_view(),
{
    let name = item.name.as_str();
    let known = if is_type {
        has_binding(&x.bindings, name) || x.type_arity.has_name(name) || x.record_defs.has_name(
            name,
        ) || builtin_of(module, name) || x.type_constructors.has_name(name) || x.effects.has_name(
            name,
        ) || x.traits.has_name(name)
    } else {
        x.handlers.has_name(name) || (has_binding(&x.bindings, name) && !method_of(
            &x.traits,
            name,
        ))
    };
    if !known {
        return Err(concat5("'", name, "' is not exported by module '", prefix, "'"));
    }
    let surface = item.surface_name();
    if is_type {
        add_type_item(x, module, scope, name, surface.as_str());
    } else {
        add_value_item(x, module, scope, name, surface.as_str());
    }
    Ok(())
}

fn expose_items(
    x: &ModuleExports,
    module: &str,
    prefix: &str,
    acc: &mut ScopeMap,
    items: &Vec<ExposedItem>,
) -> (r: Result<(), String>)
    ensures
        with_items(
            x.deep_view(),
            module@,
            prefix@,
            old(acc).deep_view(),
            items@,
        ) == reached(r, final(acc).deep_view()),
{
    let ghost a0 = acc.deep_view();
    let ghost all = items@;
    let mut i: usize = 0;
    assert(all.take(0) =~= Seq::empty());
    while i < items.len()
        invariant
            i <= items.len(),
            all == items@,
            a0 == old(acc).deep_view(),
            with_items(
                x.deep_view(),
                module@,
                prefix@,
                a0,
                all.take(i as int),
            ) == Ok::<_, Seq<char>>(acc.deep_view()),
        decreases items.len() - i,
    {
        proof {
            assert(all.take(i + 1).drop_last() =~= all.take(i as int));
            assert(all.take(i + 1).last() == all[i as int]);
        }
        let is_type = is_type_name(items[i].name.as_str());
        let r = expose_item(x, module, prefix, is_type, acc, &items[i]);
        if let Err(e) = r {
            proof {
                with_items_stops(x.deep_view(), module@, prefix@, a0, all, i + 1);
            }
            return Err(e);
        }
        i = i + 1;
    }
    assert(all.take(i as int) =~= all);
    Ok(())
}

fn add_module_origins(module: &str, scope: &mut ScopeMap)
    ensures
        final(scope).deep_view() == with_module_origins(module@, old(scope).deep_view()),
{
    let ghost s = scope.deep_view();
    add_origins_in(module, &mut scope.origins, &scope.values);
    add_origins_in(module, &mut scope.origins, &scope.handlers);
    add_origins_in(module, &mut scope.origins, &scope.constructors);
    add_origins_in(module, &mut scope.origins, &scope.effects);
    add_origins_in(module, &mut scope.origins, &scope.traits);
    add_origins_in(module, &mut scope.origins, &scope.types);
    assert(scope.deep_view().origins =~= with_module_origins(module@, s).origins);
}

/// The scope of an import of a module with the given exports, or why one of the
/// exposed names is refused.
pub fn resolve_import(
    exports: &ModuleExports,
    module_name: &str,
    prefix: &str,
    exposing: Option<&Vec<ExposedItem>>,
) -> (r: Result<ScopeMap, String>)
    ensures
        outcome(r) == import_scope(
            exports.deep_view(),
            module_name@,
            prefix@,
            match exposing {
                Some(items) => Some(items@),
                None => None,
            },
        ),
{
    let mut scope = import_names(exports, module_name, prefix, exposing.is_none());
    if let Some(items) = exposing {
        if let Err(e) = expose_items(exports, module_name, prefix, &mut scope, items) {
            return Err(e);
        }
    }
    add_module_origins(module_name, &mut scope);
    Ok(scope)
}

} // verus!
