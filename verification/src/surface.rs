//! The public surface of a module, as its header shows it.

use vstd::prelude::*;
use crate::header_decls::{
    ConstructorModel, EffectDeclModel, EffectOpModel, FunctionModel, HandlerDeclModel,
    HeaderConstructor, HeaderEffectDecl, HeaderEffectOp, HeaderFunction, HeaderHandlerDecl,
    HeaderModel, HeaderRecordBuilder, HeaderRecordDecl, HeaderTraitDecl, HeaderTraitMethod,
    HeaderTypeDecl, ModuleHeader, RecordBuilderModel, RecordDeclModel, TraitDeclModel,
    TraitMethodModel, TypeDeclModel,
};
use crate::scope::{BuilderModel, RecordBuilderInfo};
use crate::table::{at_key, put, put_all_new, put_new, Table};
use crate::text::{
    after_last_dot, before_last_dot, dot_join, dotted, last_segment, split_last_dot, text_eq,
};
use crate::values::{push_value, Dup, Same};

verus! {

/// A constructor as it is visible from outside.
#[derive(Debug)]
pub struct HeaderConstructorSurface {
    pub surface_name: String,
    pub canonical: String,
}

#[verifier::ext_equal]
pub struct CtorSurface {
    pub surface_name: Seq<char>,
    pub canonical: Seq<char>,
}

impl DeepView for HeaderConstructorSurface {
    type V = CtorSurface;

    open spec fn deep_view(&self) -> CtorSurface {
        CtorSurface {
            surface_name: self.surface_name.deep_view(),
            canonical: self.canonical.deep_view(),
        }
    }
}

impl Dup for HeaderConstructorSurface {
    fn dup(&self) -> (r: Self) {
        HeaderConstructorSurface {
            surface_name: self.surface_name.dup(),
            canonical: self.canonical.dup(),
        }
    }
}

/// A type as it is visible from outside.
#[derive(Debug)]
pub struct HeaderTypeSurface {
    pub canonical: String,
    pub constructors: Vec<HeaderConstructorSurface>,
    pub record_builder: Option<RecordBuilderInfo>,
}

#[verifier::ext_equal]
pub struct TypeSurface {
    pub canonical: Seq<char>,
    pub constructors: Seq<CtorSurface>,
    pub record_builder: Option<BuilderModel>,
}

impl DeepView for HeaderTypeSurface {
    type V = TypeSurface;

    open spec fn deep_view(&self) -> TypeSurface {
        TypeSurface {
            canonical: self.canonical.deep_view(),
            constructors: self.constructors.deep_view(),
            record_builder: self.record_builder.deep_view(),
        }
    }
}

impl Dup for HeaderTypeSurface {
    fn dup(&self) -> (r: Self) {
        HeaderTypeSurface {
            canonical: self.canonical.dup(),
            constructors: self.constructors.dup(),
            record_builder: self.record_builder.dup(),
        }
    }
}

/// A trait as it is visible from outside.
#[derive(Debug)]
pub struct HeaderTraitSurface {
    pub canonical: String,
    pub methods: Vec<String>,
}

#[verifier::ext_equal]
pub struct TraitSurface {
    pub canonical: Seq<char>,
    pub methods: Seq<Seq<char>>,
}

impl DeepView for HeaderTraitSurface {
    type V = TraitSurface;

    open spec fn deep_view(&self) -> TraitSurface {
        TraitSurface {
            canonical: self.canonical.deep_view(),
            methods: self.methods.deep_view(),
        }
    }
}

impl Dup for HeaderTraitSurface {
    fn dup(&self) -> (r: Self) {
        HeaderTraitSurface {
            canonical: self.canonical.dup(),
            methods: self.methods.dup(),
        }
    }
}

/// An effect as it is visible from outside.
#[derive(Debug)]
pub struct HeaderEffectSurface {
    pub canonical: String,
    pub ops: Vec<String>,
}

#[verifier::ext_equal]
pub struct EffectSurface {
    pub canonical: Seq<char>,
    pub ops: Seq<Seq<char>>,
}

impl DeepView for HeaderEffectSurface {
    type V = EffectSurface;

    open spec fn deep_view(&self) -> EffectSurface {
        EffectSurface {
            canonical: self.canonical.deep_view(),
            ops: self.ops.deep_view(),
        }
    }
}

impl Dup for HeaderEffectSurface {
    fn dup(&self) -> (r: Self) {
        HeaderEffectSurface {
            canonical: self.canonical.dup(),
            ops: self.ops.dup(),
        }
    }
}

/// The names that a module makes visible, each with what it stands for.
pub struct HeaderSurface {
    pub values: Table<String, String>,
    pub handlers: Table<String, String>,
    pub types: Table<String, HeaderTypeSurface>,
    pub constructors: Table<String, String>,
    pub traits: Table<String, HeaderTraitSurface>,
    pub effects: Table<String, HeaderEffectSurface>,
}

#[verifier::ext_equal]
pub struct Surface {
    pub values: Seq<(Seq<char>, Seq<char>)>,
    pub handlers: Seq<(Seq<char>, Seq<char>)>,
    pub types: Seq<(Seq<char>, TypeSurface)>,
    pub constructors: Seq<(Seq<char>, Seq<char>)>,
    pub traits: Seq<(Seq<char>, TraitSurface)>,
    pub effects: Seq<(Seq<char>, EffectSurface)>,
}

impl DeepView for HeaderSurface {
    type V = Surface;

    open spec fn deep_view(&self) -> Surface {
        Surface {
            values: self.values.order(),
            handlers: self.handlers.order(),
            types: self.types.order(),
            constructors: self.constructors.order(),
            traits: self.traits.order(),
            effects: self.effects.order(),
        }
    }
}

impl Dup for HeaderSurface {
    fn dup(&self) -> (r: Self) {
        HeaderSurface {
            values: self.values.dup(),
            handlers: self.handlers.dup(),
            types: self.types.dup(),
            constructors: self.constructors.dup(),
            traits: self.traits.dup(),
            effects: self.effects.dup(),
        }
    }
}

/// The kinds of names.
#[derive(Debug, Clone, Copy, PartialEq, Eq, Structural)]
pub enum HeaderNamespace {
    Value,
    Handler,
    Type,
    Constructor,
    Trait,
    Effect,
}

impl DeepView for HeaderNamespace {
    type V = HeaderNamespace;

    open spec fn deep_view(&self) -> HeaderNamespace {
        *self
    }
}

impl Dup for HeaderNamespace {
    fn dup(&self) -> (r: Self) {
        *self
    }
}

impl Same for HeaderNamespace {
    fn same(&self, other: &Self) -> (r: bool) {
        *self == *other
    }
}

/// What a name of some kind stands for.
#[derive(Debug)]
pub enum HeaderResolved {
    Canonical(String),
    Type(HeaderTypeSurface),
    Trait(HeaderTraitSurface),
    Effect(HeaderEffectSurface),
}

#[verifier::ext_equal]
pub enum Resolved {
    Canonical(Seq<char>),
    Type(TypeSurface),
    Trait(TraitSurface),
    Effect(EffectSurface),
}

impl DeepView for HeaderResolved {
    type V = Resolved;

    open spec fn deep_view(&self) -> Resolved {
        match self {
            HeaderResolved::Canonical(c) => Resolved::Canonical(c@),
            HeaderResolved::Type(t) => Resolved::Type(t.deep_view()),
            HeaderResolved::Trait(t) => Resolved::Trait(t.deep_view()),
            HeaderResolved::Effect(e) => Resolved::Effect(e.deep_view()),
        }
    }
}

/// The surface without names.
pub open spec fn empty_surface() -> Surface {
    Surface {
        values: Seq::empty(),
        handlers: Seq::empty(),
        types: Seq::empty(),
        constructors: Seq::empty(),
        traits: Seq::empty(),
        effects: Seq::empty(),
    }
}

pub open spec fn with_function(
    module: Seq<char>,
    s: Surface,
    f: (Seq<char>, FunctionModel),
) -> Surface {
    if f.1.public {
        Surface { values: put(s.values, f.0, dotted(module, f.0)), ..s }
    } else {
        s
    }
}

pub open spec fn ctor_surface(module: Seq<char>, c: ConstructorModel) -> CtorSurface {
    CtorSurface { surface_name: c.name, canonical: dotted(module, c.name) }
}

/// The constructors of a type that can be seen: none of an opaque type or an
/// alias.
pub open spec fn visible_ctors(module: Seq<char>, decl: TypeDeclModel) -> Seq<CtorSurface> {
    match decl {
        TypeDeclModel::Adt { opaque, constructors, .. } => if opaque {
            Seq::empty()
        } else {
            constructors.map_values(|c: ConstructorModel| ctor_surface(module, c))
        },
        TypeDeclModel::Alias { .. } => Seq::empty(),
    }
}

pub open spec fn with_ctor(s: Surface, c: CtorSurface) -> Surface {
    Surface {
        constructors: put(s.constructors, c.surface_name, c.canonical),
        values: put(s.values, c.surface_name, c.canonical),
        ..s
    }
}

pub open spec fn with_ctors(acc: Surface, items: Seq<CtorSurface>) -> Surface
    decreases items.len(),
{
    if items.len() == 0 {
        acc
    } else {
        with_ctor(with_ctors(acc, items.drop_last()), items.last())
    }
}

pub open spec fn with_type(
    module: Seq<char>,
    s: Surface,
    t: (Seq<char>, TypeDeclModel),
) -> Surface {
    if t.1.is_public() {
        let ctors = visible_ctors(module, t.1);
        let info = TypeSurface {
            canonical: dotted(module, t.0),
            constructors: ctors,
            record_builder: None,
        };
        with_ctors(Surface { types: put(s.types, t.0, info), ..s }, ctors)
    } else {
        s
    }
}

pub open spec fn with_record(
    module: Seq<char>,
    s: Surface,
    r: (Seq<char>, RecordDeclModel),
) -> Surface {
    if r.1.public {
        let ctor = CtorSurface { surface_name: r.0, canonical: dotted(module, r.0) };
        let info = TypeSurface {
            canonical: dotted(module, r.0),
            constructors: seq![ctor],
            record_builder: None,
        };
        with_ctor(Surface { types: put(s.types, r.0, info), ..s }, ctor)
    } else {
        s
    }
}

pub open spec fn with_trait(
    module: Seq<char>,
    s: Surface,
    t: (Seq<char>, TraitDeclModel),
) -> Surface {
    if t.1.public {
        let info = TraitSurface {
            canonical: dotted(module, t.0),
            methods: t.1.methods.map_values(|m: TraitMethodModel| method_name(m)),
        };
        Surface { traits: put(s.traits, t.0, info), ..s }
    } else {
        s
    }
}

pub open spec fn method_name(m: TraitMethodModel) -> Seq<char> {
    m.name
}

pub open spec fn operation_name(op: EffectOpModel) -> Seq<char> {
    op.name
}

pub open spec fn with_effect(
    module: Seq<char>,
    s: Surface,
    e: (Seq<char>, EffectDeclModel),
) -> Surface {
    if e.1.public {
        let info = EffectSurface {
            canonical: dotted(module, e.0),
            ops: e.1.operations.map_values(|op: EffectOpModel| operation_name(op)),
        };
        Surface { effects: put(s.effects, e.0, info), ..s }
    } else {
        s
    }
}

pub open spec fn with_handler(
    module: Seq<char>,
    s: Surface,
    h: (Seq<char>, HandlerDeclModel),
) -> Surface {
    if h.1.public {
        Surface {
            handlers: put(s.handlers, h.0, dotted(module, h.0)),
            values: put(s.values, h.0, dotted(module, h.0)),
            ..s
        }
    } else {
        s
    }
}

/// What a value name in a record builder stands for: a value of the surface,
/// bare or qualified with the module's own name, or a qualified name of another
/// module as it is.
pub open spec fn local_value(s: Surface, module: Seq<char>, name: Seq<char>) -> Option<Seq<char>> {
    match at_key(s.values, name) {
        Some(canonical) => Some(canonical),
        None => match before_last_dot(name) {
            Some(owner) => if owner == module {
                at_key(s.values, last_segment(name))
            } else {
                Some(name)
            },
            None => None,
        },
    }
}

pub open spec fn with_builder(
    module: Seq<char>,
    s: Surface,
    b: (Seq<char>, RecordBuilderModel),
) -> Surface {
    let context = last_segment(b.1.context);
    if !b.1.public {
        s
    } else {
        match (
            local_value(s, module, b.1.start),
            local_value(s, module, b.1.field),
            at_key(s.types, context),
        ) {
            (Some(start), Some(field), Some(info)) => Surface {
                types: put(
                    s.types,
                    context,
                    TypeSurface {
                        record_builder: Some(
                            BuilderModel { context: info.canonical, start, field },
                        ),
                        ..info
                    },
                ),
                ..s
            },
            _ => s,
        }
    }
}

pub open spec fn with_functions(
    module: Seq<char>,
    acc: Surface,
    items: Seq<(Seq<char>, FunctionModel)>,
) -> Surface
    decreases items.len(),
{
    if items.len() == 0 {
        acc
    } else {
        with_function(module, with_functions(module, acc, items.drop_last()), items.last())
    }
}

pub open spec fn with_types(
    module: Seq<char>,
    acc: Surface,
    items: Seq<(Seq<char>, TypeDeclModel)>,
) -> Surface
    decreases items.len(),
{
    if items.len() == 0 {
        acc
    } else {
        with_type(module, with_types(module, acc, items.drop_last()), items.last())
    }
}

pub open spec fn with_records(
    module: Seq<char>,
    acc: Surface,
    items: Seq<(Seq<char>, RecordDeclModel)>,
) -> Surface
    decreases items.len(),
{
    if items.len() == 0 {
        acc
    } else {
        with_record(module, with_records(module, acc, items.drop_last()), items.last())
    }
}

pub open spec fn with_traits(
    module: Seq<char>,
    acc: Surface,
    items: Seq<(Seq<char>, TraitDeclModel)>,
) -> Surface
    decreases items.len(),
{
    if items.len() == 0 {
        acc
    } else {
        with_trait(module, with_traits(module, acc, items.drop_last()), items.last())
    }
}

pub open spec fn with_effects(
    module: Seq<char>,
    acc: Surface,
    items: Seq<(Seq<char>, EffectDeclModel)>,
) -> Surface
    decreases items.len(),
{
    if items.len() == 0 {
        acc
    } else {
        with_effect(module, with_effects(module, acc, items.drop_last()), items.last())
    }
}

pub open spec fn with_handlers(
    module: Seq<char>,
    acc: Surface,
    items: Seq<(Seq<char>, HandlerDeclModel)>,
) -> Surface
    decreases items.len(),
{
    if items.len() == 0 {
        acc
    } else {
        with_handler(module, with_handlers(module, acc, items.drop_last()), items.last())
    }
}

pub open spec fn with_builders(
    module: Seq<char>,
    acc: Surface,
    items: Seq<(Seq<char>, RecordBuilderModel)>,
) -> Surface
    decreases items.len(),
{
    if items.len() == 0 {
        acc
    } else {
        with_builder(module, with_builders(module, acc, items.drop_last()), items.last())
    }
}

/// The names that a module declares and makes visible.
pub open spec fn local_surface(module: Seq<char>, h: HeaderModel) -> Surface {
    let s = with_functions(module, empty_surface(), h.functions);
    let s = with_types(module, s, h.types);
    let s = with_records(module, s, h.records);
    let s = with_traits(module, s, h.traits);
    let s = with_effects(module, s, h.effects);
    let s = with_handlers(module, s, h.handlers);
    with_builders(module, s, h.record_builders)
}

/// What a name of a kind stands for in a surface.
pub open spec fn resolved_in(
    s: Surface,
    name: Seq<char>,
    space: HeaderNamespace,
) -> Option<Resolved> {
    match space {
        HeaderNamespace::Value => match at_key(s.values, name) {
            Some(c) => Some(Resolved::Canonical(c)),
            None => None,
        },
        HeaderNamespace::Handler => match at_key(s.handlers, name) {
            Some(c) => Some(Resolved::Canonical(c)),
            None => None,
        },
        HeaderNamespace::Type => match at_key(s.types, name) {
            Some(t) => Some(Resolved::Type(t)),
            None => None,
        },
        HeaderNamespace::Constructor => match at_key(s.constructors, name) {
            Some(c) => Some(Resolved::Canonical(c)),
            None => None,
        },
        HeaderNamespace::Trait => match at_key(s.traits, name) {
            Some(t) => Some(Resolved::Trait(t)),
            None => None,
        },
        HeaderNamespace::Effect => match at_key(s.effects, name) {
            Some(e) => Some(Resolved::Effect(e)),
            None => None,
        },
    }
}

/// A constructor under the name of the type that is re-exported: where it is
/// named like the type, it takes the new name too.
pub open spec fn renamed_ctor(
    origin: Seq<char>,
    surface: Seq<char>,
    c: CtorSurface,
) -> CtorSurface {
    if c.surface_name == origin {
        CtorSurface { surface_name: surface, ..c }
    } else {
        c
    }
}

pub open spec fn with_new_ctor(s: Surface, c: CtorSurface) -> Surface {
    Surface {
        constructors: put_new(s.constructors, c.surface_name, c.canonical),
        values: put_new(s.values, c.surface_name, c.canonical),
        ..s
    }
}

pub open spec fn with_new_ctors(acc: Surface, items: Seq<CtorSurface>) -> Surface
    decreases items.len(),
{
    if items.len() == 0 {
        acc
    } else {
        with_new_ctor(with_new_ctors(acc, items.drop_last()), items.last())
    }
}

/// A surface with what a re-exported name stands for. Names that are there
/// stay.
pub open spec fn with_resolved(
    s: Surface,
    origin: Seq<char>,
    surface: Seq<char>,
    space: HeaderNamespace,
    resolved: Resolved,
) -> Surface {
    match (space, resolved) {
        (HeaderNamespace::Value, Resolved::Canonical(c)) => Surface {
            values: put_new(s.values, surface, c),
            ..s
        },
        (HeaderNamespace::Handler, Resolved::Canonical(c)) => Surface {
            handlers: put_new(s.handlers, surface, c),
            ..s
        },
        (HeaderNamespace::Constructor, Resolved::Canonical(c)) => with_new_ctor(
            s,
            CtorSurface { surface_name: surface, canonical: c },
        ),
        (HeaderNamespace::Type, Resolved::Type(info)) => {
            let ctors = info.constructors.map_values(
                |c: CtorSurface| renamed_ctor(origin, surface, c),
            );
            let s1 = with_new_ctors(s, ctors);
            Surface {
                types: put_new(s1.types, surface, TypeSurface { constructors: ctors, ..info }),
                ..s1
            }
        },
        (HeaderNamespace::Trait, Resolved::Trait(info)) => Surface {
            traits: put_new(s.traits, surface, info),
            ..s
        },
        (HeaderNamespace::Effect, Resolved::Effect(info)) => Surface {
            effects: put_new(s.effects, surface, info),
            ..s
        },
        _ => s,
    }
}

/// The names of two surfaces; where both have a name, that of the first holds.
pub open spec fn merged_surfaces(a: Surface, b: Surface) -> Surface {
    Surface {
        values: put_all_new(a.values, b.values),
        handlers: put_all_new(a.handlers, b.handlers),
        types: put_all_new(a.types, b.types),
        constructors: put_all_new(a.constructors, b.constructors),
        traits: put_all_new(a.traits, b.traits),
        effects: put_all_new(a.effects, b.effects),
    }
}

fn ctor_surfaces(module: &str, v: &Vec<HeaderConstructor>) -> (r: Vec<HeaderConstructorSurface>)
    ensures
        r.deep_view() == v.deep_view().map_values(|x: ConstructorModel| ctor_surface(module@, x)),
{
    let mut out: Vec<HeaderConstructorSurface> = Vec::new();
    let mut i: usize = 0;
    while i < v.len()
        invariant
            i <= v.len(),
            out.len() == i,
            forall|j: int| 0 <= j < i ==> #[trigger] out.deep_view()[j] == ctor_surface(
                module@,
                v.deep_view()[j],
            ),
        decreases v.len() - i,
    {
        let c = HeaderConstructorSurface {
            surface_name: v[i].name.clone(),
            canonical: dot_join(module, v[i].name.as_str()),
        };
        push_value(&mut out, c);
        i = i + 1;
    }
    assert(out.deep_view() =~= v.deep_view().map_values(|x: ConstructorModel| ctor_surface(
        module@,
        x,
    )));
    out
}

fn method_names(v: &Vec<HeaderTraitMethod>) -> (r: Vec<String>)
    ensures
        r.deep_view() == v.deep_view().map_values(|x: TraitMethodModel| method_name(x)),
{
    let mut out: Vec<String> = Vec::new();
    let mut i: usize = 0;
    while i < v.len()
        invariant
            i <= v.len(),
            out.len() == i,
            forall|j: int|
                0 <= j < i ==> #[trigger] out.deep_view()[j] == method_name(v.deep_view()[j]),
        decreases v.len() - i,
    {
        push_value(&mut out, v[i].name.clone());
        i = i + 1;
    }
    assert(out.deep_view() =~= v.deep_view().map_values(|x: TraitMethodModel| method_name(x)));
    out
}

fn operation_names(v: &Vec<HeaderEffectOp>) -> (r: Vec<String>)
    ensures
        r.deep_view() == v.deep_view().map_values(|x: EffectOpModel| operation_name(x)),
{
    let mut out: Vec<String> = Vec::new();
    let mut i: usize = 0;
    while i < v.len()
        invariant
            i <= v.len(),
            out.len() == i,
            forall|j: int|
                0 <= j < i ==> #[trigger] out.deep_view()[j] == operation_name(v.deep_view()[j]),
        decreases v.len() - i,
    {
        push_value(&mut out, v[i].name.clone());
        i = i + 1;
    }
    assert(out.deep_view() =~= v.deep_view().map_values(|x: EffectOpModel| operation_name(x)));
    out
}

fn renamed_ctors(
    origin: &str,
    surface: &str,
    v: &Vec<HeaderConstructorSurface>,
) -> (r: Vec<HeaderConstructorSurface>)
    ensures
        r.deep_view() == v.deep_view().map_values(|x: CtorSurface| renamed_ctor(
            origin@,
            surface@,
            x,
        )),
{
    let mut out: Vec<HeaderConstructorSurface> = Vec::new();
    let mut i: usize = 0;
    while i < v.len()
        invariant
            i <= v.len(),
            out.len() == i,
            forall|j: int| 0 <= j < i ==> #[trigger] out.deep_view()[j] == renamed_ctor(
                origin@,
                surface@,
                v.deep_view()[j],
            ),
        decreases v.len() - i,
    {
        let c = if text_eq(v[i].surface_name.as_str(), origin) {
            HeaderConstructorSurface {
                surface_name: surface.to_owned(),
                canonical: v[i].canonical.clone(),
            }
        } else {
            v[i].dup()
        };
        push_value(&mut out, c);
        i = i + 1;
    }
    assert(out.deep_view() =~= v.deep_view().map_values(|x: CtorSurface| renamed_ctor(
        origin@,
        surface@,
        x,
    )));
    out
}

fn add_ctors(acc: &mut HeaderSurface, items: &Vec<HeaderConstructorSurface>)
    ensures
        final(acc).deep_view() == with_ctors(old(acc).deep_view(), items.deep_view()),
{
    let ghost a0 = acc.deep_view();
    let ghost all = items.deep_view();
    let mut i: usize = 0;
    assert(all.take(0) =~= Seq::empty());
    while i < items.len()
        invariant
            i <= items.len(),
            all == items.deep_view(),
            acc.deep_view() == with_ctors(a0, all.take(i as int)),
        decreases items.len() - i,
    {
        proof {
            assert(all.take(i + 1).drop_last() =~= all.take(i as int));
            assert(all.take(i + 1).last() == all[i as int]);
        }
        let c = &items[i];
        acc.constructors.insert(c.surface_name.clone(), c.canonical.clone());
        acc.values.insert(c.surface_name.clone(), c.canonical.clone());
        i = i + 1;
    }
    assert(all.take(i as int) =~= all);
}

fn add_new_ctors(acc: &mut HeaderSurface, items: &Vec<HeaderConstructorSurface>)
    ensures
        final(acc).deep_view() == with_new_ctors(old(acc).deep_view(), items.deep_view()),
{
    let ghost a0 = acc.deep_view();
    let ghost all = items.deep_view();
    let mut i: usize = 0;
    assert(all.take(0) =~= Seq::empty());
    while i < items.len()
        invariant
            i <= items.len(),
            all == items.deep_view(),
            acc.deep_view() == with_new_ctors(a0, all.take(i as int)),
        decreases items.len() - i,
    {
        proof {
            assert(all.take(i + 1).drop_last() =~= all.take(i as int));
            assert(all.take(i + 1).last() == all[i as int]);
        }
        let c = &items[i];
        acc.constructors.insert_if_absent(c.surface_name.clone(), c.canonical.clone());
        acc.values.insert_if_absent(c.surface_name.clone(), c.canonical.clone());
        i = i + 1;
    }
    assert(all.take(i as int) =~= all);
}

fn add_type(module: &str, acc: &mut HeaderSurface, name: &String, decl: &HeaderTypeDecl)
    ensures
        final(acc).deep_view() == with_type(
            module@,
            old(acc).deep_view(),
            (name@, decl.deep_view()),
        ),
{
    if decl.public() {
        let none: Vec<HeaderConstructorSurface> = Vec::new();
        assert(none.deep_view() =~= Seq::empty());
        let ctors = match decl {
            HeaderTypeDecl::Adt { opaque, constructors, .. } => if *opaque {
                none
            } else {
                ctor_surfaces(module, constructors)
            },
            HeaderTypeDecl::Alias { .. } => none,
        };
        let info = HeaderTypeSurface {
            canonical: dot_join(module, name.as_str()),
            constructors: ctors.dup(),
            record_builder: None,
        };
        acc.types.insert(name.clone(), info);
        add_ctors(acc, &ctors);
    }
}

fn resolve_local_header_value(surface: &HeaderSurface, module: &str, name: &str) -> (r: Option<
    String,
>)
    ensures
        r.deep_view() == local_value(surface.deep_view(), module@, name@),
{
    if let Some(canonical) = surface.values.named(name) {
        return Some(canonical.clone());
    }
    match split_last_dot(name) {
        Some((owner, value)) => if text_eq(owner.as_str(), module) {
            match surface.values.named(value.as_str()) {
                Some(canonical) => Some(canonical.clone()),
                None => None,
            }
        } else {
            Some(name.to_owned())
        },
        None => None,
    }
}

fn add_builder(
    module: &str,
    acc: &mut HeaderSurface,
    name: &String,
    builder: &HeaderRecordBuilder,
)
    ensures
        final(acc).deep_view() == with_builder(
            module@,
            old(acc).deep_view(),
            (name@, builder.deep_view()),
        ),
{
    if !builder.public {
        return ;
    }
    let context = after_last_dot(builder.context.as_str());
    let start = resolve_local_header_value(acc, module, builder.start.as_str());
    let field = resolve_local_header_value(acc, module, builder.field.as_str());
    let info = match acc.types.named(context) {
        Some(t) => Some(t.dup()),
        None => None,
    };
    match (start, field, info) {
        (Some(start), Some(field), Some(info)) => {
            let builder = RecordBuilderInfo { context: info.canonical.clone(), start, field };
            let info = HeaderTypeSurface {
                canonical: info.canonical,
                constructors: info.constructors,
                record_builder: Some(builder),
            };
            acc.types.insert(context.to_owned(), info);
        },
        _ => {},
    }
}

fn add_functions(module: &str, acc: &mut HeaderSurface, items: &Table<String, HeaderFunction>)
    ensures
        final(acc).deep_view() == with_functions(module@, old(acc).deep_view(), items.order()),
{
    let ghost a0 = acc.deep_view();
    let ghost all = items.order();
    let n = items.len();
    let mut i: usize = 0;
    assert(all.take(0) =~= Seq::empty());
    while i < n
        invariant
            i <= n,
            all == items.order(),
            n == all.len(),
            acc.deep_view() == with_functions(module@, a0, all.take(i as int)),
        decreases n - i,
    {
        proof {
            assert(all.take(i + 1).drop_last() =~= all.take(i as int));
            assert(all.take(i + 1).last() == all[i as int]);
        }
        if items.value(i).public {
            let name = items.key(i);
            acc.values.insert(name.clone(), dot_join(module, name.as_str()));
        }
        i = i + 1;
    }
    assert(all.take(i as int) =~= all);
}

fn add_types(module: &str, acc: &mut HeaderSurface, items: &Table<String, HeaderTypeDecl>)
    ensures
        final(acc).deep_view() == with_types(module@, old(acc).deep_view(), items.order()),
{
    let ghost a0 = acc.deep_view();
    let ghost all = items.order();
    let n = items.len();
    let mut i: usize = 0;
    assert(all.take(0) =~= Seq::empty());
    while i < n
        invariant
            i <= n,
            all == items.order(),
            n == all.len(),
            acc.deep_view() == with_types(module@, a0, all.take(i as int)),
        decreases n - i,
    {
        proof {
            assert(all.take(i + 1).drop_last() =~= all.take(i as int));
            assert(all.take(i + 1).last() == all[i as int]);
        }
        add_type(module, acc, items.key(i), items.value(i));
        i = i + 1;
    }
    assert(all.take(i as int) =~= all);
}

fn add_records(module: &str, acc: &mut HeaderSurface, items: &Table<String, HeaderRecordDecl>)
    ensures
        final(acc).deep_view() == with_records(module@, old(acc).deep_view(), items.order()),
{
    let ghost a0 = acc.deep_view();
    let ghost all = items.order();
    let n = items.len();
    let mut i: usize = 0;
    assert(all.take(0) =~= Seq::empty());
    while i < n
        invariant
            i <= n,
            all == items.order(),
            n == all.len(),
            acc.deep_view() == with_records(module@, a0, all.take(i as int)),
        decreases n - i,
    {
        proof {
            assert(all.take(i + 1).drop_last() =~= all.take(i as int));
            assert(all.take(i + 1).last() == all[i as int]);
        }
        if items.value(i).public {
            let name = items.key(i);
            let canonical = dot_join(module, name.as_str());
            let mut ctors: Vec<HeaderConstructorSurface> = Vec::new();
            let ctor = HeaderConstructorSurface {
                surface_name: name.clone(),
                canonical: canonical.clone(),
            };
            push_value(&mut ctors, ctor);
            assert(ctors.deep_view() =~= seq![
                CtorSurface { surface_name: name@, canonical: canonical@ },
            ]);
            let info = HeaderTypeSurface {
                canonical: canonical.clone(),
                constructors: ctors,
                record_builder: None,
            };
            acc.types.insert(name.clone(), info);
            acc.constructors.insert(name.clone(), canonical.clone());
            acc.values.insert(name.clone(), canonical);
        }
        i = i + 1;
    }
    assert(all.take(i as int) =~= all);
}

fn add_traits(module: &str, acc: &mut HeaderSurface, items: &Table<String, HeaderTraitDecl>)
    ensures
        final(acc).deep_view() == with_traits(module@, old(acc).deep_view(), items.order()),
{
    let ghost a0 = acc.deep_view();
    let ghost all = items.order();
    let n = items.len();
    let mut i: usize = 0;
    assert(all.take(0) =~= Seq::empty());
    while i < n
        invariant
            i <= n,
            all == items.order(),
            n == all.len(),
            acc.deep_view() == with_traits(module@, a0, all.take(i as int)),
        decreases n - i,
    {
        proof {
            assert(all.take(i + 1).drop_last() =~= all.take(i as int));
            assert(all.take(i + 1).last() == all[i as int]);
        }
        let decl = items.value(i);
        if decl.public {
            let name = items.key(i);
            let info = HeaderTraitSurface {
                canonical: dot_join(module, name.as_str()),
                methods: method_names(&decl.methods),
            };
            acc.traits.insert(name.clone(), info);
        }
        i = i + 1;
    }
    assert(all.take(i as int) =~= all);
}

fn add_effects(module: &str, acc: &mut HeaderSurface, items: &Table<String, HeaderEffectDecl>)
    ensures
        final(acc).deep_view() == with_effects(module@, old(acc).deep_view(), items.order()),
{
    let ghost a0 = acc.deep_view();
    let ghost all = items.order();
    let n = items.len();
    let mut i: usize = 0;
    assert(all.take(0) =~= Seq::empty());
    while i < n
        invariant
            i <= n,
            all == items.order(),
            n == all.len(),
            acc.deep_view() == with_effects(module@, a0, all.take(i as int)),
        decreases n - i,
    {
        proof {
            assert(all.take(i + 1).drop_last() =~= all.take(i as int));
            assert(all.take(i + 1).last() == all[i as int]);
        }
        let decl = items.value(i);
        if decl.public {
            let name = items.key(i);
            let info = HeaderEffectSurface {
                canonical: dot_join(module, name.as_str()),
                ops: operation_names(&decl.operations),
            };
            acc.effects.insert(name.clone(), info);
        }
        i = i + 1;
    }
    assert(all.take(i as int) =~= all);
}

fn add_handlers(module: &str, acc: &mut HeaderSurface, items: &Table<String, HeaderHandlerDecl>)
    ensures
        final(acc).deep_view() == with_handlers(module@, old(acc).deep_view(), items.order()),
{
    let ghost a0 = acc.deep_view();
    let ghost all = items.order();
    let n = items.len();
    let mut i: usize = 0;
    assert(all.take(0) =~= Seq::empty());
    while i < n
        invariant
            i <= n,
            all == items.order(),
            n == all.len(),
            acc.deep_view() == with_handlers(module@, a0, all.take(i as int)),
        decreases n - i,
    {
        proof {
            assert(all.take(i + 1).drop_last() =~= all.take(i as int));
            assert(all.take(i + 1).last() == all[i as int]);
        }
        if items.value(i).public {
            let name = items.key(i);
            let canonical = dot_join(module, name.as_str());
            acc.handlers.insert(name.clone(), canonical.clone());
            acc.values.insert(name.clone(), canonical);
        }
        i = i + 1;
    }
    assert(all.take(i as int) =~= all);
}

fn add_builders(module: &str, acc: &mut HeaderSurface, items: &Table<String, HeaderRecordBuilder>)
    ensures
        final(acc).deep_view() == with_builders(module@, old(acc).deep_view(), items.order()),
{
    let ghost a0 = acc.deep_view();
    let ghost all = items.order();
    let n = items.len();
    let mut i: usize = 0;
    assert(all.take(0) =~= Seq::empty());
    while i < n
        invariant
            i <= n,
            all == items.order(),
            n == all.len(),
            acc.deep_view() == with_builders(module@, a0, all.take(i as int)),
        decreases n - i,
    {
        proof {
            assert(all.take(i + 1).drop_last() =~= all.take(i as int));
            assert(all.take(i + 1).last() == all[i as int]);
        }
        add_builder(module, acc, items.key(i), items.value(i));
        i = i + 1;
    }
    assert(all.take(i as int) =~= all);
}

/// The names that a module declares and makes visible.
pub fn local_header_surface(module: &str, header: &ModuleHeader) -> (r: HeaderSurface)
    ensures
        r.deep_view() == local_surface(module@, header.deep_view()),
{
    let mut surface = HeaderSurface::new();
    add_functions(module, &mut surface, &header.functions);
    add_types(module, &mut surface, &header.types);
    add_records(module, &mut surface, &header.records);
    add_traits(module, &mut surface, &header.traits);
    add_effects(module, &mut surface, &header.effects);
    add_handlers(module, &mut surface, &header.handlers);
    add_builders(module, &mut surface, &header.record_builders);
    surface
}

impl HeaderSurface {
    /// The surface without names.
    pub fn new() -> (r: Self)
        ensures
            r.deep_view() == empty_surface(),
    {
        HeaderSurface {
            values: Table::new(),
            handlers: Table::new(),
            types: Table::new(),
            constructors: Table::new(),
            traits: Table::new(),
            effects: Table::new(),
        }
    }

    /// What a name of a kind stands for.
    pub fn resolve(&self, name: &str, space: HeaderNamespace) -> (r: Option<HeaderResolved>)
        ensures
            r.deep_view() == resolved_in(self.deep_view(), name@, space),
    {
        match space {
            HeaderNamespace::Value => match self.values.named(name) {
                Some(c) => Some(HeaderResolved::Canonical(c.clone())),
                None => None,
            },
            HeaderNamespace::Handler => match self.handlers.named(name) {
                Some(c) => Some(HeaderResolved::Canonical(c.clone())),
                None => None,
            },
            HeaderNamespace::Type => match self.types.named(name) {
                Some(c) => Some(HeaderResolved::Type(c.dup())),
                None => None,
            },
            HeaderNamespace::Constructor => match self.constructors.named(name) {
                Some(c) => Some(HeaderResolved::Canonical(c.clone())),
                None => None,
            },
            HeaderNamespace::Trait => match self.traits.named(name) {
                Some(c) => Some(HeaderResolved::Trait(c.dup())),
                None => None,
            },
            HeaderNamespace::Effect => match self.effects.named(name) {
                Some(c) => Some(HeaderResolved::Effect(c.dup())),
                None => None,
            },
        }
    }

    /// Adds what a re-exported name stands for.
    pub fn insert_resolved(
        &mut self,
        origin: &str,
        surface: &str,
        space: HeaderNamespace,
        resolved: HeaderResolved,
    )
        ensures
            final(self).deep_view() == with_resolved(
                old(self).deep_view(),
                origin@,
                surface@,
                space,
                resolved.deep_view(),
            ),
    {
        match (space, resolved) {
            (HeaderNamespace::Value, HeaderResolved::Canonical(c)) => {
                self.values.insert_if_absent(surface.to_owned(), c);
            },
            (HeaderNamespace::Handler, HeaderResolved::Canonical(c)) => {
                self.handlers.insert_if_absent(surface.to_owned(), c);
            },
            (HeaderNamespace::Constructor, HeaderResolved::Canonical(c)) => {
                self.constructors.insert_if_absent(surface.to_owned(), c.clone());
                self.values.insert_if_absent(surface.to_owned(), c);
            },
            (HeaderNamespace::Type, HeaderResolved::Type(info)) => {
                let ctors = renamed_ctors(origin, surface, &info.constructors);
                add_new_ctors(self, &ctors);
                let info = HeaderTypeSurface {
                    canonical: info.canonical,
                    constructors: ctors,
                    record_builder: info.record_builder,
                };
                self.types.insert_if_absent(surface.to_owned(), info);
            },
            (HeaderNamespace::Trait, HeaderResolved::Trait(info)) => {
                self.traits.insert_if_absent(surface.to_owned(), info);
            },
            (HeaderNamespace::Effect, HeaderResolved::Effect(info)) => {
                self.effects.insert_if_absent(surface.to_owned(), info);
            },
            _ => {},
        }
    }

    /// Takes over the names of `other` that are new.
    pub fn merge(&mut self, other: &HeaderSurface)
        ensures
            final(self).deep_view() == merged_surfaces(old(self).deep_view(), other.deep_view()),
    {
        self.values.put_all_new(&other.values);
        self.handlers.put_all_new(&other.handlers);
        self.types.put_all_new(&other.types);
        self.constructors.put_all_new(&other.constructors);
        self.traits.put_all_new(&other.traits);
        self.effects.put_all_new(&other.effects);
    }
}

} // verus!
