//! The types that module headers write down: what their names stand for, and the
//! types and schemes that they make.

use vstd::prelude::*;
use crate::checker::{Checker, CheckerModel};
use crate::display::shown;
use crate::exports::{entry_names, first_at, first_entries_are_found, table_names};
use crate::fun_types::{find_var, fun_type, function_type_with_innermost_effects};
use crate::header_decls::{
    FunctionModel, HeaderFunction, HeaderModel, HeaderTraitBound, HeaderTraitRef, ModuleHeader,
    TraitBoundModel, TraitRefModel,
};
use crate::header_scope::{scope_for_header_imports, with_header_imports};
use crate::header_syntax::{
    EffectRefModel, HeaderEffectRef, HeaderTy, HeaderTypeExpr, group_header_models,
};
use crate::names::{canonical_type_name, canonicalize_type_name};
use crate::schemes::{Scheme, SchemeModel};
use crate::scope::{empty_scope, lookup, ScopeMap, ScopeModel};
use crate::seqs::{add_new, add_new_one, push_new};
use crate::signatures::Constraint;
use crate::table::Table;
use crate::text::{dot_join, dotted, has_char, text_at_most, text_le};
use crate::type_vars::{collect_free_vars, free_vars, free_vars_in_types, vars_of_all, with_free};
use crate::types::{EffectEntry, EffectRow, Entry, Row, Ty, Type, group_type_models};
use crate::values::{push_value, Dup};

verus! {

/// What the names in a module header stand for.
pub struct HeaderRegistrationScope {
    pub module_name: String,
    /// The names that its imports bring into scope.
    pub imports: ScopeMap,
    /// The types that it declares.
    pub local_types: Table<String, String>,
    /// The traits that it declares.
    pub local_traits: Table<String, String>,
    /// The effects that it declares.
    pub local_effects: Table<String, String>,
}

#[verifier::ext_equal]
pub struct HeaderScopeModel {
    pub module_name: Seq<char>,
    pub imports: ScopeModel,
    pub local_types: Map<Seq<char>, Seq<char>>,
    pub local_traits: Map<Seq<char>, Seq<char>>,
    pub local_effects: Map<Seq<char>, Seq<char>>,
}

impl DeepView for HeaderRegistrationScope {
    type V = HeaderScopeModel;

    open spec fn deep_view(&self) -> HeaderScopeModel {
        HeaderScopeModel {
            module_name: self.module_name.deep_view(),
            imports: self.imports.deep_view(),
            local_types: self.local_types.deep_view(),
            local_traits: self.local_traits.deep_view(),
            local_effects: self.local_effects.deep_view(),
        }
    }
}

impl Dup for HeaderRegistrationScope {
    fn dup(&self) -> (r: Self) {
        HeaderRegistrationScope {
            module_name: self.module_name.dup(),
            imports: self.imports.dup(),
            local_types: self.local_types.dup(),
            local_traits: self.local_traits.dup(),
            local_effects: self.local_effects.dup(),
        }
    }
}

/// Names with one that a module declares.
pub open spec fn with_local(
    module: Seq<char>,
    names: Map<Seq<char>, Seq<char>>,
    name: Seq<char>,
) -> Map<Seq<char>, Seq<char>> {
    names.insert(name, dotted(module, name))
}

pub open spec fn with_locals(
    module: Seq<char>,
    acc: Map<Seq<char>, Seq<char>>,
    items: Seq<Seq<char>>,
) -> Map<Seq<char>, Seq<char>>
    decreases items.len(),
{
    if items.len() == 0 {
        acc
    } else {
        with_local(module, with_locals(module, acc, items.drop_last()), items.last())
    }
}

fn add_locals(module: &str, acc: &mut Table<String, String>, items: &Vec<String>)
    ensures
        final(acc).deep_view() == with_locals(module@, old(acc).deep_view(), items.deep_view()),
{
    let ghost a0 = acc.deep_view();
    let ghost all = items.deep_view();
    let mut i: usize = 0;
    assert(all.take(0) =~= Seq::empty());
    while i < items.len()
        invariant
            i <= items.len(),
            all == items.deep_view(),
            acc.deep_view() == with_locals(module@, a0, all.take(i as int)),
        decreases items.len() - i,
    {
        proof {
            assert(all.take(i + 1).drop_last() =~= all.take(i as int));
            assert(all.take(i + 1).last() == all[i as int]);
        }
        acc.insert(items[i].clone(), dot_join(module, items[i].as_str()));
        i = i + 1;
    }
    assert(all.take(i as int) =~= all);
}

/// What the names in a module header stand for, or why its imports do not.
pub open spec fn registration_scope(
    module: Seq<char>,
    h: HeaderModel,
    headers: Seq<(Seq<char>, HeaderModel)>,
) -> Result<HeaderScopeModel, Seq<char>> {
    match with_header_imports(headers, empty_scope(), h.imports) {
        Err(e) => Err(e),
        Ok(imports) => Ok(
            HeaderScopeModel {
                module_name: module,
                imports,
                local_types: with_locals(
                    module,
                    with_locals(module, Map::empty(), entry_names(h.types)),
                    entry_names(h.records),
                ),
                local_traits: with_locals(module, Map::empty(), entry_names(h.traits)),
                local_effects: with_locals(module, Map::empty(), entry_names(h.effects)),
            },
        ),
    }
}

impl HeaderRegistrationScope {
    /// What the names in a module header stand for.
    pub fn new(
        module: &str,
        header: &ModuleHeader,
        headers: &Table<String, ModuleHeader>,
    ) -> (r: Result<
        Self,
        String,
    >)
        ensures
            crate::values::outcome(r) == registration_scope(
                module@,
                header.deep_view(),
                headers.order(),
            ),
    {
        let imports = match scope_for_header_imports(header, headers) {
            Ok(imports) => imports,
            Err(e) => {
                return Err(e);
            },
        };
        let mut local_types: Table<String, String> = Table::new();
        let names = table_names(&header.types);
        add_locals(module, &mut local_types, &names);
        let names = table_names(&header.records);
        add_locals(module, &mut local_types, &names);
        let mut local_traits: Table<String, String> = Table::new();
        let names = table_names(&header.traits);
        add_locals(module, &mut local_traits, &names);
        let mut local_effects: Table<String, String> = Table::new();
        let names = table_names(&header.effects);
        add_locals(module, &mut local_effects, &names);
        Ok(
            HeaderRegistrationScope {
                module_name: module.to_owned(),
                imports,
                local_types,
                local_traits,
                local_effects,
            },
        )
    }
}

/// What decides what the names of a header stand for: the scope of the checker, and
/// that of the header.
pub struct NameSource {
    pub outer: ScopeModel,
    pub own: HeaderScopeModel,
}

/// The first of three answers.
pub open spec fn first_answer(
    a: Option<Seq<char>>,
    b: Option<Seq<char>>,
    c: Option<Seq<char>>,
) -> Option<Seq<char>> {
    match a {
        Some(x) => Some(x),
        None => match b {
            Some(x) => Some(x),
            None => c,
        },
    }
}

/// What a type name in a header stands for.
pub open spec fn header_type_name(k: NameSource, name: Seq<char>) -> Seq<char> {
    match first_answer(
        lookup(k.own.local_types, name),
        lookup(k.own.imports.types, name),
        lookup(k.outer.types, name),
    ) {
        Some(canonical) => canonical,
        None => if name.contains('.') {
            name
        } else {
            canonical_type_name(name)
        },
    }
}

/// What an effect name in a header stands for.
pub open spec fn header_effect_name(k: NameSource, name: Seq<char>) -> Seq<char> {
    match first_answer(
        lookup(k.own.local_effects, name),
        lookup(k.own.imports.effects, name),
        lookup(k.outer.effects, name),
    ) {
        Some(canonical) => canonical,
        None => if name.contains('.') {
            name
        } else {
            dotted(k.own.module_name, name)
        },
    }
}

/// What a trait name in a header stands for.
pub open spec fn header_trait_name(k: NameSource, name: Seq<char>) -> Seq<char> {
    match first_answer(
        lookup(k.own.local_traits, name),
        lookup(k.own.imports.traits, name),
        lookup(k.outer.traits, name),
    ) {
        Some(canonical) => canonical,
        None => if name.contains('.') {
            name
        } else {
            dotted(k.own.module_name, name)
        },
    }
}

pub open spec fn name_source(c: CheckerModel, s: HeaderScopeModel) -> NameSource {
    NameSource { outer: c.scope_map, own: s }
}

impl Checker {
    /// What a type name in a header stands for.
    pub fn resolve_header_type_name(
        &self,
        name: &str,
        scope: &HeaderRegistrationScope,
    ) -> (r: String)
        ensures
            r@ == header_type_name(name_source(self.deep_view(), scope.deep_view()), name@),
    {
        if let Some(canonical) = scope.local_types.named(name) {
            return canonical.clone();
        }
        if let Some(canonical) = scope.imports.resolve_type(name) {
            return canonical.clone();
        }
        if let Some(canonical) = self.scope_map.resolve_type(name) {
            return canonical.clone();
        }
        if has_char(name, '.') {
            name.to_owned()
        } else {
            canonicalize_type_name(name).to_owned()
        }
    }

    /// What an effect name in a header stands for.
    pub fn resolve_header_effect_name(
        &self,
        name: &str,
        scope: &HeaderRegistrationScope,
    ) -> (r: String)
        ensures
            r@ == header_effect_name(name_source(self.deep_view(), scope.deep_view()), name@),
    {
        if let Some(canonical) = scope.local_effects.named(name) {
            return canonical.clone();
        }
        if let Some(canonical) = scope.imports.resolve_effect(name) {
            return canonical.clone();
        }
        if let Some(canonical) = self.scope_map.resolve_effect(name) {
            return canonical.clone();
        }
        if has_char(name, '.') {
            name.to_owned()
        } else {
            dot_join(scope.module_name.as_str(), name)
        }
    }

    /// What a trait name in a header stands for.
    pub fn resolve_header_trait_ref(
        &self,
        trait_ref: &HeaderTraitRef,
        scope: &HeaderRegistrationScope,
    ) -> (r:
        String)
        ensures
            r@ == header_trait_name(
                name_source(self.deep_view(), scope.deep_view()),
                trait_ref.name@,
            ),
    {
        let name = trait_ref.name.as_str();
        if let Some(canonical) = scope.local_traits.named(name) {
            return canonical.clone();
        }
        if let Some(canonical) = scope.imports.resolve_trait(name) {
            return canonical.clone();
        }
        if let Some(canonical) = self.scope_map.resolve_trait(name) {
            return canonical.clone();
        }
        if has_char(name, '.') {
            name.to_owned()
        } else {
            dot_join(scope.module_name.as_str(), name)
        }
    }
}

/// The variables that a signature speaks of so far, and the next one.
#[verifier::ext_equal]
pub struct VarState {
    pub vars: Seq<(Seq<char>, u32)>,
    pub next: nat,
}

/// The variable of a name: a known one, or the next one.
pub open spec fn var_for(s: VarState, name: Seq<char>) -> (u32, VarState) {
    match first_at(s.vars, name) {
        Some(id) => (id, s),
        None => (
            s.next as u32,
            VarState { vars: s.vars.push((name, s.next as u32)), next: s.next + 1 },
        ),
    }
}

/// The row variables of names.
pub open spec fn row_vars_for(names: Seq<Seq<char>>, s: VarState) -> (Seq<Ty>, VarState)
    decreases names.len(),
{
    if names.len() == 0 {
        (Seq::empty(), s)
    } else {
        let before = row_vars_for(names.drop_last(), s);
        let last = var_for(before.1, names.last());
        (before.0.push(Ty::Var(last.0)), last.1)
    }
}

/// A field in its place among fields in order: behind those whose names are not
/// greater.
pub open spec fn with_field(
    fields: Seq<(Seq<char>, Ty)>,
    f: (Seq<char>, Ty),
) -> Seq<(Seq<char>, Ty)>
    decreases fields.len(),
{
    if fields.len() == 0 || text_le(fields.last().0, f.0) {
        fields.push(f)
    } else {
        with_field(fields.drop_last(), f).push(fields.last())
    }
}

/// Fields in the order of their names; fields of one name stay in order.
pub open spec fn fields_in_order(fields: Seq<(Seq<char>, Ty)>) -> Seq<(Seq<char>, Ty)>
    decreases fields.len(),
{
    if fields.len() == 0 {
        Seq::empty()
    } else {
        with_field(fields_in_order(fields.drop_last()), fields.last())
    }
}

/// The type that is written in a header.
pub open spec fn typed(k: NameSource, t: HeaderTy, s: VarState) -> (Ty, VarState)
    decreases t,
{
    match t {
        HeaderTy::Named(name) => (Ty::Con(header_type_name(k, name), Seq::empty()), s),
        HeaderTy::Var(name) => {
            let v = var_for(s, name);
            (Ty::Var(v.0), v.1)
        },
        HeaderTy::App { func, arg } => {
            let f = typed(k, *func, s);
            let a = typed(k, *arg, f.1);
            (
                match f.0 {
                    Ty::Con(name, args) => Ty::Con(name, args.push(a.0)),
                    other => Ty::Con(shown(other), seq![a.0]),
                },
                a.1,
            )
        },
        HeaderTy::Arrow { from, to, effects, effect_row_vars } => {
            let a = typed(k, *from, s);
            let b = typed(k, *to, a.1);
            let e = typed_entries(k, effects, b.1);
            let r = row_vars_for(effect_row_vars, e.1);
            (
                Ty::Fun(Box::new(a.0), Box::new(b.0), Row { effects: e.0, tails: r.0 }),
                r.1,
            )
        },
        HeaderTy::Record(fields) => {
            let f = typed_fields(k, fields, s);
            (Ty::Record(fields_in_order(f.0)), f.1)
        },
        HeaderTy::Labeled { inner, .. } => typed(k, *inner, s),
        HeaderTy::Symbol(name) => (Ty::Symbol(name), s),
    }
}

pub open spec fn typed_all(k: NameSource, ts: Seq<HeaderTy>, s: VarState) -> (Seq<Ty>, VarState)
    decreases ts,
{
    if ts.len() == 0 {
        (Seq::empty(), s)
    } else {
        let before = typed_all(k, ts.drop_last(), s);
        let last = typed(k, ts.last(), before.1);
        (before.0.push(last.0), last.1)
    }
}

pub open spec fn typed_fields(k: NameSource, fields: Seq<(Seq<char>, HeaderTy)>, s: VarState) -> (
    Seq<(Seq<char>, Ty)>,
    VarState,
)
    decreases fields,
{
    if fields.len() == 0 {
        (Seq::empty(), s)
    } else {
        let before = typed_fields(k, fields.drop_last(), s);
        let last = typed(k, fields.last().1, before.1);
        (before.0.push((fields.last().0, last.0)), last.1)
    }
}

pub open spec fn typed_entries(k: NameSource, effects: Seq<EffectRefModel>, s: VarState) -> (
    Seq<Entry>,
    VarState,
)
    decreases effects,
{
    if effects.len() == 0 {
        (Seq::empty(), s)
    } else {
        let before = typed_entries(k, effects.drop_last(), s);
        let args = typed_all(k, effects.last().type_args, before.1);
        (
            before.0.push(
                Entry { name: header_effect_name(k, effects.last().name), args: args.0 },
            ),
            args.1,
        )
    }
}

/// The effect row that is written in a header.
pub open spec fn typed_row(
    k: NameSource,
    effects: Seq<EffectRefModel>,
    row_vars: Seq<Seq<char>>,
    s: VarState,
) -> (Row, VarState) {
    let e = typed_entries(k, effects, s);
    let r = row_vars_for(row_vars, e.1);
    (Row { effects: e.0, tails: r.0 }, r.1)
}

pub proof fn row_vars_grow(names: Seq<Seq<char>>, s: VarState)
    ensures
        s.next <= row_vars_for(names, s).1.next,
    decreases names.len(),
{
    if names.len() > 0 {
        row_vars_grow(names.drop_last(), s);
    }
}

/// Variables are only ever added.
pub proof fn typed_grows(k: NameSource, t: HeaderTy, s: VarState)
    ensures
        s.next <= typed(k, t, s).1.next,
    decreases t,
{
    match t {
        HeaderTy::App { func, arg } => {
            typed_grows(k, *func, s);
            typed_grows(k, *arg, typed(k, *func, s).1);
        },
        HeaderTy::Arrow { from, to, effects, effect_row_vars } => {
            let a = typed(k, *from, s);
            let b = typed(k, *to, a.1);
            let e = typed_entries(k, effects, b.1);
            typed_grows(k, *from, s);
            typed_grows(k, *to, a.1);
            entries_grow(k, effects, b.1);
            row_vars_grow(effect_row_vars, e.1);
        },
        HeaderTy::Record(fields) => {
            fields_grow(k, fields, s);
        },
        HeaderTy::Labeled { inner, .. } => {
            typed_grows(k, *inner, s);
        },
        _ => {},
    }
}

pub proof fn all_grow(k: NameSource, ts: Seq<HeaderTy>, s: VarState)
    ensures
        s.next <= typed_all(k, ts, s).1.next,
    decreases ts,
{
    if ts.len() > 0 {
        all_grow(k, ts.drop_last(), s);
        typed_grows(k, ts.last(), typed_all(k, ts.drop_last(), s).1);
    }
}

pub proof fn fields_grow(k: NameSource, fields: Seq<(Seq<char>, HeaderTy)>, s: VarState)
    ensures
        s.next <= typed_fields(k, fields, s).1.next,
    decreases fields,
{
    if fields.len() > 0 {
        fields_grow(k, fields.drop_last(), s);
        typed_grows(k, fields.last().1, typed_fields(k, fields.drop_last(), s).1);
    }
}

pub proof fn entries_grow(k: NameSource, effects: Seq<EffectRefModel>, s: VarState)
    ensures
        s.next <= typed_entries(k, effects, s).1.next,
    decreases effects,
{
    if effects.len() > 0 {
        entries_grow(k, effects.drop_last(), s);
        all_grow(k, effects.last().type_args, typed_entries(k, effects.drop_last(), s).1);
    }
}

proof fn all_grow_within(k: NameSource, ts: Seq<HeaderTy>, s: VarState, n: int)
    requires
        0 <= n <= ts.len(),
    ensures
        typed_all(k, ts.take(n), s).1.next <= typed_all(k, ts, s).1.next,
    decreases ts.len(),
{
    if n < ts.len() {
        assert(ts.drop_last().take(n) =~= ts.take(n));
        all_grow_within(k, ts.drop_last(), s, n);
        typed_grows(k, ts.last(), typed_all(k, ts.drop_last(), s).1);
    } else {
        assert(ts.take(n) =~= ts);
    }
}

pub proof fn fields_grow_within(
    k: NameSource,
    fields: Seq<(Seq<char>, HeaderTy)>,
    s: VarState,
    n: int,
)
    requires
        0 <= n <= fields.len(),
    ensures
        typed_fields(k, fields.take(n), s).1.next <= typed_fields(k, fields, s).1.next,
    decreases fields.len(),
{
    if n < fields.len() {
        assert(fields.drop_last().take(n) =~= fields.take(n));
        fields_grow_within(k, fields.drop_last(), s, n);
        typed_grows(k, fields.last().1, typed_fields(k, fields.drop_last(), s).1);
    } else {
        assert(fields.take(n) =~= fields);
    }
}

proof fn entries_grow_within(k: NameSource, effects: Seq<EffectRefModel>, s: VarState, n: int)
    requires
        0 <= n <= effects.len(),
    ensures
        typed_entries(k, effects.take(n), s).1.next <= typed_entries(k, effects, s).1.next,
    decreases effects.len(),
{
    if n < effects.len() {
        assert(effects.drop_last().take(n) =~= effects.take(n));
        entries_grow_within(k, effects.drop_last(), s, n);
        all_grow(k, effects.last().type_args, typed_entries(k, effects.drop_last(), s).1);
    } else {
        assert(effects.take(n) =~= effects);
    }
}

proof fn row_vars_grow_within(names: Seq<Seq<char>>, s: VarState, n: int)
    requires
        0 <= n <= names.len(),
    ensures
        row_vars_for(names.take(n), s).1.next <= row_vars_for(names, s).1.next,
    decreases names.len(),
{
    if n < names.len() {
        assert(names.drop_last().take(n) =~= names.take(n));
        row_vars_grow_within(names.drop_last(), s, n);
    } else {
        assert(names.take(n) =~= names);
    }
}

fn put_field(fields: &mut Vec<(String, Type)>, f: (String, Type))
    ensures
        final(fields).deep_view() == with_field(old(fields).deep_view(), f.deep_view()),
    decreases old(fields).len(),
{
    let ghost all = fields.deep_view();
    assert(all.len() == fields.len());
    if fields.len() == 0 {
        push_value(fields, f);
        return;
    }
    let last: usize = fields.len() - 1;
    assert(all.last() == fields@[last as int].deep_view());
    if text_at_most(fields[last].0.as_str(), f.0.as_str()) {
        push_value(fields, f);
        return;
    }
    let ghost all_exec = fields@;
    let top = fields.pop();
    proof {
        assert(fields.deep_view() =~= all.drop_last());
    }
    match top {
        Some(top) => {
            assert(top.deep_view() == all.last());
            put_field(fields, f);
            push_value(fields, top);
        },
        None => {},
    }
}

fn put_fields_in_order(fields: &Vec<(String, Type)>) -> (r: Vec<(String, Type)>)
    ensures
        r.deep_view() == fields_in_order(fields.deep_view()),
{
    let ghost all = fields.deep_view();
    let mut out: Vec<(String, Type)> = Vec::new();
    let mut i: usize = 0;
    assert(all.take(0) =~= Seq::empty());
    assert(out.deep_view() =~= Seq::empty());
    while i < fields.len()
        invariant
            i <= fields.len(),
            all == fields.deep_view(),
            out.deep_view() == fields_in_order(all.take(i as int)),
        decreases fields.len() - i,
    {
        proof {
            assert(all.take(i + 1).drop_last() =~= all.take(i as int));
            assert(all.take(i + 1).last() == all[i as int]);
            assert(all[i as int] == fields@[i as int].deep_view());
        }
        put_field(&mut out, (fields[i].0.clone(), fields[i].1.dup()));
        i = i + 1;
    }
    assert(all.take(i as int) =~= all);
    out
}

/// Where a conversion stands.
pub open spec fn var_state(c: CheckerModel, vars: Seq<(Seq<char>, u32)>) -> VarState {
    VarState { vars, next: c.next_var as nat }
}

/// The state of the checker after a conversion.
pub open spec fn with_next(c: CheckerModel, s: VarState) -> CheckerModel {
    CheckerModel { next_var: s.next as u32, ..c }
}

impl Checker {
    /// The variable of a name.
    pub fn header_var(&mut self, name: &String, params: &mut Vec<(String, u32)>) -> (r: u32)
        requires
            var_for(
                var_state(old(self).deep_view(), old(params).deep_view()),
                name@,
            ).1.next <= u32::MAX,
        ensures
            ({
                let v = var_for(
                    var_state(old(self).deep_view(), old(params).deep_view()),
                    name@,
                );
                &&& r == v.0
                &&& final(params).deep_view() == v.1.vars
                &&& final(self).deep_view() == with_next(old(self).deep_view(), v.1)
            }),
    {
        match find_var(params, name.as_str()) {
            Some(id) => id,
            None => {
                let id = self.fresh_var();
                push_value(params, (name.clone(), id));
                id
            },
        }
    }

    fn header_tails(
        &mut self,
        names: &Vec<String>,
        params: &mut Vec<(String, u32)>,
    ) -> (r: Vec<Type>)
        requires
            row_vars_for(
                names.deep_view(),
                var_state(old(self).deep_view(), old(params).deep_view()),
            ).1.next <= u32::MAX,
        ensures
            ({
                let t = row_vars_for(
                    names.deep_view(),
                    var_state(old(self).deep_view(), old(params).deep_view()),
                );
                &&& r.deep_view() == t.0
                &&& final(params).deep_view() == t.1.vars
                &&& final(self).deep_view() == with_next(old(self).deep_view(), t.1)
            }),
    {
        let ghost c0 = self.deep_view();
        let ghost s0 = var_state(c0, params.deep_view());
        let ghost all = names.deep_view();
        let mut out: Vec<Type> = Vec::new();
        let mut i: usize = 0;
        assert(all.take(0) =~= Seq::empty());
        assert(out.deep_view() =~= Seq::empty());
        while i < names.len()
            invariant
                i <= names.len(),
                all == names.deep_view(),
                s0.next == c0.next_var,
                row_vars_for(all, s0).1.next <= u32::MAX,
                out.deep_view() == row_vars_for(all.take(i as int), s0).0,
                params.deep_view() == row_vars_for(all.take(i as int), s0).1.vars,
                self.next_var == row_vars_for(all.take(i as int), s0).1.next,
                self.deep_view() == (CheckerModel { next_var: self.next_var, ..c0 }),
            decreases names.len() - i,
        {
            broadcast use group_type_models;

            proof {
                assert(all.take(i + 1).drop_last() =~= all.take(i as int));
                assert(all.take(i + 1).last() == all[i as int]);
                row_vars_grow_within(all, s0, i + 1);
            }
            let id = self.header_var(&names[i], params);
            push_value(&mut out, Type::Var(id));
            i = i + 1;
        }
        assert(all.take(i as int) =~= all);
        out
    }

    /// The type that is written in a header.
    pub fn header_type_expr_to_type(
        &mut self,
        ty: &HeaderTypeExpr,
        params: &mut Vec<(String, u32)>,
        scope: &HeaderRegistrationScope,
    ) -> (r: Type)
        requires
            typed(
                name_source(old(self).deep_view(), scope.deep_view()),
                ty.deep_view(),
                var_state(old(self).deep_view(), old(params).deep_view()),
            ).1.next <= u32::MAX,
        ensures
            ({
                let t = typed(
                    name_source(old(self).deep_view(), scope.deep_view()),
                    ty.deep_view(),
                    var_state(old(self).deep_view(), old(params).deep_view()),
                );
                &&& r.deep_view() == t.0
                &&& final(params).deep_view() == t.1.vars
                &&& final(self).deep_view() == with_next(old(self).deep_view(), t.1)
            }),
        decreases ty,
    {
        broadcast use group_type_models;
        broadcast use group_header_models;

        let ghost k = name_source(self.deep_view(), scope.deep_view());
        let ghost s = var_state(self.deep_view(), params.deep_view());
        match ty {
            HeaderTypeExpr::Named(name) => {
                let args: Vec<Type> = Vec::new();
                let canonical = self.resolve_header_type_name(name.as_str(), scope);
                let t = Type::Con(canonical, args);
                proof {
                    crate::types::con_model(t->Con_0, t->Con_1);
                    assert(args.deep_view() =~= Seq::empty());
                }
                t
            },
            HeaderTypeExpr::Var(name) => {
                let id = self.header_var(name, params);
                Type::Var(id)
            },
            HeaderTypeExpr::App { func, arg } => {
                proof {
                    typed_grows(k, arg.deep_view(), typed(k, func.deep_view(), s).1);
                }
                let func_ty = self.header_type_expr_to_type(func, params, scope);
                let arg_ty = self.header_type_expr_to_type(arg, params, scope);
                match func_ty {
                    Type::Con(name, args) => {
                        let mut args = args;
                        push_value(&mut args, arg_ty);
                        Type::Con(name, args)
                    },
                    other => {
                        let mut args: Vec<Type> = Vec::new();
                        push_value(&mut args, arg_ty);
                        assert(args.deep_view() =~= seq![arg_ty@]);
                        Type::Con(other.display(), args)
                    },
                }
            },
            HeaderTypeExpr::Arrow { from, to, effects, effect_row_vars } => {
                proof {
                    let a = typed(k, from.deep_view(), s);
                    let b = typed(k, to.deep_view(), a.1);
                    let e = typed_entries(k, effects.deep_view(), b.1);
                    typed_grows(k, to.deep_view(), a.1);
                    entries_grow(k, effects.deep_view(), b.1);
                    row_vars_grow(effect_row_vars.deep_view(), e.1);
                }
                let a = self.header_type_expr_to_type(from, params, scope);
                let b = self.header_type_expr_to_type(to, params, scope);
                let effects = self.header_entries(effects, params, scope);
                let tails = self.header_tails(effect_row_vars, params);
                let row = EffectRow { effects, tails };
                proof {
                    crate::types::row_model_parts(row);
                }
                Type::Fun(Box::new(a), Box::new(b), row)
            },
            HeaderTypeExpr::Record(fields) => {
                let fields = self.header_fields(fields, params, scope);
                let fields = put_fields_in_order(&fields);
                Type::Record(fields)
            },
            HeaderTypeExpr::Labeled { inner, .. } => {
                self.header_type_expr_to_type(inner, params, scope)
            },
            HeaderTypeExpr::Symbol(name) => Type::Symbol(name.clone()),
        }
    }

    /// The types that are written in a header.
    pub fn header_types(
        &mut self,
        items: &Vec<HeaderTypeExpr>,
        params: &mut Vec<(String, u32)>,
        scope: &HeaderRegistrationScope,
    ) -> (r: Vec<Type>)
        requires
            typed_all(
                name_source(old(self).deep_view(), scope.deep_view()),
                items.deep_view(),
                var_state(old(self).deep_view(), old(params).deep_view()),
            ).1.next <= u32::MAX,
        ensures
            ({
                let t = typed_all(
                    name_source(old(self).deep_view(), scope.deep_view()),
                    items.deep_view(),
                    var_state(old(self).deep_view(), old(params).deep_view()),
                );
                &&& r.deep_view() == t.0
                &&& final(params).deep_view() == t.1.vars
                &&& final(self).deep_view() == with_next(old(self).deep_view(), t.1)
            }),
        decreases items,
    {
        let ghost c0 = self.deep_view();
        let ghost k = name_source(c0, scope.deep_view());
        let ghost s0 = var_state(c0, params.deep_view());
        let ghost all = items.deep_view();
        let mut out: Vec<Type> = Vec::new();
        let mut i: usize = 0;
        assert(all.take(0) =~= Seq::empty());
        assert(out.deep_view() =~= Seq::empty());
        while i < items.len()
            invariant
                i <= items.len(),
                all == items.deep_view(),
                k == name_source(c0, scope.deep_view()),
                s0.next == c0.next_var,
                typed_all(k, all, s0).1.next <= u32::MAX,
                out.deep_view() == typed_all(k, all.take(i as int), s0).0,
                params.deep_view() == typed_all(k, all.take(i as int), s0).1.vars,
                self.next_var == typed_all(k, all.take(i as int), s0).1.next,
                self.deep_view() == (CheckerModel { next_var: self.next_var, ..c0 }),
            decreases items.len() - i,
        {
            proof {
                assert(all.take(i + 1).drop_last() =~= all.take(i as int));
                assert(all.take(i + 1).last() == all[i as int]);
                assert(all[i as int] == items@[i as int].deep_view());
                all_grow_within(k, all, s0, i + 1);
            }
            let t = self.header_type_expr_to_type(&items[i], params, scope);
            push_value(&mut out, t);
            i = i + 1;
        }
        assert(all.take(i as int) =~= all);
        out
    }

    /// The fields that are written in a header.
    pub fn header_fields(
        &mut self,
        items: &Vec<(String, HeaderTypeExpr)>,
        params: &mut Vec<(String, u32)>,
        scope: &HeaderRegistrationScope,
    ) -> (r: Vec<(String, Type)>)
        requires
            typed_fields(
                name_source(old(self).deep_view(), scope.deep_view()),
                items.deep_view(),
                var_state(old(self).deep_view(), old(params).deep_view()),
            ).1.next <= u32::MAX,
        ensures
            ({
                let t = typed_fields(
                    name_source(old(self).deep_view(), scope.deep_view()),
                    items.deep_view(),
                    var_state(old(self).deep_view(), old(params).deep_view()),
                );
                &&& r.deep_view() == t.0
                &&& final(params).deep_view() == t.1.vars
                &&& final(self).deep_view() == with_next(old(self).deep_view(), t.1)
            }),
        decreases items,
    {
        let ghost c0 = self.deep_view();
        let ghost k = name_source(c0, scope.deep_view());
        let ghost s0 = var_state(c0, params.deep_view());
        let ghost all = items.deep_view();
        let mut out: Vec<(String, Type)> = Vec::new();
        let mut i: usize = 0;
        assert(all.take(0) =~= Seq::empty());
        assert(out.deep_view() =~= Seq::empty());
        while i < items.len()
            invariant
                i <= items.len(),
                all == items.deep_view(),
                k == name_source(c0, scope.deep_view()),
                s0.next == c0.next_var,
                typed_fields(k, all, s0).1.next <= u32::MAX,
                out.deep_view() == typed_fields(k, all.take(i as int), s0).0,
                params.deep_view() == typed_fields(k, all.take(i as int), s0).1.vars,
                self.next_var == typed_fields(k, all.take(i as int), s0).1.next,
                self.deep_view() == (CheckerModel { next_var: self.next_var, ..c0 }),
            decreases items.len() - i,
        {
            proof {
                assert(all.take(i + 1).drop_last() =~= all.take(i as int));
                assert(all.take(i + 1).last() == all[i as int]);
                assert(all[i as int] == items@[i as int].deep_view());
                fields_grow_within(k, all, s0, i + 1);
            }
            let t = self.header_type_expr_to_type(&items[i].1, params, scope);
            push_value(&mut out, (items[i].0.clone(), t));
            i = i + 1;
        }
        assert(all.take(i as int) =~= all);
        out
    }

    fn header_entries(
        &mut self,
        items: &Vec<HeaderEffectRef>,
        params: &mut Vec<(String, u32)>,
        scope: &HeaderRegistrationScope,
    ) -> (r: Vec<EffectEntry>)
        requires
            typed_entries(
                name_source(old(self).deep_view(), scope.deep_view()),
                items.deep_view(),
                var_state(old(self).deep_view(), old(params).deep_view()),
            ).1.next <= u32::MAX,
        ensures
            ({
                let t = typed_entries(
                    name_source(old(self).deep_view(), scope.deep_view()),
                    items.deep_view(),
                    var_state(old(self).deep_view(), old(params).deep_view()),
                );
                &&& r.deep_view() == t.0
                &&& final(params).deep_view() == t.1.vars
                &&& final(self).deep_view() == with_next(old(self).deep_view(), t.1)
            }),
        decreases items,
    {
        let ghost c0 = self.deep_view();
        let ghost k = name_source(c0, scope.deep_view());
        let ghost s0 = var_state(c0, params.deep_view());
        let ghost all = items.deep_view();
        let mut out: Vec<EffectEntry> = Vec::new();
        let mut i: usize = 0;
        assert(all.take(0) =~= Seq::empty());
        assert(out.deep_view() =~= Seq::empty());
        while i < items.len()
            invariant
                i <= items.len(),
                all == items.deep_view(),
                k == name_source(c0, scope.deep_view()),
                s0.next == c0.next_var,
                typed_entries(k, all, s0).1.next <= u32::MAX,
                out.deep_view() == typed_entries(k, all.take(i as int), s0).0,
                params.deep_view() == typed_entries(k, all.take(i as int), s0).1.vars,
                self.next_var == typed_entries(k, all.take(i as int), s0).1.next,
                self.deep_view() == (CheckerModel { next_var: self.next_var, ..c0 }),
            decreases items.len() - i,
        {
            proof {
                assert(all.take(i + 1).drop_last() =~= all.take(i as int));
                assert(all.take(i + 1).last() == all[i as int]);
                assert(all[i as int] == items@[i as int].deep_view());
                entries_grow_within(k, all, s0, i + 1);
            }
            proof {
                crate::header_syntax::header_effect_ref_model(items@[i as int]);
            }
            let args = self.header_types(&items[i].type_args, params, scope);
            let entry = EffectEntry {
                name: self.resolve_header_effect_name(items[i].name.as_str(), scope),
                args,
            };
            proof {
                crate::types::entry_model_parts(entry);
            }
            push_value(&mut out, entry);
            i = i + 1;
        }
        assert(all.take(i as int) =~= all);
        out
    }

    /// The effect row that is written in a header.
    pub fn header_effect_row(
        &mut self,
        effects: &Vec<HeaderEffectRef>,
        effect_row_vars: &Vec<String>,
        params: &mut Vec<(String, u32)>,
        scope: &HeaderRegistrationScope,
    ) -> (r: EffectRow)
        requires
            typed_row(
                name_source(old(self).deep_view(), scope.deep_view()),
                effects.deep_view(),
                effect_row_vars.deep_view(),
                var_state(old(self).deep_view(), old(params).deep_view()),
            ).1.next <= u32::MAX,
        ensures
            ({
                let t = typed_row(
                    name_source(old(self).deep_view(), scope.deep_view()),
                    effects.deep_view(),
                    effect_row_vars.deep_view(),
                    var_state(old(self).deep_view(), old(params).deep_view()),
                );
                &&& r@ == t.0
                &&& final(params).deep_view() == t.1.vars
                &&& final(self).deep_view() == with_next(old(self).deep_view(), t.1)
            }),
    {
        proof {
            let k = name_source(self.deep_view(), scope.deep_view());
            let s = var_state(self.deep_view(), params.deep_view());
            row_vars_grow(
                effect_row_vars.deep_view(),
                typed_entries(k, effects.deep_view(), s).1,
            );
        }
        let effects = self.header_entries(effects, params, scope);
        let tails = self.header_tails(effect_row_vars, params);
        let row = EffectRow { effects, tails };
        proof {
            crate::types::row_model_parts(row);
        }
        row
    }
}

/// The constraints that a bound of a header makes, for the first `n` traits.
pub open spec fn bound_typed(
    k: NameSource,
    id: u32,
    traits: Seq<TraitRefModel>,
    acc: Seq<Constraint>,
    s: VarState,
) -> (Seq<Constraint>, VarState)
    decreases traits.len(),
{
    if traits.len() == 0 {
        (acc, s)
    } else {
        let before = bound_typed(k, id, traits.drop_last(), acc, s);
        let args = typed_all(k, traits.last().type_args, before.1);
        (before.0.push((header_trait_name(k, traits.last().name), id, args.0)), args.1)
    }
}

/// The constraints that the bounds of a header make.
pub open spec fn bounds_typed(k: NameSource, bounds: Seq<TraitBoundModel>, s: VarState) -> (
    Seq<Constraint>,
    VarState,
)
    decreases bounds.len(),
{
    if bounds.len() == 0 {
        (Seq::empty(), s)
    } else {
        let before = bounds_typed(k, bounds.drop_last(), s);
        let v = var_for(before.1, bounds.last().type_var);
        bound_typed(k, v.0, bounds.last().traits, before.0, v.1)
    }
}

proof fn bound_grows(
    k: NameSource,
    id: u32,
    traits: Seq<TraitRefModel>,
    acc: Seq<Constraint>,
    s: VarState,
)
    ensures
        s.next <= bound_typed(k, id, traits, acc, s).1.next,
    decreases traits.len(),
{
    if traits.len() > 0 {
        bound_grows(k, id, traits.drop_last(), acc, s);
        all_grow(
            k,
            traits.last().type_args,
            bound_typed(k, id, traits.drop_last(), acc, s).1,
        );
    }
}

proof fn bound_grows_within(
    k: NameSource,
    id: u32,
    traits: Seq<TraitRefModel>,
    acc: Seq<Constraint>,
    s: VarState,
    n: int,
)
    requires
        0 <= n <= traits.len(),
    ensures
        bound_typed(k, id, traits.take(n), acc, s).1.next <= bound_typed(
            k,
            id,
            traits,
            acc,
            s,
        ).1.next,
    decreases traits.len(),
{
    if n < traits.len() {
        assert(traits.drop_last().take(n) =~= traits.take(n));
        bound_grows_within(k, id, traits.drop_last(), acc, s, n);
        all_grow(
            k,
            traits.last().type_args,
            bound_typed(k, id, traits.drop_last(), acc, s).1,
        );
    } else {
        assert(traits.take(n) =~= traits);
    }
}

pub proof fn bounds_grow(k: NameSource, bounds: Seq<TraitBoundModel>, s: VarState)
    ensures
        s.next <= bounds_typed(k, bounds, s).1.next,
    decreases bounds.len(),
{
    if bounds.len() > 0 {
        bounds_grow(k, bounds.drop_last(), s);
        let before = bounds_typed(k, bounds.drop_last(), s);
        let v = var_for(before.1, bounds.last().type_var);
        bound_grows(k, v.0, bounds.last().traits, before.0, v.1);
    }
}

proof fn bounds_grow_within(k: NameSource, bounds: Seq<TraitBoundModel>, s: VarState, n: int)
    requires
        0 <= n <= bounds.len(),
    ensures
        bounds_typed(k, bounds.take(n), s).1.next <= bounds_typed(k, bounds, s).1.next,
    decreases bounds.len(),
{
    if n < bounds.len() {
        assert(bounds.drop_last().take(n) =~= bounds.take(n));
        bounds_grow_within(k, bounds.drop_last(), s, n);
        let before = bounds_typed(k, bounds.drop_last(), s);
        let v = var_for(before.1, bounds.last().type_var);
        bound_grows(k, v.0, bounds.last().traits, before.0, v.1);
    } else {
        assert(bounds.take(n) =~= bounds);
    }
}

impl Checker {
    fn header_bound(
        &mut self,
        id: u32,
        traits: &Vec<HeaderTraitRef>,
        out: &mut Vec<(String, u32, Vec<Type>)>,
        params: &mut Vec<(String, u32)>,
        scope: &HeaderRegistrationScope,
    )
        requires
            bound_typed(
                name_source(old(self).deep_view(), scope.deep_view()),
                id,
                traits.deep_view(),
                old(out).deep_view(),
                var_state(old(self).deep_view(), old(params).deep_view()),
            ).1.next <= u32::MAX,
        ensures
            ({
                let t = bound_typed(
                    name_source(old(self).deep_view(), scope.deep_view()),
                    id,
                    traits.deep_view(),
                    old(out).deep_view(),
                    var_state(old(self).deep_view(), old(params).deep_view()),
                );
                &&& final(out).deep_view() == t.0
                &&& final(params).deep_view() == t.1.vars
                &&& final(self).deep_view() == with_next(old(self).deep_view(), t.1)
            }),
    {
        let ghost c0 = self.deep_view();
        let ghost k = name_source(c0, scope.deep_view());
        let ghost s0 = var_state(c0, params.deep_view());
        let ghost acc0 = out.deep_view();
        let ghost all = traits.deep_view();
        let mut i: usize = 0;
        assert(all.take(0) =~= Seq::empty());
        while i < traits.len()
            invariant
                i <= traits.len(),
                all == traits.deep_view(),
                k == name_source(c0, scope.deep_view()),
                s0.next == c0.next_var,
                bound_typed(k, id, all, acc0, s0).1.next <= u32::MAX,
                out.deep_view() == bound_typed(k, id, all.take(i as int), acc0, s0).0,
                params.deep_view() == bound_typed(k, id, all.take(i as int), acc0, s0).1.vars,
                self.next_var == bound_typed(k, id, all.take(i as int), acc0, s0).1.next,
                self.deep_view() == (CheckerModel { next_var: self.next_var, ..c0 }),
            decreases traits.len() - i,
        {
            proof {
                assert(all.take(i + 1).drop_last() =~= all.take(i as int));
                assert(all.take(i + 1).last() == all[i as int]);
                assert(all[i as int] == traits@[i as int].deep_view());
                bound_grows_within(k, id, all, acc0, s0, i + 1);
            }
            let name = self.resolve_header_trait_ref(&traits[i], scope);
            let args = self.header_types(&traits[i].type_args, params, scope);
            push_value(out, (name, id, args));
            i = i + 1;
        }
        assert(all.take(i as int) =~= all);
    }

    /// The constraints that the bounds of a header make.
    pub fn header_trait_constraints(
        &mut self,
        bounds: &Vec<HeaderTraitBound>,
        params: &mut Vec<(String, u32)>,
        scope: &HeaderRegistrationScope,
    ) -> (r: Vec<(String, u32, Vec<Type>)>)
        requires
            bounds_typed(
                name_source(old(self).deep_view(), scope.deep_view()),
                bounds.deep_view(),
                var_state(old(self).deep_view(), old(params).deep_view()),
            ).1.next <= u32::MAX,
        ensures
            ({
                let t = bounds_typed(
                    name_source(old(self).deep_view(), scope.deep_view()),
                    bounds.deep_view(),
                    var_state(old(self).deep_view(), old(params).deep_view()),
                );
                &&& r.deep_view() == t.0
                &&& final(params).deep_view() == t.1.vars
                &&& final(self).deep_view() == with_next(old(self).deep_view(), t.1)
            }),
    {
        let ghost c0 = self.deep_view();
        let ghost k = name_source(c0, scope.deep_view());
        let ghost s0 = var_state(c0, params.deep_view());
        let ghost all = bounds.deep_view();
        let mut out: Vec<(String, u32, Vec<Type>)> = Vec::new();
        let mut i: usize = 0;
        assert(all.take(0) =~= Seq::empty());
        assert(out.deep_view() =~= Seq::empty());
        while i < bounds.len()
            invariant
                i <= bounds.len(),
                all == bounds.deep_view(),
                k == name_source(c0, scope.deep_view()),
                s0.next == c0.next_var,
                bounds_typed(k, all, s0).1.next <= u32::MAX,
                out.deep_view() == bounds_typed(k, all.take(i as int), s0).0,
                params.deep_view() == bounds_typed(k, all.take(i as int), s0).1.vars,
                self.next_var == bounds_typed(k, all.take(i as int), s0).1.next,
                self.deep_view() == (CheckerModel { next_var: self.next_var, ..c0 }),
            decreases bounds.len() - i,
        {
            proof {
                assert(all.take(i + 1).drop_last() =~= all.take(i as int));
                assert(all.take(i + 1).last() == all[i as int]);
                assert(all[i as int] == bounds@[i as int].deep_view());
                bounds_grow_within(k, all, s0, i + 1);
                let before = bounds_typed(k, all.take(i as int), s0);
                let v = var_for(before.1, all[i as int].type_var);
                bound_grows(k, v.0, all[i as int].traits, before.0, v.1);
            }
            let b = &bounds[i];
            let id = self.header_var(&b.type_var, params);
            self.header_bound(id, &b.traits, &mut out, params, scope);
            i = i + 1;
        }
        assert(all.take(i as int) =~= all);
        out
    }
}

/// The quantified variables with those of a constraint.
pub open spec fn with_quantified(vars: Seq<u32>, c: Constraint) -> Seq<u32> {
    with_free(Seq::empty(), add_new(vars, seq![c.1]), vars_of_all(c.2))
}

pub open spec fn with_all_quantified(acc: Seq<u32>, items: Seq<Constraint>) -> Seq<u32>
    decreases items.len(),
{
    if items.len() == 0 {
        acc
    } else {
        with_quantified(with_all_quantified(acc, items.drop_last()), items.last())
    }
}

fn quantify(acc: &mut Vec<u32>, items: &Vec<(String, u32, Vec<Type>)>)
    ensures
        final(acc)@ == with_all_quantified(old(acc)@, items.deep_view()),
{
    let ghost a0 = acc@;
    let ghost all = items.deep_view();
    let mut i: usize = 0;
    assert(all.take(0) =~= Seq::empty());
    while i < items.len()
        invariant
            i <= items.len(),
            all == items.deep_view(),
            acc@ == with_all_quantified(a0, all.take(i as int)),
        decreases items.len() - i,
    {
        proof {
            assert(all.take(i + 1).drop_last() =~= all.take(i as int));
            assert(all.take(i + 1).last() == all[i as int]);
        }
        let c = &items[i];
        assert(all[i as int] == c.deep_view());
        proof {
            add_new_one(acc@, c.1);
            assert(acc.deep_view() =~= acc@);
        }
        push_new(acc, c.1);
        assert(acc.deep_view() =~= acc@);
        let none: Vec<u32> = Vec::new();
        assert(none@ =~= Seq::empty());
        free_vars_in_types(&c.2, &none, acc);
        i = i + 1;
    }
    assert(all.take(i as int) =~= all);
}

pub open spec fn field_type(f: (Seq<char>, Ty)) -> Ty {
    f.1
}

/// The scheme of a function of a header, and the next variable after that.
pub open spec fn header_scheme(k: NameSource, f: FunctionModel, next: nat) -> (SchemeModel, nat) {
    let params = typed_fields(k, f.params, VarState { vars: Seq::empty(), next });
    let result = typed(k, f.return_type, params.1);
    let row = typed_row(k, f.effects, f.effect_row_vars, result.1);
    let ty = fun_type(
        params.0.map_values(|p: (Seq<char>, Ty)| field_type(p)),
        result.0,
        row.0,
    );
    let constraints = bounds_typed(k, f.where_clause, row.1);
    (
        SchemeModel {
            forall: with_all_quantified(free_vars(ty), constraints.0),
            constraints: constraints.0,
            ty,
        },
        constraints.1.next,
    )
}

/// The scheme of a function only adds variables.
pub proof fn header_scheme_grows(k: NameSource, f: FunctionModel, next: nat)
    ensures
        next <= header_scheme(k, f, next).1,
{
    let params = typed_fields(k, f.params, VarState { vars: Seq::empty(), next });
    let result = typed(k, f.return_type, params.1);
    let row = typed_row(k, f.effects, f.effect_row_vars, result.1);
    fields_grow(k, f.params, VarState { vars: Seq::empty(), next });
    typed_grows(k, f.return_type, params.1);
    entries_grow(k, f.effects, result.1);
    row_vars_grow(f.effect_row_vars, typed_entries(k, f.effects, result.1).1);
    bounds_grow(k, f.where_clause, row.1);
}

/// The types of fields.
pub fn types_of_fields(v: &Vec<(String, Type)>) -> (r: Vec<Type>)
    ensures
        r.deep_view() == v.deep_view().map_values(|p: (Seq<char>, Ty)| field_type(p)),
{
    let mut out: Vec<Type> = Vec::new();
    let mut i: usize = 0;
    while i < v.len()
        invariant
            i <= v.len(),
            out.len() == i,
            forall|j: int|
                0 <= j < i ==> #[trigger] out.deep_view()[j] == field_type(v.deep_view()[j]),
        decreases v.len() - i,
    {
        push_value(&mut out, v[i].1.dup());
        i = i + 1;
    }
    assert(out.deep_view() =~= v.deep_view().map_values(|p: (Seq<char>, Ty)| field_type(p)));
    out
}

impl Checker {
    /// The scheme of a function of a header.
    pub fn header_function_scheme(
        &mut self,
        function: &HeaderFunction,
        scope: &HeaderRegistrationScope,
    ) -> (r:
        Scheme)
        requires
            header_scheme(
                name_source(old(self).deep_view(), scope.deep_view()),
                function.deep_view(),
                old(self).next_var as nat,
            ).1 <= u32::MAX,
        ensures
            ({
                let s = header_scheme(
                    name_source(old(self).deep_view(), scope.deep_view()),
                    function.deep_view(),
                    old(self).next_var as nat,
                );
                &&& r.deep_view() == s.0
                &&& final(self).deep_view() == (CheckerModel {
                    next_var: s.1 as u32,
                    ..old(self).deep_view()
                })
            }),
    {
        proof {
            let k = name_source(self.deep_view(), scope.deep_view());
            let f = function.deep_view();
            let s = VarState { vars: Seq::empty(), next: self.next_var as nat };
            let params = typed_fields(k, f.params, s);
            let result = typed(k, f.return_type, params.1);
            let row = typed_row(k, f.effects, f.effect_row_vars, result.1);
            typed_grows(k, f.return_type, params.1);
            entries_grow(k, f.effects, result.1);
            row_vars_grow(f.effect_row_vars, typed_entries(k, f.effects, result.1).1);
            bounds_grow(k, f.where_clause, row.1);
        }
        let mut params: Vec<(String, u32)> = Vec::new();
        assert(params.deep_view() =~= Seq::empty());
        let fields = self.header_fields(&function.params, &mut params, scope);
        let param_types = types_of_fields(&fields);
        let result = self.header_type_expr_to_type(&function.return_type, &mut params, scope);
        let row = self.header_effect_row(
            &function.effects,
            &function.effect_row_vars,
            &mut params,
            scope,
        );
        let ty = function_type_with_innermost_effects(&param_types, result, row);
        let mut quantified: Vec<u32> = Vec::new();
        assert(quantified@ =~= Seq::empty());
        collect_free_vars(&ty, &mut quantified);
        let constraints = self.header_trait_constraints(
            &function.where_clause,
            &mut params,
            scope,
        );
        quantify(&mut quantified, &constraints);
        assert(quantified.deep_view() =~= quantified@);
        Scheme { forall: quantified, constraints, ty }
    }
}

/// A name that a module declares itself stands for its own type, whatever it
/// imports.
pub proof fn own_types_win(k: NameSource, name: Seq<char>)
    requires
        k.own.local_types.dom().contains(name),
    ensures
        header_type_name(k, name) == k.own.local_types[name],
{
}

/// Putting fields in order loses none and adds none.
pub proof fn fields_in_order_keep(fields: Seq<(Seq<char>, Ty)>)
    ensures
        fields_in_order(fields).to_multiset() == fields.to_multiset(),
    decreases fields.len(),
{
    broadcast use vstd::seq_lib::group_to_multiset_ensures;

    if fields.len() > 0 {
        fields_in_order_keep(fields.drop_last());
        with_field_keeps(fields_in_order(fields.drop_last()), fields.last());
        assert(fields =~= fields.drop_last().push(fields.last()));
    } else {
        assert(fields =~= Seq::empty());
    }
}

proof fn with_field_keeps(fields: Seq<(Seq<char>, Ty)>, f: (Seq<char>, Ty))
    ensures
        with_field(fields, f).to_multiset() == fields.to_multiset().insert(f),
    decreases fields.len(),
{
    broadcast use vstd::seq_lib::group_to_multiset_ensures;

    if fields.len() == 0 || text_le(fields.last().0, f.0) {
    } else {
        with_field_keeps(fields.drop_last(), f);
        assert(fields =~= fields.drop_last().push(fields.last()));
        assert(fields.to_multiset() =~= fields.drop_last().to_multiset().insert(fields.last()));
        assert(with_field(fields, f).to_multiset() =~= fields.to_multiset().insert(f));
    }
}

/// Whether the variables of a signature are one for each name: no two names have the
/// same, and all of them come before the next one.
pub open spec fn names_are_apart(s: VarState) -> bool {
    &&& forall|i: int| 0 <= i < s.vars.len() ==> (#[trigger] s.vars[i]).1 < s.next
    &&& forall|i: int, j: int|
        0 <= i < j < s.vars.len() ==> (#[trigger] s.vars[i]).0 != (#[trigger] s.vars[j]).0
            && s.vars[i].1 != s.vars[j].1
}

/// The variable of a name is the one that the name has, where it has one; else it is
/// new. After that the name has it, and all other names have theirs.
pub proof fn names_stand_for_one_variable(s: VarState, name: Seq<char>, other: Seq<char>)
    requires
        names_are_apart(s),
        s.next <= u32::MAX,
    ensures
        ({
            let (id, after) = var_for(s, name);
            &&& names_are_apart(after)
            &&& first_at(after.vars, name) == Some(id)
            &&& first_at(s.vars, name) is Some ==> after == s
            &&& first_at(s.vars, name) is None ==> id == s.next
            &&& first_at(s.vars, other) is Some ==> first_at(after.vars, other) == first_at(
                s.vars,
                other,
            )
            &&& other != name ==> first_at(after.vars, other) == first_at(s.vars, other)
            &&& other != name && first_at(s.vars, other) is Some ==> first_at(s.vars, other)
                != Some(id)
        }),
{
    let (id, after) = var_for(s, name);
    first_entries_are_found(s.vars, name);
    first_entries_are_found(s.vars, other);
    if first_at(s.vars, name) is None {
        assert(after.vars.drop_last() =~= s.vars);
        assert forall|i: int, j: int| 0 <= i < j < after.vars.len() implies (
        #[trigger] after.vars[i]).0 != (#[trigger] after.vars[j]).0 && after.vars[i].1
            != after.vars[j].1 by {
            assert(after.vars[i] == s.vars[i]);
            if j < s.vars.len() {
                assert(after.vars[j] == s.vars[j]);
            }
        }
        assert forall|i: int| 0 <= i < after.vars.len() implies (#[trigger] after.vars[i]).1
            < after.next by {
            if i < s.vars.len() {
                assert(after.vars[i] == s.vars[i]);
            }
        }
    } else if other != name {
        if first_at(s.vars, other) is Some {
            let v = first_at(s.vars, name)->0;
            let w = first_at(s.vars, other)->0;
            let i = choose|i: int| 0 <= i < s.vars.len() && #[trigger] s.vars[i] == (name, v);
            let j = choose|j: int| 0 <= j < s.vars.len() && #[trigger] s.vars[j] == (other, w);
            if i < j {
                assert(s.vars[i].1 != s.vars[j].1);
            } else {
                assert(s.vars[j].1 != s.vars[i].1);
            }
        }
    }
}

/// A type in a header becomes the type of its shape: arguments are applied in order, an
/// arrow takes what stands before it to what stands behind it with the effects that it
/// names, and a label says nothing of the type.
pub proof fn header_types_keep_their_shape(k: NameSource, t: HeaderTy, s: VarState)
    ensures
        match t {
            HeaderTy::Named(name) => typed(k, t, s) == (
                Ty::Con(header_type_name(k, name), Seq::empty()),
                s,
            ),
            HeaderTy::Var(name) => typed(k, t, s).0 == Ty::Var(var_for(s, name).0),
            HeaderTy::App { func, arg } => {
                let f = typed(k, *func, s);
                f.0 matches Ty::Con(name, args) ==> {
                    &&& typed(k, t, s).0 matches Ty::Con(name1, args1)
                    &&& name1 == name
                    &&& args1.len() == args.len() + 1
                    &&& args1.last() == typed(k, *arg, f.1).0
                    &&& forall|i: int| 0 <= i < args.len() ==> #[trigger] args1[i] == args[i]
                }
            },
            HeaderTy::Arrow { from, to, effects, effect_row_vars } => {
                let a = typed(k, *from, s);
                &&& typed(k, t, s).0 matches Ty::Fun(from1, to1, row)
                &&& *from1 == a.0
                &&& *to1 == typed(k, *to, a.1).0
                &&& row.effects.len() == effects.len()
                &&& forall|i: int|
                    0 <= i < effects.len() ==> (#[trigger] row.effects[i]).name
                        == header_effect_name(k, effects[i].name)
                &&& row.tails.len() == effect_row_vars.len()
            },
            HeaderTy::Labeled { inner, .. } => typed(k, t, s) == typed(k, *inner, s),
            HeaderTy::Symbol(name) => typed(k, t, s) == (Ty::Symbol(name), s),
            _ => true,
        },
{
    match t {
        HeaderTy::Arrow { from, to, effects, effect_row_vars } => {
            let b = typed(k, *to, typed(k, *from, s).1);
            entries_keep_names(k, effects, b.1);
            let e = typed_entries(k, effects, b.1);
            row_vars_are_counted(effect_row_vars, e.1);
        },
        _ => {},
    }
}

proof fn entries_keep_names(k: NameSource, effects: Seq<EffectRefModel>, s: VarState)
    ensures
        typed_entries(k, effects, s).0.len() == effects.len(),
        forall|i: int|
            0 <= i < effects.len() ==> (#[trigger] typed_entries(k, effects, s).0[i]).name
                == header_effect_name(k, effects[i].name),
    decreases effects.len(),
{
    if effects.len() > 0 {
        let init = effects.drop_last();
        entries_keep_names(k, init, s);
        assert forall|i: int| 0 <= i < effects.len() implies (#[trigger] typed_entries(
            k,
            effects,
            s,
        ).0[i]).name == header_effect_name(k, effects[i].name) by {
            if i < init.len() {
                assert(typed_entries(k, effects, s).0[i] == typed_entries(k, init, s).0[i]);
            }
        }
    }
}

proof fn row_vars_are_counted(names: Seq<Seq<char>>, s: VarState)
    ensures
        row_vars_for(names, s).0.len() == names.len(),
    decreases names.len(),
{
    if names.len() > 0 {
        row_vars_are_counted(names.drop_last(), s);
    }
}

/// A name in a header stands for what the module declares, else for what its imports
/// bring, else for what the checker knows.
pub proof fn header_names_are_found_nearest_first(k: NameSource, name: Seq<char>)
    ensures
        k.own.local_types.dom().contains(name) ==> header_type_name(k, name)
            == k.own.local_types[name],
        !k.own.local_types.dom().contains(name) && k.own.imports.types.dom().contains(name)
            ==> header_type_name(k, name) == k.own.imports.types[name],
        !k.own.local_types.dom().contains(name) && !k.own.imports.types.dom().contains(name)
            && k.outer.types.dom().contains(name) ==> header_type_name(k, name)
            == k.outer.types[name],
        k.own.local_effects.dom().contains(name) ==> header_effect_name(k, name)
            == k.own.local_effects[name],
        !k.own.local_effects.dom().contains(name) && k.own.imports.effects.dom().contains(name)
            ==> header_effect_name(k, name) == k.own.imports.effects[name],
        !k.own.local_effects.dom().contains(name) && !k.own.imports.effects.dom().contains(name)
            && k.outer.effects.dom().contains(name) ==> header_effect_name(k, name)
            == k.outer.effects[name],
        k.own.local_traits.dom().contains(name) ==> header_trait_name(k, name)
            == k.own.local_traits[name],
        !k.own.local_traits.dom().contains(name) && k.own.imports.traits.dom().contains(name)
            ==> header_trait_name(k, name) == k.own.imports.traits[name],
        !k.own.local_traits.dom().contains(name) && !k.own.imports.traits.dom().contains(name)
            && k.outer.traits.dom().contains(name) ==> header_trait_name(k, name)
            == k.outer.traits[name],
{
}

} // verus!
