//! Registering traits.

use vstd::prelude::*;
use crate::ast::{TraitRef, TypeParam};
use crate::checker::{local_name, resolved_name, Checker, CheckerModel, LspModel, TraitStateModel};
use crate::codegen_info::arrow_count;
use crate::exports::first_at;
use crate::fun_types::{
    effect_sig_of, find_var, fun_type, function_type_with_innermost_effects,
    trait_method_effect_sig,
};
use crate::infos::{MethodModel, TraitInfo, TraitMethodInfo, TraitModel};
use crate::schemes::{EnvModel, Scheme, SchemeModel};
use crate::scope::{lookup, with_members, ScopeModel};
use crate::seqs::{add_new, add_new_contains, add_new_one, push_new};
use crate::table::{at_key, distinct_keys, has_key, put, put_then_get, with_new, Table};
use crate::text::{dot_join, dotted, text_eq};
use crate::token::Span;
use crate::type_vars::{collect_free_vars, free_vars};
use crate::types::{EffectRow, Row, Ty, Type, group_type_models};
use crate::values::{push_value, Dup};

verus! {

/// The canonical name of the trait that a name stands for.
pub open spec fn trait_named(c: CheckerModel, name: Seq<char>) -> Option<Seq<char>> {
    let traits = c.trait_state.traits;
    if has_key(traits, name) {
        Some(name)
    } else {
        match lookup(c.scope_map.traits, name) {
            Some(canonical) => if has_key(traits, canonical) {
                Some(canonical)
            } else {
                own_trait(c, name)
            },
            None => own_trait(c, name),
        }
    }
}

/// The trait of a name that the module itself declares.
pub open spec fn own_trait(c: CheckerModel, name: Seq<char>) -> Option<Seq<char>> {
    match c.current_module {
        Some(module) => if has_key(c.trait_state.traits, dotted(module, name)) {
            Some(dotted(module, name))
        } else {
            None
        },
        None => None,
    }
}

impl Checker {
    /// The canonical name of the trait that a name stands for: the name itself
    /// where it is canonical, then what the scope has, then a trait of the module.
    pub fn resolve_trait_name(&self, name: &str) -> (r: Option<String>)
        ensures
            r.deep_view() == trait_named(self.deep_view(), name@),
    {
        if self.trait_state.traits.has_name(name) {
            return Some(name.to_owned());
        }
        if let Some(canonical) = self.scope_map.resolve_trait(name) {
            if self.trait_state.traits.has_name(canonical.as_str()) {
                return Some(canonical.clone());
            }
        }
        match &self.current_module {
            Some(module) => {
                let canonical = dot_join(module.as_str(), name);
                if self.trait_state.traits.has_name(canonical.as_str()) {
                    Some(canonical)
                } else {
                    None
                }
            },
            None => None,
        }
    }
}

/// The signature of a trait method, its types converted.
#[derive(Debug)]
pub struct MethodSig {
    pub name: String,
    pub param_types: Vec<Type>,
    pub return_type: Type,
    pub effect_row: EffectRow,
    /// The variables that the signature speaks of.
    pub vars: Vec<(String, u32)>,
}

#[verifier::ext_equal]
pub struct MethodSigModel {
    pub name: Seq<char>,
    pub param_types: Seq<Ty>,
    pub return_type: Ty,
    pub effect_row: Row,
    pub vars: Seq<(Seq<char>, u32)>,
}

impl DeepView for MethodSig {
    type V = MethodSigModel;

    open spec fn deep_view(&self) -> MethodSigModel {
        MethodSigModel {
            name: self.name.deep_view(),
            param_types: self.param_types.deep_view(),
            return_type: self.return_type.deep_view(),
            effect_row: self.effect_row.deep_view(),
            vars: self.vars.deep_view(),
        }
    }
}

impl Dup for MethodSig {
    fn dup(&self) -> (r: Self) {
        MethodSig {
            name: self.name.dup(),
            param_types: self.param_types.dup(),
            return_type: self.return_type.dup(),
            effect_row: self.effect_row.dup(),
            vars: self.vars.dup(),
        }
    }
}

/// The names of type parameters.
pub open spec fn param_names(params: Seq<TypeParam>) -> Seq<Seq<char>> {
    params.map_values(|p: TypeParam| p.name@)
}

/// The variables of a signature with one for a parameter of the trait, the
/// variables that are quantified, and the next variable.
pub open spec fn with_trait_param(
    acc: (Seq<(Seq<char>, u32)>, Seq<u32>, int),
    name: Seq<char>,
) -> (Seq<(Seq<char>, u32)>, Seq<u32>, int) {
    match first_at(acc.0, name) {
        Some(id) => (acc.0, add_new(acc.1, seq![id]), acc.2),
        None => (
            acc.0.push((name, acc.2 as u32)),
            add_new(acc.1, seq![acc.2 as u32]),
            acc.2 + 1,
        ),
    }
}

pub open spec fn with_trait_params(
    acc: (Seq<(Seq<char>, u32)>, Seq<u32>, int),
    items: Seq<Seq<char>>,
) -> (Seq<(Seq<char>, u32)>, Seq<u32>, int)
    decreases items.len(),
{
    if items.len() == 0 {
        acc
    } else {
        with_trait_param(with_trait_params(acc, items.drop_last()), items.last())
    }
}

proof fn trait_params_bounds(acc: (Seq<(Seq<char>, u32)>, Seq<u32>, int), names: Seq<Seq<char>>)
    ensures
        acc.2 <= with_trait_params(acc, names).2 <= acc.2 + names.len(),
    decreases names.len(),
{
    if names.len() > 0 {
        trait_params_bounds(acc, names.drop_last());
    }
}

/// The types of the variables of some names that have one.
pub open spec fn vars_named(vars: Seq<(Seq<char>, u32)>, names: Seq<Seq<char>>) -> Seq<Ty>
    decreases names.len(),
{
    if names.len() == 0 {
        Seq::empty()
    } else {
        let before = vars_named(vars, names.drop_last());
        match first_at(vars, names.last()) {
            Some(id) => before.push(Ty::Var(id)),
            None => before,
        }
    }
}

/// The self parameter of a trait.
pub open spec fn self_name(params: Seq<Seq<char>>) -> Seq<char> {
    if params.len() > 0 {
        params[0]
    } else {
        "a"@
    }
}

pub open spec fn sig_type(sig: MethodSigModel) -> Ty {
    fun_type(sig.param_types, sig.return_type, sig.effect_row)
}

/// A method of a trait. Its scheme demands that the self type has the trait.
pub open spec fn method_of(
    canonical: Seq<char>,
    params: Seq<Seq<char>>,
    sig: MethodSigModel,
    next: int,
) -> MethodModel {
    let ty = sig_type(sig);
    let all = with_trait_params((sig.vars, free_vars(ty), next), params);
    MethodModel {
        name: sig.name,
        param_types: sig.param_types,
        return_type: sig.return_type,
        trait_param_id: first_at(sig.vars, self_name(params)),
        scheme: SchemeModel {
            forall: all.1,
            constraints: match first_at(all.0, self_name(params)) {
                Some(id) => seq![(canonical, id, vars_named(all.0, params.skip(1)))],
                None => Seq::empty(),
            },
            ty,
        },
        effect_sig: effect_sig_of(ty),
    }
}

/// The state and the methods with one more.
pub open spec fn with_method(
    canonical: Seq<char>,
    params: Seq<Seq<char>>,
    acc: (CheckerModel, Seq<MethodModel>),
    sig: MethodSigModel,
) -> (CheckerModel, Seq<MethodModel>) {
    let c = acc.0;
    let method = method_of(canonical, params, sig, c.next_var as int);
    let next = with_trait_params(
        (sig.vars, free_vars(sig_type(sig)), c.next_var as int),
        params,
    ).2;
    (
        CheckerModel {
            next_var: next as u32,
            env: EnvModel {
                bindings: put(c.env.bindings, dotted(canonical, sig.name), method.scheme),
                ..c.env
            },
            ..c
        },
        acc.1.push(method),
    )
}

pub open spec fn with_methods(
    canonical: Seq<char>,
    params: Seq<Seq<char>>,
    acc: (CheckerModel, Seq<MethodModel>),
    items: Seq<MethodSigModel>,
) -> (CheckerModel, Seq<MethodModel>)
    decreases items.len(),
{
    if items.len() == 0 {
        acc
    } else {
        with_method(
            canonical,
            params,
            with_methods(canonical, params, acc, items.drop_last()),
            items.last(),
        )
    }
}

/// The scope with a method under its canonical name.
pub open spec fn with_method_value(
    canonical: Seq<char>,
    values: Map<Seq<char>, Seq<char>>,
    name: Seq<char>,
) -> Map<Seq<char>, Seq<char>> {
    with_new(values, dotted(canonical, name), dotted(canonical, name))
}

pub open spec fn with_method_values(
    canonical: Seq<char>,
    acc: Map<Seq<char>, Seq<char>>,
    items: Seq<Seq<char>>,
) -> Map<Seq<char>, Seq<char>>
    decreases items.len(),
{
    if items.len() == 0 {
        acc
    } else {
        with_method_value(
            canonical,
            with_method_values(canonical, acc, items.drop_last()),
            items.last(),
        )
    }
}

/// Where the supertraits are named, and what they stand for.
pub open spec fn supertrait_at(c: CheckerModel, t: TraitRef) -> (Span, Seq<char>) {
    (t.span, resolved_name(c.resolution.trait_refs, t.id, t.name@))
}

pub open spec fn sig_name(sig: MethodSigModel) -> Seq<char> {
    sig.name
}

/// The scope with a trait and its methods.
pub open spec fn scope_with_trait(
    s: ScopeModel,
    name: Seq<char>,
    canonical: Seq<char>,
    methods: Seq<Seq<char>>,
) -> ScopeModel {
    ScopeModel {
        traits: if canonical == name {
            s.traits
        } else {
            with_new(with_new(s.traits, name, canonical), canonical, canonical)
        },
        trait_methods: with_members(canonical, s.trait_methods, methods),
        values: with_method_values(canonical, s.values, methods),
        ..s
    }
}

/// The state with a trait registered.
pub open spec fn with_trait(
    c: CheckerModel,
    name: Seq<char>,
    params: Seq<Seq<char>>,
    supertraits: Seq<TraitRef>,
    sigs: Seq<MethodSigModel>,
) -> CheckerModel {
    let canonical = local_name(c.current_module, name);
    let done = with_methods(canonical, params, (c, Seq::empty()), sigs);
    let supers = supertraits.map_values(|t: TraitRef| supertrait_at(c, t));
    CheckerModel {
        lsp: LspModel { type_references: c.lsp.type_references + supers, ..c.lsp },
        scope_map: scope_with_trait(
            c.scope_map,
            name,
            canonical,
            sigs.map_values(|sig: MethodSigModel| sig_name(sig)),
        ),
        trait_state: TraitStateModel {
            traits: put(
                c.trait_state.traits,
                canonical,
                TraitModel {
                    type_params: params,
                    supertraits: supers.map_values(|s: (Span, Seq<char>)| s.1),
                    methods: done.1,
                },
            ),
            ..c.trait_state
        },
        ..done.0
    }
}

proof fn methods_keep_the_rest(
    canonical: Seq<char>,
    params: Seq<Seq<char>>,
    acc: (CheckerModel, Seq<MethodModel>),
    sigs: Seq<MethodSigModel>,
)
    ensures
        ({
            let done = with_methods(canonical, params, acc, sigs).0;
            done == (CheckerModel { next_var: done.next_var, env: done.env, ..acc.0 })
        }),
    decreases sigs.len(),
{
    if sigs.len() > 0 {
        methods_keep_the_rest(canonical, params, acc, sigs.drop_last());
    }
}

proof fn methods_bounds(
    canonical: Seq<char>,
    params: Seq<Seq<char>>,
    acc: (CheckerModel, Seq<MethodModel>),
    sigs: Seq<MethodSigModel>,
    n: int,
)
    requires
        0 <= n <= sigs.len(),
        acc.0.next_var + sigs.len() * params.len() <= u32::MAX,
    ensures
        with_methods(canonical, params, acc, sigs.take(n)).0.next_var <= acc.0.next_var + n
            * params.len(),
    decreases n,
{
    if n == 0 {
        assert(sigs.take(0) =~= Seq::empty());
    } else {
        methods_bounds(canonical, params, acc, sigs, n - 1);
        assert(sigs.take(n).drop_last() =~= sigs.take(n - 1));
        let before = with_methods(canonical, params, acc, sigs.take(n - 1));
        let sig = sigs[n - 1];
        trait_params_bounds(
            (sig.vars, free_vars(sig_type(sig)), before.0.next_var as int),
            params,
        );
        assert((n - 1) * params.len() + params.len() == n * params.len()) by (nonlinear_arith);
        assert(n * params.len() <= sigs.len() * params.len()) by (nonlinear_arith)
            requires
                n <= sigs.len(),
        ;
    }
}

/// The names of type parameters.
pub fn names_of_params(v: &Vec<TypeParam>) -> (r: Vec<String>)
    ensures
        r.deep_view() == param_names(v@),
{
    let mut out: Vec<String> = Vec::new();
    let mut i: usize = 0;
    while i < v.len()
        invariant
            i <= v.len(),
            out.len() == i,
            forall|j: int| 0 <= j < i ==> #[trigger] out.deep_view()[j] == v@[j].name@,
        decreases v.len() - i,
    {
        push_value(&mut out, v[i].name.clone());
        i = i + 1;
    }
    assert(out.deep_view() =~= param_names(v@));
    out
}

fn name_vars(vars: &Vec<(String, u32)>, names: &Vec<String>) -> (r: Vec<Type>)
    ensures
        names.len() > 0 ==> r.deep_view() == vars_named(
            vars.deep_view(),
            names.deep_view().skip(1),
        ),
{
    let ghost all = names.deep_view().skip(1);
    let mut out: Vec<Type> = Vec::new();
    if names.len() == 0 {
        return out;
    }
    let mut i: usize = 1;
    assert(all.take(0) =~= Seq::empty());
    assert(out.deep_view() =~= Seq::empty());
    while i < names.len()
        invariant
            1 <= i <= names.len(),
            all == names.deep_view().skip(1),
            out.deep_view() == vars_named(vars.deep_view(), all.take(i - 1)),
        decreases names.len() - i,
    {
        broadcast use group_type_models;

        proof {
            assert(all.take(i as int).drop_last() =~= all.take(i - 1));
            assert(all.take(i as int).last() == names.deep_view()[i as int]);
        }
        if let Some(id) = find_var(vars, names[i].as_str()) {
            push_value(&mut out, Type::Var(id));
        }
        i = i + 1;
    }
    assert(all.take(i - 1) =~= all);
    out
}

impl Checker {
    /// A method of a trait, from its signature.
    fn trait_method(&mut self, canonical: &str, params: &Vec<String>, sig: &MethodSig) -> (r:
        TraitMethodInfo)
        requires
            old(self).next_var + params.len() <= u32::MAX,
            arrow_count(sig_type(sig.deep_view())) <= usize::MAX,
            params.len() > 0,
        ensures
            r.deep_view() == method_of(
                canonical@,
                params.deep_view(),
                sig.deep_view(),
                old(self).next_var as int,
            ),
            final(self).deep_view() == (CheckerModel {
                next_var: with_trait_params(
                    (
                        sig.deep_view().vars,
                        free_vars(sig_type(sig.deep_view())),
                        old(self).next_var as int,
                    ),
                    params.deep_view(),
                ).2 as u32,
                ..old(self).deep_view()
            }),
    {
        let ghost c0 = self.deep_view();
        let ghost all = params.deep_view();
        let ty = function_type_with_innermost_effects(
            &sig.param_types,
            sig.return_type.dup(),
            sig.effect_row.dup(),
        );
        let mut quantified: Vec<u32> = Vec::new();
        collect_free_vars(&ty, &mut quantified);
        let mut vars = sig.vars.dup();
        let ghost start = (sig.deep_view().vars, free_vars(sig_type(sig.deep_view())), c0.next_var as int);
        let mut i: usize = 0;
        assert(all.take(0) =~= Seq::empty());
        assert(quantified@ == start.1);
        while i < params.len()
            invariant
                i <= params.len(),
                all == params.deep_view(),
                c0.next_var + params.len() <= u32::MAX,
                start.2 == c0.next_var,
                vars.deep_view() == with_trait_params(start, all.take(i as int)).0,
                quantified@ == with_trait_params(start, all.take(i as int)).1,
                self.next_var == with_trait_params(start, all.take(i as int)).2,
                self.deep_view() == (CheckerModel { next_var: self.next_var, ..c0 }),
            decreases params.len() - i,
        {
            proof {
                assert(all.take(i + 1).drop_last() =~= all.take(i as int));
                assert(all.take(i + 1).last() == all[i as int]);
                trait_params_bounds(start, all.take(i as int));
            }
            let id = match find_var(&vars, params[i].as_str()) {
                Some(id) => id,
                None => {
                    let id = self.fresh_var();
                    push_value(&mut vars, (params[i].clone(), id));
                    id
                },
            };
            proof {
                add_new_one(quantified@, id);
                assert(quantified.deep_view() =~= quantified@);
            }
            push_new(&mut quantified, id);
            assert(quantified.deep_view() =~= quantified@);
            i = i + 1;
        }
        assert(all.take(i as int) =~= all);
        let self_param = params[0].as_str();
        assert(all[0] == self_param@);
        let extra = name_vars(&vars, params);
        let mut constraints: Vec<(String, u32, Vec<Type>)> = Vec::new();
        assert(constraints.deep_view() =~= Seq::empty());
        if let Some(id) = find_var(&vars, self_param) {
            push_value(&mut constraints, (canonical.to_owned(), id, extra));
        }
        let effect_sig = trait_method_effect_sig(&ty);
        let scheme = Scheme { forall: quantified, constraints, ty };
        proof {
            assert(scheme.forall.deep_view() =~= quantified@);
            assert(constraints.deep_view() =~= method_of(
                canonical@,
                all,
                sig.deep_view(),
                c0.next_var as int,
            ).scheme.constraints);
        }
        TraitMethodInfo {
            name: sig.name.clone(),
            param_types: sig.param_types.dup(),
            return_type: sig.return_type.dup(),
            trait_param_id: find_var(&sig.vars, self_param),
            scheme,
            effect_sig,
        }
    }

    fn trait_methods(&mut self, canonical: &str, params: &Vec<String>, sigs: &Vec<MethodSig>) -> (r:
        Vec<TraitMethodInfo>)
        requires
            old(self).next_var + sigs.len() * params.len() <= u32::MAX,
            forall|i: int|
                0 <= i < sigs.len() ==> arrow_count(
                    sig_type(#[trigger] sigs.deep_view()[i]),
                ) <= usize::MAX,
            sigs.len() > 0 ==> params.len() > 0,
        ensures
            (final(self).deep_view(), r.deep_view()) == with_methods(
                canonical@,
                params.deep_view(),
                (old(self).deep_view(), Seq::empty()),
                sigs.deep_view(),
            ),
    {
        let ghost c0 = self.deep_view();
        let ghost all = sigs.deep_view();
        let ghost names = params.deep_view();
        let mut out: Vec<TraitMethodInfo> = Vec::new();
        let mut i: usize = 0;
        assert(all.take(0) =~= Seq::empty());
        assert(out.deep_view() =~= Seq::empty());
        while i < sigs.len()
            invariant
                i <= sigs.len(),
                all == sigs.deep_view(),
                names == params.deep_view(),
                sigs.len() > 0 ==> params.len() > 0,
                c0.next_var + sigs.len() * params.len() <= u32::MAX,
                forall|j: int|
                    0 <= j < sigs.len() ==> arrow_count(
                        sig_type(#[trigger] sigs.deep_view()[j]),
                    ) <= usize::MAX,
                (self.deep_view(), out.deep_view()) == with_methods(
                    canonical@,
                    names,
                    (c0, Seq::empty()),
                    all.take(i as int),
                ),
            decreases sigs.len() - i,
        {
            proof {
                assert(all.take(i + 1).drop_last() =~= all.take(i as int));
                assert(all.take(i + 1).last() == all[i as int]);
                assert(all[i as int] == sigs@[i as int].deep_view());
                methods_bounds(canonical@, names, (c0, Seq::empty()), all, i as int);
                assert(i * names.len() + names.len() <= sigs.len() * names.len())
                    by (nonlinear_arith)
                    requires
                        i < sigs.len(),
                ;
            }
            let sig = &sigs[i];
            let method = self.trait_method(canonical, params, sig);
            self.env.insert(dot_join(canonical, sig.name.as_str()), method.scheme.dup());
            push_value(&mut out, method);
            i = i + 1;
        }
        assert(all.take(i as int) =~= all);
        out
    }
}

fn sig_names(v: &Vec<MethodSig>) -> (r: Vec<String>)
    ensures
        r.deep_view() == v.deep_view().map_values(|x: MethodSigModel| sig_name(x)),
{
    let mut out: Vec<String> = Vec::new();
    let mut i: usize = 0;
    while i < v.len()
        invariant
            i <= v.len(),
            out.len() == i,
            forall|j: int|
                0 <= j < i ==> #[trigger] out.deep_view()[j] == sig_name(v.deep_view()[j]),
        decreases v.len() - i,
    {
        push_value(&mut out, v[i].name.clone());
        i = i + 1;
    }
    assert(out.deep_view() =~= v.deep_view().map_values(|x: MethodSigModel| sig_name(x)));
    out
}

fn add_method_values(canonical: &str, acc: &mut Table<String, String>, items: &Vec<String>)
    ensures
        final(acc).deep_view() == with_method_values(
            canonical@,
            old(acc).deep_view(),
            items.deep_view(),
        ),
{
    let ghost a0 = acc.deep_view();
    let ghost all = items.deep_view();
    let mut i: usize = 0;
    assert(all.take(0) =~= Seq::empty());
    while i < items.len()
        invariant
            i <= items.len(),
            all == items.deep_view(),
            acc.deep_view() == with_method_values(canonical@, a0, all.take(i as int)),
        decreases items.len() - i,
    {
        proof {
            assert(all.take(i + 1).drop_last() =~= all.take(i as int));
            assert(all.take(i + 1).last() == all[i as int]);
        }
        let name = dot_join(canonical, items[i].as_str());
        acc.insert_if_absent(name.clone(), name);
        i = i + 1;
    }
    assert(all.take(i as int) =~= all);
}

impl Checker {
    /// Registers a trait. `sigs` are the signatures of its methods, converted.
    pub fn register_trait_def(
        &mut self,
        name: &str,
        type_params: &Vec<TypeParam>,
        supertraits: &Vec<TraitRef>,
        sigs: &Vec<MethodSig>,
    )
        requires
            old(self).next_var + sigs.len() * type_params.len() <= u32::MAX,
            forall|i: int|
                0 <= i < sigs.len() ==> arrow_count(
                    sig_type(#[trigger] sigs.deep_view()[i]),
                ) <= usize::MAX,
            sigs.len() > 0 ==> type_params.len() > 0,
        ensures
            final(self).deep_view() == with_trait(
                old(self).deep_view(),
                name@,
                param_names(type_params@),
                supertraits@,
                sigs.deep_view(),
            ),
    {
        let ghost c0 = self.deep_view();
        let canonical = self.canonical_name(name);
        let params = names_of_params(type_params);
        assert(params.deep_view().len() == type_params.len());
        let methods = self.trait_methods(canonical.as_str(), &params, sigs);
        proof {
            methods_keep_the_rest(
                canonical@,
                params.deep_view(),
                (c0, Seq::empty()),
                sigs.deep_view(),
            );
        }
        let ghost c1 = self.deep_view();
        let ghost supers = supertraits@.map_values(|t: TraitRef| supertrait_at(c0, t));
        let mut names: Vec<String> = Vec::new();
        let mut i: usize = 0;
        assert(supers.take(0) =~= Seq::empty());
        assert(names.deep_view() =~= Seq::empty());
        assert(self.lsp.type_references.deep_view() =~= c0.lsp.type_references + supers.take(0));
        while i < supertraits.len()
            invariant
                i <= supertraits.len(),
                supers == supertraits@.map_values(|t: TraitRef| supertrait_at(c0, t)),
                c1.resolution == c0.resolution,
                self.deep_view() == (CheckerModel {
                    lsp: LspModel {
                        type_references: c0.lsp.type_references + supers.take(i as int),
                        ..c1.lsp
                    },
                    ..c1
                }),
                names.len() == i,
                forall|j: int| 0 <= j < i ==> #[trigger] names.deep_view()[j] == supers[j].1,
            decreases supertraits.len() - i,
        {
            let t = &supertraits[i];
            let resolved = self.resolved_trait_name_at(t.id, t.name.as_str());
            push_value(&mut self.lsp.type_references, (t.span, resolved.clone()));
            push_value(&mut names, resolved);
            i = i + 1;
            proof {
                assert(supers[i - 1] == supertrait_at(c0, supertraits@[i - 1]));
                assert(supers.take(i as int) =~= supers.take(i - 1).push(supers[i - 1]));
                assert(self.lsp.type_references.deep_view() =~= c0.lsp.type_references
                    + supers.take(i as int));
            }
        }
        assert(supers.take(i as int) =~= supers);
        if !text_eq(canonical.as_str(), name) {
            self.scope_map.traits.insert_if_absent(name.to_owned(), canonical.clone());
            self.scope_map.traits.insert_if_absent(canonical.clone(), canonical.clone());
        }
        let method_names = sig_names(sigs);
        self.scope_map.register_trait_methods(canonical.as_str(), &method_names);
        add_method_values(canonical.as_str(), &mut self.scope_map.values, &method_names);
        let info = TraitInfo { type_params: params, supertraits: names, methods };
        assert(names.deep_view() =~= supers.map_values(|s: (Span, Seq<char>)| s.1));
        self.trait_state.traits.insert(canonical, info);
    }
}

/// A registered trait is found under its name.
pub proof fn registered_trait_is_found(
    c: CheckerModel,
    name: Seq<char>,
    params: Seq<Seq<char>>,
    supertraits: Seq<TraitRef>,
    sigs: Seq<MethodSigModel>,
)
    requires
        !has_key(c.trait_state.traits, name),
        lookup(c.scope_map.traits, name) is None,
    ensures
        trait_named(with_trait(c, name, params, supertraits, sigs), name) == Some(
            local_name(c.current_module, name),
        ),
{
    let canonical = local_name(c.current_module, name);
    let after = with_trait(c, name, params, supertraits, sigs);
    let info = choose|info: TraitModel|
        after.trait_state.traits == put(c.trait_state.traits, canonical, info);
    assert(exists|info: TraitModel|
        after.trait_state.traits == put(c.trait_state.traits, canonical, info)) by {
        let done = with_methods(canonical, params, (c, Seq::empty()), sigs);
        let supers = supertraits.map_values(|t: TraitRef| supertrait_at(c, t));
        let i = TraitModel {
            type_params: params,
            supertraits: supers.map_values(|s: (Span, Seq<char>)| s.1),
            methods: done.1,
        };
        assert(after.trait_state.traits == put(c.trait_state.traits, canonical, i));
    }
    key_is_put(c.trait_state.traits, canonical, info, canonical);
    key_is_put(c.trait_state.traits, canonical, info, name);
}

/// The keys after an entry is put.
pub proof fn key_is_put<K, V>(order: Seq<(K, V)>, k: K, v: V, other: K)
    ensures
        has_key(put(order, k, v), other) <==> other == k || has_key(order, other),
{
    let after = put(order, k, v);
    if has_key(order, k) {
        let at = crate::table::key_index(order, k);
        assert(after[at].0 == k);
        if has_key(order, other) && other != k {
            let i = choose|i: int| 0 <= i < order.len() && (#[trigger] order[i]).0 == other;
            assert(after[i].0 == other);
        }
        if has_key(after, other) {
            let i = choose|i: int| 0 <= i < after.len() && (#[trigger] after[i]).0 == other;
            if i != at {
                assert(order[i].0 == other);
            }
        }
    } else {
        assert(after[order.len() as int].0 == k);
        if has_key(order, other) {
            let i = choose|i: int| 0 <= i < order.len() && (#[trigger] order[i]).0 == other;
            assert(after[i].0 == other);
        }
        if has_key(after, other) {
            let i = choose|i: int| 0 <= i < after.len() && (#[trigger] after[i]).0 == other;
            if i < order.len() {
                assert(order[i].0 == other);
            }
        }
    }
}

proof fn trait_params_are_known(acc: (Seq<(Seq<char>, u32)>, Seq<u32>, int), items: Seq<Seq<char>>)
    ensures
        ({
            let after = with_trait_params(acc, items);
            &&& forall|i: int|
                0 <= i < items.len() ==> {
                    &&& first_at(after.0, #[trigger] items[i]) is Some
                    &&& after.1.contains(first_at(after.0, items[i])->0)
                }
            &&& forall|k: Seq<char>|
                first_at(acc.0, k) is Some ==> #[trigger] first_at(after.0, k) == first_at(acc.0, k)
            &&& forall|v: u32| acc.1.contains(v) ==> #[trigger] after.1.contains(v)
        }),
    decreases items.len(),
{
    if items.len() > 0 {
        let init = items.drop_last();
        trait_params_are_known(acc, init);
        let before = with_trait_params(acc, init);
        let after = with_trait_params(acc, items);
        let name = items.last();
        let own = match first_at(before.0, name) {
            Some(id) => id,
            None => before.2 as u32,
        };
        assert forall|v: u32| before.1.contains(v) implies #[trigger] after.1.contains(v) by {
            add_new_contains(before.1, seq![own], v);
        }
        assert(after.1.contains(own)) by {
            add_new_contains(before.1, seq![own], own);
            assert(seq![own][0] == own);
        }
        assert forall|k: Seq<char>| first_at(before.0, k) is Some implies #[trigger] first_at(
            after.0,
            k,
        ) == first_at(before.0, k) by {
            if first_at(before.0, name) is None {
                assert(after.0.drop_last() =~= before.0);
            }
        }
        if first_at(before.0, name) is None {
            assert(after.0.drop_last() =~= before.0);
            assert(after.0.last() == (name, own));
        }
        assert(first_at(after.0, name) == Some(own));
        assert forall|i: int| 0 <= i < items.len() implies {
            &&& first_at(after.0, #[trigger] items[i]) is Some
            &&& after.1.contains(first_at(after.0, items[i])->0)
        } by {
            if i < init.len() {
                assert(first_at(before.0, init[i]) is Some);
                assert(init[i] == items[i]);
            }
        }
    }
}

proof fn all_named_vars(vars: Seq<(Seq<char>, u32)>, names: Seq<Seq<char>>)
    requires
        forall|i: int| 0 <= i < names.len() ==> first_at(vars, #[trigger] names[i]) is Some,
    ensures
        vars_named(vars, names).len() == names.len(),
        forall|i: int|
            0 <= i < names.len() ==> #[trigger] vars_named(vars, names)[i] == Ty::Var(
                first_at(vars, names[i])->0,
            ),
    decreases names.len(),
{
    if names.len() > 0 {
        let init = names.drop_last();
        assert(forall|i: int| 0 <= i < init.len() ==> #[trigger] init[i] == names[i]);
        all_named_vars(vars, init);
        assert(names[names.len() - 1] == names.last());
        assert forall|i: int| 0 <= i < names.len() implies #[trigger] vars_named(vars, names)[i]
            == Ty::Var(first_at(vars, names[i])->0) by {
            if i < init.len() {
                assert(vars_named(vars, names)[i] == vars_named(vars, init)[i]);
            }
        }
    }
}

/// A method of a trait takes the parameters of its signature to its result. It may be
/// used just at types that have the trait: its scheme has one constraint, that the self
/// type has the trait, with the further parameters of the trait as its arguments. The
/// scheme quantifies the self type and these parameters.
pub proof fn methods_demand_their_trait(
    canonical: Seq<char>,
    params: Seq<Seq<char>>,
    sig: MethodSigModel,
    next: int,
)
    requires
        params.len() > 0,
    ensures
        ({
            let m = method_of(canonical, params, sig, next);
            let k = m.scheme.constraints[0];
            &&& m.name == sig.name
            &&& m.param_types == sig.param_types
            &&& m.return_type == sig.return_type
            &&& m.scheme.ty == fun_type(sig.param_types, sig.return_type, sig.effect_row)
            &&& m.trait_param_id == first_at(sig.vars, params[0])
            &&& m.scheme.constraints.len() == 1
            &&& k.0 == canonical
            &&& m.scheme.forall.contains(k.1)
            &&& m.trait_param_id matches Some(id) ==> k.1 == id
            &&& k.2.len() == params.len() - 1
            &&& forall|i: int|
                0 <= i < k.2.len() ==> (#[trigger] k.2[i] matches Ty::Var(v)
                    && m.scheme.forall.contains(v) && (first_at(sig.vars, params[i + 1]) matches Some(
                    id,
                ) ==> v == id))
            &&& forall|v: u32|
                free_vars(m.scheme.ty).contains(v) ==> #[trigger] m.scheme.forall.contains(v)
        }),
{
    let ty = sig_type(sig);
    let start = (sig.vars, free_vars(ty), next);
    let all = with_trait_params(start, params);
    trait_params_are_known(start, params);
    assert(first_at(all.0, params[0]) is Some);
    let rest = params.skip(1);
    assert forall|i: int| 0 <= i < rest.len() implies first_at(all.0, #[trigger] rest[i]) is Some by {
        assert(rest[i] == params[i + 1]);
    }
    all_named_vars(all.0, rest);
    let m = method_of(canonical, params, sig, next);
    let k = m.scheme.constraints[0];
    assert forall|i: int| 0 <= i < k.2.len() implies (#[trigger] k.2[i] matches Ty::Var(v)
        && m.scheme.forall.contains(v) && (first_at(sig.vars, params[i + 1]) matches Some(id)
        ==> v == id)) by {
        assert(rest[i] == params[i + 1]);
        assert(first_at(all.0, params[i + 1]) is Some);
    }
}

proof fn methods_are_listed(
    canonical: Seq<char>,
    params: Seq<Seq<char>>,
    acc: (CheckerModel, Seq<MethodModel>),
    sigs: Seq<MethodSigModel>,
)
    requires
        distinct_keys(acc.0.env.bindings),
        forall|i: int, j: int|
            0 <= i < j < sigs.len() ==> dotted(canonical, (#[trigger] sigs[i]).name) != dotted(
                canonical,
                (#[trigger] sigs[j]).name,
            ),
    ensures
        ({
            let done = with_methods(canonical, params, acc, sigs);
            &&& distinct_keys(done.0.env.bindings)
            &&& done.1.len() == acc.1.len() + sigs.len()
            &&& forall|i: int|
                0 <= i < sigs.len() ==> {
                    let m = done.1[acc.1.len() + i];
                    &&& is_method_of(canonical, params, #[trigger] sigs[i], m)
                    &&& at_key(done.0.env.bindings, dotted(canonical, sigs[i].name)) == Some(
                        m.scheme,
                    )
                }
            &&& forall|i: int| 0 <= i < acc.1.len() ==> #[trigger] done.1[i] == acc.1[i]
        }),
    decreases sigs.len(),
{
    if sigs.len() > 0 {
        let init = sigs.drop_last();
        assert(forall|i: int| 0 <= i < init.len() ==> #[trigger] init[i] == sigs[i]);
        methods_are_listed(canonical, params, acc, init);
        let before = with_methods(canonical, params, acc, init);
        let done = with_methods(canonical, params, acc, sigs);
        let sig = sigs.last();
        assert(sigs[sigs.len() - 1] == sig);
        let m = method_of(canonical, params, sig, before.0.next_var as int);
        let key = dotted(canonical, sig.name);
        put_then_get(before.0.env.bindings, key, m.scheme, key);
        assert(is_method_of(canonical, params, sig, m));
        assert forall|i: int| 0 <= i < sigs.len() implies {
            let m = done.1[acc.1.len() + i];
            &&& is_method_of(canonical, params, #[trigger] sigs[i], m)
            &&& at_key(done.0.env.bindings, dotted(canonical, sigs[i].name)) == Some(m.scheme)
        } by {
            if i < init.len() {
                assert(init[i] == sigs[i]);
                put_then_get(
                    before.0.env.bindings,
                    key,
                    m.scheme,
                    dotted(canonical, sigs[i].name),
                );
            }
        }
    }
}

/// Whether a method is that of a signature of a trait.
pub open spec fn is_method_of(
    canonical: Seq<char>,
    params: Seq<Seq<char>>,
    sig: MethodSigModel,
    m: MethodModel,
) -> bool {
    exists|next: int| m == #[trigger] method_of(canonical, params, sig, next)
}

/// A registered trait has its parameters, the supertraits that its references stand for,
/// and all its methods, in order. Each method is bound under the name of the trait and
/// its own.
pub proof fn traits_have_their_methods(
    c: CheckerModel,
    name: Seq<char>,
    params: Seq<Seq<char>>,
    supertraits: Seq<TraitRef>,
    sigs: Seq<MethodSigModel>,
)
    requires
        distinct_keys(c.env.bindings),
        distinct_keys(c.trait_state.traits),
        forall|i: int, j: int|
            0 <= i < j < sigs.len() ==> dotted(
                local_name(c.current_module, name),
                (#[trigger] sigs[i]).name,
            ) != dotted(local_name(c.current_module, name), (#[trigger] sigs[j]).name),
    ensures
        ({
            let after = with_trait(c, name, params, supertraits, sigs);
            let own = local_name(c.current_module, name);
            let info = at_key(after.trait_state.traits, own)->0;
            &&& at_key(after.trait_state.traits, own) is Some
            &&& info.type_params == params
            &&& info.supertraits.len() == supertraits.len()
            &&& forall|i: int|
                0 <= i < supertraits.len() ==> #[trigger] info.supertraits[i] == resolved_name(
                    c.resolution.trait_refs,
                    supertraits[i].id,
                    supertraits[i].name@,
                )
            &&& info.methods.len() == sigs.len()
            &&& forall|i: int|
                0 <= i < sigs.len() ==> {
                    &&& is_method_of(own, params, #[trigger] sigs[i], info.methods[i])
                    &&& at_key(after.env.bindings, dotted(own, sigs[i].name)) == Some(
                        info.methods[i].scheme,
                    )
                }
        }),
{
    let own = local_name(c.current_module, name);
    methods_are_listed(own, params, (c, Seq::empty()), sigs);
    let done = with_methods(own, params, (c, Seq::empty()), sigs);
    let supers = supertraits.map_values(|t: TraitRef| supertrait_at(c, t));
    let info = TraitModel {
        type_params: params,
        supertraits: supers.map_values(|s: (Span, Seq<char>)| s.1),
        methods: done.1,
    };
    put_then_get(c.trait_state.traits, own, info, own);
}

} // verus!
