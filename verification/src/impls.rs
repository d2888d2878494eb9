//! Registering impls.
//!
//! An impl is begun with [`Checker::begin_impl`]; then its methods are checked, as
//! [`crate::method_run`] says; then [`Checker::register_impl`] registers it.

use vstd::prelude::*;
use crate::ast::{
    Decl, EffectRef, ImplMethod, TraitApp, TraitBound, TraitRef, TypeExpr, TypeParam,
    TypeParamModel,
};
use crate::bounds::{
    args_fit, know_trait, known_vars, same_traits, trait_at, where_bounds_keep_traits,
    with_known_trait, with_where_bounds, Introduced,
};
use crate::checker::{resolved_name, Checker, CheckerModel, LspModel, TraitStateModel};
use crate::diagnostics::{an_error_at, Diag, Diagnostic};
use crate::exports::{first_at, resolve_heads, resolved_heads};
use crate::fun_types::find_var;
use crate::handlers::{add_outer_names, outside_are_some, with_outer_names};
use crate::impl_methods::shorter;
use crate::infos::{ImplInfo, ImplModel, MethodModel, TraitInfo, TraitMethodInfo, TraitModel};
use crate::param_text::{show_params, shown_params};
use crate::patterns::{
    direct_target_var_index, direct_var_position, target_key, target_key_for_type,
};
use crate::seqs::{add_new, add_new_one, push_contains, push_new};
use crate::sorting::{
    listings_have_each_name_once, ordered, ordered_set, sort_texts, sorted_texts,
};
use crate::subst::{acyclic, applied, Sub};
use crate::supertraits::trait_or_self;
use crate::table::{at_key, distinct_keys, has_key, put, put_then_get, Table};
use crate::text::{
    concat, concat3, concat4, concat5, decimal, join_text, joined, last_segment, number_text,
    text_eq,
};
use crate::token::Span;
use crate::traits::trait_named;
use crate::type_decls::{con_of_vars, con_type, ids_of, var_id_list};
use crate::types::{Ty, Type, group_type_models};
use crate::values::{append_values, contains_name, outcome, push_value, Dup};

verus! {

/// What an impl is of and for.
#[derive(Debug)]
pub struct ImplHead {
    /// The trait, by its canonical name.
    pub trait_name: String,
    /// The heads of the further arguments of the trait.
    pub arg_names: Vec<String>,
    /// The target type as it is written.
    pub target_type: String,
    /// What the target type stands for.
    pub resolved_target: String,
    pub span: Span,
}

#[verifier::ext_equal]
pub struct ImplHeadModel {
    pub trait_name: Seq<char>,
    pub arg_names: Seq<Seq<char>>,
    pub target_type: Seq<char>,
    pub resolved_target: Seq<char>,
    pub span: Span,
}

impl DeepView for ImplHead {
    type V = ImplHeadModel;

    open spec fn deep_view(&self) -> ImplHeadModel {
        ImplHeadModel {
            trait_name: self.trait_name.deep_view(),
            arg_names: self.arg_names.deep_view(),
            target_type: self.target_type.deep_view(),
            resolved_target: self.resolved_target.deep_view(),
            span: self.span.deep_view(),
        }
    }
}

impl Dup for ImplHead {
    fn dup(&self) -> (r: Self) {
        ImplHead {
            trait_name: self.trait_name.dup(),
            arg_names: self.arg_names.dup(),
            target_type: self.target_type.dup(),
            resolved_target: self.resolved_target.dup(),
            span: self.span.dup(),
        }
    }
}

/// What checking the body of a method came to.
#[derive(Debug)]
pub struct MethodBody {
    /// Why the type of the body is not what the trait asks for, if it is not.
    pub mismatch: Option<String>,
    /// The effects of the body.
    pub effects: Vec<String>,
    /// Variables of which a field is read, with the records that have the field.
    pub candidates: Vec<(u32, Vec<String>, Span)>,
}

#[verifier::ext_equal]
pub struct BodyModel {
    pub mismatch: Option<Seq<char>>,
    pub effects: Seq<Seq<char>>,
    pub candidates: Seq<(u32, Seq<Seq<char>>, Span)>,
}

impl DeepView for MethodBody {
    type V = BodyModel;

    open spec fn deep_view(&self) -> BodyModel {
        BodyModel {
            mismatch: self.mismatch.deep_view(),
            effects: self.effects.deep_view(),
            candidates: self.candidates.deep_view(),
        }
    }
}

impl Dup for MethodBody {
    fn dup(&self) -> (r: Self) {
        MethodBody {
            mismatch: self.mismatch.dup(),
            effects: self.effects.dup(),
            candidates: self.candidates.dup(),
        }
    }
}

/// What an impl is of and for.
pub open spec fn impl_head_of(c: CheckerModel, decl: Decl) -> ImplHeadModel {
    let id = decl->ImplDef_id;
    ImplHeadModel {
        trait_name: resolved_name(c.resolution.impl_traits, id, decl->ImplDef_trait_name@),
        arg_names: resolved_heads(c, decl->ImplDef_trait_type_args@),
        target_type: decl->ImplDef_target_type@,
        resolved_target: resolved_name(
            c.resolution.impl_targets,
            id,
            decl->ImplDef_target_type@,
        ),
        span: decl->ImplDef_span,
    }
}

/// The variables of the type parameters of an impl whose target is not written as a
/// type.
pub open spec fn plain_vars(params: Seq<TypeParam>, next: int) -> Seq<(Seq<char>, u32)> {
    Seq::new(params.len(), |i: int| (params[i].name@, (next + i) as u32))
}

/// The target of an impl that is not written as a type: a named type, applied to the
/// type parameters of the impl.
pub open spec fn plain_target_of(name: Seq<char>, params: Seq<TypeParam>, next: int) -> Ty {
    con_of_vars(name, ids_of(plain_vars(params, next)))
}

/// The effects that an impl declares.
pub open spec fn declared_names(c: CheckerModel, needs: Seq<EffectRef>) -> Seq<Seq<char>> {
    needs.map_values(|e: EffectRef| declared_name(c, e))
}

pub open spec fn declared_name(c: CheckerModel, e: EffectRef) -> Seq<char> {
    resolved_name(c.resolution.effect_refs, e.id, e.name@)
}

impl Checker {
    /// What an impl is of and for.
    pub fn impl_head(&self, decl: &Decl) -> (r: Option<ImplHead>)
        ensures
            r.deep_view() == if decl is ImplDef {
                Some(impl_head_of(self.deep_view(), *decl))
            } else {
                None
            },
    {
        match decl {
            Decl::ImplDef { id, trait_name, trait_type_args, target_type, span, .. } => Some(
                ImplHead {
                    trait_name: self.resolved_impl_trait_name(*id, trait_name.as_str()),
                    arg_names: resolve_heads(self, trait_type_args),
                    target_type: target_type.clone(),
                    resolved_target: self.resolved_impl_target_type_name(
                        *id,
                        target_type.as_str(),
                    ),
                    span: *span,
                },
            ),
            _ => None,
        }
    }

    /// The target of an impl that is not written as a type, with the variables of the
    /// type parameters of the impl.
    pub fn plain_target(&mut self, name: &str, params: &Vec<TypeParam>) -> (r: (
        Type,
        Vec<(String, u32)>,
    ))
        requires
            old(self).next_var + params.len() <= u32::MAX,
        ensures
            r.0@ == plain_target_of(name@, params@, old(self).next_var as int),
            r.1.deep_view() == plain_vars(params@, old(self).next_var as int),
            final(self).deep_view() == (CheckerModel {
                next_var: (old(self).next_var + params.len()) as u32,
                ..old(self).deep_view()
            }),
    {
        let ghost c0 = self.deep_view();
        let ghost next = self.next_var as int;
        let mut vars: Vec<(String, u32)> = Vec::new();
        let mut i: usize = 0;
        while i < params.len()
            invariant
                i <= params.len(),
                next + params.len() <= u32::MAX,
                vars.len() == i,
                self.next_var == next + i,
                self.deep_view() == (CheckerModel { next_var: (next + i) as u32, ..c0 }),
                forall|j: int|
                    0 <= j < i ==> #[trigger] vars.deep_view()[j] == (
                        params@[j].name@,
                        (next + j) as u32,
                    ),
            decreases params.len() - i,
        {
            let id = self.fresh_var();
            push_value(&mut vars, (params[i].name.clone(), id));
            i = i + 1;
        }
        assert(vars.deep_view() =~= plain_vars(params@, next));
        let ids = var_id_list(&vars);
        (con_type(name, &ids), vars)
    }

    /// The effects that an impl declares.
    pub fn declared_effect_names(&self, needs: &Vec<EffectRef>) -> (r: Vec<String>)
        ensures
            r.deep_view() == declared_names(self.deep_view(), needs@),
    {
        let mut out: Vec<String> = Vec::new();
        let mut i: usize = 0;
        while i < needs.len()
            invariant
                i <= needs.len(),
                out.len() == i,
                forall|j: int|
                    0 <= j < i ==> #[trigger] out.deep_view()[j] == declared_name(
                        self.deep_view(),
                        needs@[j],
                    ),
            decreases needs.len() - i,
        {
            let name = self.resolved_effect_name(needs[i].id, needs[i].name.as_str());
            push_value(&mut out, name);
            i = i + 1;
        }
        assert(out.deep_view() =~= declared_names(self.deep_view(), needs@));
        out
    }
}

/// The first method with a name.
pub open spec fn method_named(methods: Seq<MethodModel>, name: Seq<char>) -> Option<MethodModel>
    decreases methods.len(),
{
    if methods.len() == 0 {
        None
    } else {
        match method_named(methods.drop_last(), name) {
            Some(m) => Some(m),
            None => if methods.last().name == name {
                Some(methods.last())
            } else {
                None
            },
        }
    }
}

proof fn named_stays(methods: Seq<MethodModel>, name: Seq<char>, n: int)
    requires
        0 <= n <= methods.len(),
        method_named(methods.take(n), name) is Some,
    ensures
        method_named(methods, name) == method_named(methods.take(n), name),
    decreases methods.len(),
{
    if n < methods.len() {
        assert(methods.drop_last().take(n) =~= methods.take(n));
        named_stays(methods.drop_last(), name, n);
    } else {
        assert(methods.take(n) =~= methods);
    }
}

/// The first method with a name.
pub fn find_method<'a>(methods: &'a Vec<TraitMethodInfo>, name: &str) -> (r: Option<
    &'a TraitMethodInfo,
>)
    ensures
        r.deep_view() == method_named(methods.deep_view(), name@),
{
    let ghost all = methods.deep_view();
    let mut i: usize = 0;
    assert(all.take(0) =~= Seq::empty());
    while i < methods.len()
        invariant
            i <= methods.len(),
            all == methods.deep_view(),
            method_named(all.take(i as int), name@) is None,
        decreases methods.len() - i,
    {
        proof {
            assert(all.take(i + 1).drop_last() =~= all.take(i as int));
            assert(all.take(i + 1).last() == all[i as int]);
        }
        if text_eq(methods[i].name.as_str(), name) {
            proof {
                named_stays(all, name@, i + 1);
            }
            return Some(&methods[i]);
        }
        i = i + 1;
    }
    assert(all.take(i as int) =~= all);
    None
}

/// The first method of a trait that an impl does not provide.
pub open spec fn first_missing(
    provided: Seq<Seq<char>>,
    items: Seq<MethodModel>,
) -> Option<Seq<char>>
    decreases items.len(),
{
    if items.len() == 0 {
        None
    } else {
        match first_missing(provided, items.drop_last()) {
            Some(name) => Some(name),
            None => if !provided.contains(items.last().name) {
                Some(items.last().name)
            } else {
                None
            },
        }
    }
}

proof fn first_missing_stays(provided: Seq<Seq<char>>, items: Seq<MethodModel>, n: int)
    requires
        0 <= n <= items.len(),
        first_missing(provided, items.take(n)) is Some,
    ensures
        first_missing(provided, items) == first_missing(provided, items.take(n)),
    decreases items.len(),
{
    if n < items.len() {
        assert(items.drop_last().take(n) =~= items.take(n));
        first_missing_stays(provided, items.drop_last(), n);
    } else {
        assert(items.take(n) =~= items);
    }
}

fn find_first_missing(provided: &Vec<String>, items: &Vec<TraitMethodInfo>) -> (r: Option<String>)
    ensures
        r.deep_view() == first_missing(provided.deep_view(), items.deep_view()),
{
    let ghost all = items.deep_view();
    let mut i: usize = 0;
    assert(all.take(0) =~= Seq::empty());
    while i < items.len()
        invariant
            i <= items.len(),
            all == items.deep_view(),
            first_missing(provided.deep_view(), all.take(i as int)) is None,
        decreases items.len() - i,
    {
        proof {
            assert(all.take(i + 1).drop_last() =~= all.take(i as int));
            assert(all.take(i + 1).last() == all[i as int]);
        }
        if !contains_name(provided, items[i].name.as_str()) {
            proof {
                first_missing_stays(provided.deep_view(), all, i + 1);
            }
            return Some(items[i].name.clone());
        }
        i = i + 1;
    }
    assert(all.take(i as int) =~= all);
    None
}

/// The first name that stands twice.
pub open spec fn first_repeated(items: Seq<Seq<char>>) -> Option<Seq<char>>
    decreases items.len(),
{
    if items.len() == 0 {
        None
    } else {
        match first_repeated(items.drop_last()) {
            Some(name) => Some(name),
            None => if items.drop_last().contains(items.last()) {
                Some(items.last())
            } else {
                None
            },
        }
    }
}

proof fn first_repeated_stays(items: Seq<Seq<char>>, n: int)
    requires
        0 <= n <= items.len(),
        first_repeated(items.take(n)) is Some,
    ensures
        first_repeated(items) == first_repeated(items.take(n)),
    decreases items.len(),
{
    if n < items.len() {
        assert(items.drop_last().take(n) =~= items.take(n));
        first_repeated_stays(items.drop_last(), n);
    } else {
        assert(items.take(n) =~= items);
    }
}

/// Whether a name stands before as well.
fn repeats(names: &Vec<String>, at: usize) -> (r: bool)
    requires
        at < names.len(),
    ensures
        r == names.deep_view().take(at as int).contains(names.deep_view()[at as int]),
{
    let ghost before = names.deep_view().take(at as int);
    let mut i: usize = 0;
    while i < at
        invariant
            i <= at < names.len(),
            before == names.deep_view().take(at as int),
            forall|j: int| 0 <= j < i ==> before[j] != names.deep_view()[at as int],
        decreases at - i,
    {
        if text_eq(names[i].as_str(), names[at].as_str()) {
            assert(before[i as int] == names.deep_view()[at as int]);
            return true;
        }
        i = i + 1;
    }
    false
}

fn find_first_repeated(items: &Vec<String>) -> (r: Option<String>)
    ensures
        r.deep_view() == first_repeated(items.deep_view()),
{
    let ghost all = items.deep_view();
    let mut i: usize = 0;
    assert(all.take(0) =~= Seq::empty());
    while i < items.len()
        invariant
            i <= items.len(),
            all == items.deep_view(),
            first_repeated(all.take(i as int)) is None,
        decreases items.len() - i,
    {
        proof {
            assert(all.take(i + 1).drop_last() =~= all.take(i as int));
            assert(all.take(i + 1).last() == all[i as int]);
        }
        if repeats(items, i) {
            proof {
                first_repeated_stays(all, i + 1);
            }
            return Some(items[i].clone());
        }
        i = i + 1;
    }
    assert(all.take(i as int) =~= all);
    None
}

/// The first name that is not of a method of the trait.
pub open spec fn first_extra(methods: Seq<MethodModel>, items: Seq<Seq<char>>) -> Option<Seq<char>>
    decreases items.len(),
{
    if items.len() == 0 {
        None
    } else {
        match first_extra(methods, items.drop_last()) {
            Some(name) => Some(name),
            None => if method_named(methods, items.last()) is None {
                Some(items.last())
            } else {
                None
            },
        }
    }
}

proof fn first_extra_stays(methods: Seq<MethodModel>, items: Seq<Seq<char>>, n: int)
    requires
        0 <= n <= items.len(),
        first_extra(methods, items.take(n)) is Some,
    ensures
        first_extra(methods, items) == first_extra(methods, items.take(n)),
    decreases items.len(),
{
    if n < items.len() {
        assert(items.drop_last().take(n) =~= items.take(n));
        first_extra_stays(methods, items.drop_last(), n);
    } else {
        assert(items.take(n) =~= items);
    }
}

fn find_first_extra(methods: &Vec<TraitMethodInfo>, items: &Vec<String>) -> (r: Option<String>)
    ensures
        r.deep_view() == first_extra(methods.deep_view(), items.deep_view()),
{
    let ghost all = items.deep_view();
    let mut i: usize = 0;
    assert(all.take(0) =~= Seq::empty());
    while i < items.len()
        invariant
            i <= items.len(),
            all == items.deep_view(),
            first_extra(methods.deep_view(), all.take(i as int)) is None,
        decreases items.len() - i,
    {
        proof {
            assert(all.take(i + 1).drop_last() =~= all.take(i as int));
            assert(all.take(i + 1).last() == all[i as int]);
        }
        if find_method(methods, items[i].as_str()).is_none() {
            proof {
                first_extra_stays(methods.deep_view(), all, i + 1);
            }
            return Some(items[i].clone());
        }
        i = i + 1;
    }
    assert(all.take(i as int) =~= all);
    None
}

proof fn without_extra_named(methods: Seq<MethodModel>, names: Seq<Seq<char>>, i: int)
    requires
        first_extra(methods, names) is None,
        0 <= i < names.len(),
    ensures
        method_named(methods, names[i]) is Some,
    decreases names.len(),
{
    if i < names.len() - 1 {
        without_extra_named(methods, names.drop_last(), i);
    }
}

pub open spec fn impl_of(h: ImplHeadModel) -> Seq<char> {
    "impl "@ + h.trait_name + " for "@ + h.target_type
}

fn show_impl(h: &ImplHead) -> (r: String)
    ensures
        r@ == impl_of(h.deep_view()),
{
    concat4("impl ", h.trait_name.as_str(), " for ", h.target_type.as_str())
}

/// The message that a number of arguments is not what a trait expects.
pub open spec fn wrong_arg_count(name: Seq<char>, expected: nat, provided: nat) -> Seq<char> {
    "trait "@ + name + " expects "@ + decimal(expected) + " type argument(s), but "@ + decimal(
        provided,
    ) + " were provided"@
}

fn arg_count_message(name: &str, expected: usize, provided: usize) -> (r: String)
    ensures
        r@ == wrong_arg_count(name@, expected as nat, provided as nat),
{
    let e = number_text(expected as u64);
    let p = number_text(provided as u64);
    let start = concat5("trait ", name, " expects ", e.as_str(), " type argument(s), but ");
    concat3(start.as_str(), p.as_str(), " were provided")
}

/// How many further arguments a trait expects.
pub open spec fn extra_count(t: TraitModel) -> nat {
    if t.type_params.len() > 0 {
        (t.type_params.len() - 1) as nat
    } else {
        0
    }
}

/// Whether an impl provides what its trait asks for: the trait, or the first
/// complaint.
pub open spec fn impl_methods_checked(
    c: CheckerModel,
    h: ImplHeadModel,
    provided: Seq<Seq<char>>,
) -> Result<TraitModel, Diag> {
    match at_key(c.trait_state.traits, h.trait_name) {
        None => Err(an_error_at(h.span, "impl for undefined trait: "@ + h.trait_name)),
        Some(info) => if h.arg_names.len() != extra_count(info) {
            Err(
                an_error_at(
                    h.span,
                    wrong_arg_count(h.trait_name, extra_count(info), h.arg_names.len()),
                ),
            )
        } else {
            match first_missing(provided, info.methods) {
                Some(name) => Err(
                    an_error_at(h.span, impl_of(h) + " is missing method '"@ + name + "'"@),
                ),
                None => match first_repeated(provided) {
                    Some(name) => Err(
                        an_error_at(h.span, impl_of(h) + " has duplicate method '"@ + name + "'"@),
                    ),
                    None => match first_extra(info.methods, provided) {
                        Some(name) => Err(
                            an_error_at(
                                h.span,
                                impl_of(h) + " has method '"@ + name + "' not defined in trait"@,
                            ),
                        ),
                        None => Ok(info),
                    },
                },
            }
        },
    }
}

/// The further arguments of a trait as they are shown behind its name.
pub open spec fn shown_args(names: Seq<Seq<char>>) -> Seq<char> {
    if names.len() == 0 {
        ""@
    } else {
        " "@ + joined(names, " "@)
    }
}

/// The key that an impl is registered under, where its target can have one and
/// nothing is registered there yet.
pub open spec fn impl_key_checked(c: CheckerModel, h: ImplHeadModel, target: Ty) -> Result<
    (Seq<char>, Seq<Seq<char>>, Seq<char>),
    Diag,
> {
    if has_key(c.type_aliases, h.resolved_target) {
        Err(
            an_error_at(
                h.span,
                "cannot impl trait for type alias `"@ + h.target_type
                    + "` — impl for the underlying type instead"@,
            ),
        )
    } else {
        match target_key(target) {
            None => Err(an_error_at(h.span, "impl target must be a named or tuple type"@)),
            Some(key) => if has_key(c.trait_state.impls, (h.trait_name, h.arg_names, key)) {
                Err(
                    an_error_at(
                        h.span,
                        "duplicate impl: "@ + h.trait_name + shown_args(h.arg_names)
                            + " is already implemented for "@ + h.target_type
                            + " (previously defined elsewhere)"@,
                    ),
                )
            } else {
                Ok((h.trait_name, h.arg_names, key))
            },
        }
    }
}

impl Checker {
    /// The trait of an impl, where the impl provides the methods that it asks for.
    pub fn check_impl_methods(&self, head: &ImplHead, provided: &Vec<String>) -> (r: Result<
        &TraitInfo,
        Diagnostic,
    >)
        ensures
            outcome(r) == impl_methods_checked(
                self.deep_view(),
                head.deep_view(),
                provided.deep_view(),
            ),
    {
        assert(head.arg_names.deep_view().len() == head.arg_names.len());
        let info = match self.trait_state.traits.named(head.trait_name.as_str()) {
            Some(info) => info,
            None => {
                return Err(
                    Diagnostic::error_at(
                        head.span,
                        concat("impl for undefined trait: ", head.trait_name.as_str()),
                    ),
                );
            },
        };
        assert(info.type_params.deep_view().len() == info.type_params.len());
        let expected: usize = if info.type_params.len() > 0 {
            info.type_params.len() - 1
        } else {
            0
        };
        if head.arg_names.len() != expected {
            let message = arg_count_message(
                head.trait_name.as_str(),
                expected,
                head.arg_names.len(),
            );
            return Err(Diagnostic::error_at(head.span, message));
        }
        let shown = show_impl(head);
        if let Some(name) = find_first_missing(provided, &info.methods) {
            let message = concat4(shown.as_str(), " is missing method '", name.as_str(), "'");
            return Err(Diagnostic::error_at(head.span, message));
        }
        if let Some(name) = find_first_repeated(provided) {
            let message = concat4(shown.as_str(), " has duplicate method '", name.as_str(), "'");
            return Err(Diagnostic::error_at(head.span, message));
        }
        if let Some(name) = find_first_extra(&info.methods, provided) {
            let message = concat4(
                shown.as_str(),
                " has method '",
                name.as_str(),
                "' not defined in trait",
            );
            return Err(Diagnostic::error_at(head.span, message));
        }
        Ok(info)
    }

    /// The key that an impl is registered under.
    pub fn check_impl_key(&self, head: &ImplHead, target: &Type) -> (r: Result<
        (String, Vec<String>, String),
        Diagnostic,
    >)
        ensures
            outcome(r) == impl_key_checked(self.deep_view(), head.deep_view(), target@),
    {
        assert(head.arg_names.deep_view().len() == head.arg_names.len());
        if self.type_aliases.contains_key(&head.resolved_target) {
            let message = concat3(
                "cannot impl trait for type alias `",
                head.target_type.as_str(),
                "` — impl for the underlying type instead",
            );
            return Err(Diagnostic::error_at(head.span, message));
        }
        match target_key_for_type(target) {
            None => Err(
                Diagnostic::error_at(
                    head.span,
                    "impl target must be a named or tuple type".to_owned(),
                ),
            ),
            Some(key) => {
                let key = (head.trait_name.clone(), head.arg_names.dup(), key);
                if self.trait_state.impls.contains_key(&key) {
                    let args = if head.arg_names.len() == 0 {
                        "".to_owned()
                    } else {
                        let names = join_text(&head.arg_names, " ");
                        concat(" ", names.as_str())
                    };
                    let start = concat5(
                        "duplicate impl: ",
                        head.trait_name.as_str(),
                        args.as_str(),
                        " is already implemented for ",
                        head.target_type.as_str(),
                    );
                    let message = concat(start.as_str(), " (previously defined elsewhere)");
                    Err(Diagnostic::error_at(head.span, message))
                } else {
                    Ok(key)
                }
            },
        }
    }
}

/// A `Trait a b` of a where clause, settled: the trait, the variable that must have
/// it and the further arguments; nothing where it holds already.
pub type AppConstraint = (Seq<char>, u32, Seq<Ty>);

/// Whether an argument is a parameter of the impl.
pub open spec fn is_impl_param(vars: Seq<(Seq<char>, u32)>, t: TypeExpr) -> bool {
    t matches TypeExpr::Var { name, .. } && first_at(vars, name@) is Some
}

/// Whether an argument is a variable that nothing binds.
pub open spec fn is_unbound(vars: Seq<(Seq<char>, u32)>, t: TypeExpr) -> bool {
    t matches TypeExpr::Var { name, .. } && first_at(vars, name@) is None
}

pub open spec fn any_impl_param(vars: Seq<(Seq<char>, u32)>, args: Seq<TypeExpr>) -> bool {
    exists|i: int| 0 <= i < args.len() && is_impl_param(vars, #[trigger] args[i])
}

pub open spec fn any_unbound(vars: Seq<(Seq<char>, u32)>, args: Seq<TypeExpr>) -> bool {
    exists|i: int| 0 <= i < args.len() && is_unbound(vars, #[trigger] args[i])
}

pub open spec fn is_supported_arg(t: TypeExpr) -> bool {
    t is Named || t is App || t is Var
}

/// Where the first argument stands that a where clause cannot have.
pub open spec fn first_unsupported(args: Seq<TypeExpr>) -> Option<Span>
    decreases args.len(),
{
    if args.len() == 0 {
        None
    } else {
        match first_unsupported(args.drop_last()) {
            Some(span) => Some(span),
            None => if is_supported_arg(args.last()) {
                None
            } else {
                Some(crate::ast::span_of(args.last()))
            },
        }
    }
}

proof fn first_unsupported_stays(args: Seq<TypeExpr>, n: int)
    requires
        0 <= n <= args.len(),
        first_unsupported(args.take(n)) is Some,
    ensures
        first_unsupported(args) == first_unsupported(args.take(n)),
    decreases args.len(),
{
    if n < args.len() {
        assert(args.drop_last().take(n) =~= args.take(n));
        first_unsupported_stays(args.drop_last(), n);
    } else {
        assert(args.take(n) =~= args);
    }
}

/// Where the first argument stands that a where clause cannot have; whether there
/// is a parameter of the impl, and whether there is an unbound variable.
fn classify_args(vars: &Vec<(String, u32)>, args: &Vec<TypeExpr>) -> (r: Result<
    (bool, bool),
    Span,
>)
    ensures
        match r {
            Ok((params, unbound)) => {
                &&& first_unsupported(args@) is None
                &&& params == any_impl_param(vars.deep_view(), args@)
                &&& unbound == any_unbound(vars.deep_view(), args@)
            },
            Err(span) => first_unsupported(args@) == Some(span),
        },
{
    let ghost v = vars.deep_view();
    let mut params = false;
    let mut unbound = false;
    let mut i: usize = 0;
    assert(args@.take(0) =~= Seq::empty());
    while i < args.len()
        invariant
            i <= args.len(),
            v == vars.deep_view(),
            first_unsupported(args@.take(i as int)) is None,
            params == (exists|j: int| 0 <= j < i && is_impl_param(v, #[trigger] args@[j])),
            unbound == (exists|j: int| 0 <= j < i && is_unbound(v, #[trigger] args@[j])),
        decreases args.len() - i,
    {
        proof {
            assert(args@.take(i + 1).drop_last() =~= args@.take(i as int));
            assert(args@.take(i + 1).last() == args@[i as int]);
        }
        let ghost params0 = params;
        let ghost unbound0 = unbound;
        match &args[i] {
            TypeExpr::Named { .. } => {},
            TypeExpr::App { .. } => {},
            TypeExpr::Var { name, .. } => {
                if find_var(vars, name.as_str()).is_some() {
                    params = true;
                    assert(is_impl_param(v, args@[i as int]));
                } else {
                    unbound = true;
                    assert(is_unbound(v, args@[i as int]));
                }
            },
            _ => {
                proof {
                    first_unsupported_stays(args@, i + 1);
                }
                return Err(args[i].span());
            },
        }
        i = i + 1;
    }
    assert(args@.take(i as int) =~= args@);
    Ok((params, unbound))
}

/// The state with a `Trait a b` of a where clause that speaks of parameters of the
/// impl.
pub open spec fn with_param_app(
    c: CheckerModel,
    id: u32,
    var: Seq<char>,
    name: Seq<char>,
    extras: Seq<Ty>,
) -> CheckerModel {
    CheckerModel {
        trait_state: TraitStateModel {
            where_bound_var_names: put(c.trait_state.where_bound_var_names, id, var),
            where_bounds: with_known_trait(c.trait_state.where_bounds, id, name),
            where_bound_trait_args: if extras.len() == 0 {
                c.trait_state.where_bound_trait_args
            } else {
                put(c.trait_state.where_bound_trait_args, (id, name), extras)
            },
            ..c.trait_state
        },
        ..c
    }
}

pub open spec fn not_on_first_arg() -> Seq<char> {
    "TraitApp constraints on impl type parameters must constrain the first trait argument"@
}

/// A `Trait a b` of a where clause. One that speaks of parameters of the impl is a
/// constraint on the first of them; any other must hold already. `extras` are the
/// converted arguments but the first.
pub open spec fn app_checked(
    c: CheckerModel,
    vars: Seq<(Seq<char>, u32)>,
    app: TraitApp,
    extras: Seq<Ty>,
) -> (CheckerModel, Result<Option<AppConstraint>, Diag>) {
    let name = match trait_named(c, app.trait_name@) {
        Some(name) => name,
        None => app.trait_name@,
    };
    match at_key(c.trait_state.traits, name) {
        None => (c, Err(an_error_at(app.span, "unknown trait '"@ + app.trait_name@ + "'"@))),
        Some(info) => {
            let args = app.type_args@;
            let c1 = CheckerModel {
                lsp: LspModel {
                    type_references: c.lsp.type_references.push((app.span, name)),
                    ..c.lsp
                },
                ..c
            };
            if args.len() != info.type_params.len() {
                (
                    c1,
                    Err(
                        an_error_at(
                            app.span,
                            wrong_arg_count(name, info.type_params.len(), args.len()),
                        ),
                    ),
                )
            } else {
                match first_unsupported(args) {
                    Some(span) => (
                        c1,
                        Err(
                            an_error_at(
                                span,
                                "only named types, type variables, and type applications are supported in trait-app where-clauses"@,
                            ),
                        ),
                    ),
                    None => if any_impl_param(vars, args) {
                        if any_unbound(vars, args) {
                            (
                                c1,
                                Err(
                                    an_error_at(
                                        app.span,
                                        "where-clause TraitApp constraints cannot mix impl type parameters with fresh existential variables"@,
                                    ),
                                ),
                            )
                        } else if !is_impl_param(vars, args[0]) {
                            (c1, Err(an_error_at(app.span, not_on_first_arg())))
                        } else {
                            let var = args[0]->Var_name@;
                            let id = first_at(vars, var)->0;
                            (
                                with_param_app(c1, id, var, name, extras),
                                Ok(Some((name, id, extras))),
                            )
                        }
                    } else if any_unbound(vars, args) {
                        (
                            c1,
                            Err(
                                an_error_at(
                                    app.span,
                                    "fresh type variable not determined by constraint: trait "@
                                        + name
                                        + "'s extra parameters cannot be determined from the others"@,
                                ),
                            ),
                        )
                    } else {
                        let heads = resolved_heads(c1, args);
                        if has_key(c1.trait_state.impls, (name, heads.skip(1), heads[0])) {
                            (c1, Ok(None))
                        } else {
                            (
                                c1,
                                Err(
                                    an_error_at(
                                        app.span,
                                        "no impl of "@ + name + " for "@ + heads[0],
                                    ),
                                ),
                            )
                        }
                    },
                }
            }
        },
    }
}

/// Whether a `Trait a b` of a where clause speaks of something: it has arguments, or
/// it is refused for having none.
pub open spec fn app_is_told(c: CheckerModel, app: TraitApp) -> bool {
    app.type_args@.len() > 0 || match at_key(
        c.trait_state.traits,
        trait_or_self(c, app.trait_name@),
    ) {
        None => true,
        Some(info) => info.type_params.len() > 0,
    }
}

pub open spec fn apps_are_told(c: CheckerModel, apps: Seq<TraitApp>) -> bool {
    forall|i: int| 0 <= i < apps.len() ==> app_is_told(c, #[trigger] apps[i])
}

/// A where clause changes no trait, and not what names of traits stand for.
proof fn app_keeps_traits(
    c: CheckerModel,
    vars: Seq<(Seq<char>, u32)>,
    app: TraitApp,
    extras: Seq<Ty>,
)
    ensures
        same_traits(c, app_checked(c, vars, app, extras).0),
{
}

proof fn traits_tell_apps(c: CheckerModel, other: CheckerModel, apps: Seq<TraitApp>)
    requires
        same_traits(c, other),
        apps_are_told(c, apps),
    ensures
        apps_are_told(other, apps),
{
    assert forall|i: int| 0 <= i < apps.len() implies app_is_told(other, #[trigger] apps[i]) by {
        assert(app_is_told(c, apps[i]));
    }
}

fn all_but_first(names: &Vec<String>) -> (r: Vec<String>)
    requires
        names.len() > 0,
    ensures
        r.deep_view() == names.deep_view().skip(1),
{
    let mut out: Vec<String> = Vec::new();
    let mut i: usize = 1;
    while i < names.len()
        invariant
            1 <= i <= names.len(),
            out.len() == i - 1,
            forall|j: int|
                0 <= j < i - 1 ==> #[trigger] out.deep_view()[j] == names.deep_view()[j + 1],
        decreases names.len() - i,
    {
        push_value(&mut out, names[i].clone());
        i = i + 1;
    }
    assert(out.deep_view() =~= names.deep_view().skip(1));
    out
}

impl Checker {
    fn check_app(&mut self, vars: &Vec<(String, u32)>, app: &TraitApp, extras: &Vec<Type>) -> (r:
        Result<Option<(String, u32, Vec<Type>)>, Diagnostic>)
        requires
            app_is_told(old(self).deep_view(), *app),
        ensures
            (final(self).deep_view(), outcome(r)) == app_checked(
                old(self).deep_view(),
                vars.deep_view(),
                *app,
                extras.deep_view(),
            ),
    {
        assert(extras.deep_view().len() == extras.len());
        let name = match self.resolve_trait_name(app.trait_name.as_str()) {
            Some(name) => name,
            None => app.trait_name.clone(),
        };
        let expected = match self.trait_state.traits.get(&name) {
            Some(info) => {
                assert(info.type_params.deep_view().len() == info.type_params.len());
                info.type_params.len()
            },
            None => {
                let message = concat3("unknown trait '", app.trait_name.as_str(), "'");
                return Err(Diagnostic::error_at(app.span, message));
            },
        };
        push_value(&mut self.lsp.type_references, (app.span, name.clone()));
        if app.type_args.len() != expected {
            let message = arg_count_message(name.as_str(), expected, app.type_args.len());
            return Err(Diagnostic::error_at(app.span, message));
        }
        match classify_args(vars, &app.type_args) {
            Err(span) => Err(
                Diagnostic::error_at(
                    span,
                    "only named types, type variables, and type applications are supported in trait-app where-clauses".to_owned(),
                ),
            ),
            Ok((params, unbound)) => {
                if params {
                    if unbound {
                        return Err(
                            Diagnostic::error_at(
                                app.span,
                                "where-clause TraitApp constraints cannot mix impl type parameters with fresh existential variables".to_owned(),
                            ),
                        );
                    }
                    if let TypeExpr::Var { name: var, .. } = &app.type_args[0] {
                        if let Some(id) = find_var(vars, var.as_str()) {
                            self.trait_state.where_bound_var_names.insert(id, var.clone());
                            know_trait(&mut self.trait_state.where_bounds, id, name.clone());
                            if extras.len() != 0 {
                                self.trait_state.where_bound_trait_args.insert(
                                    (id, name.clone()),
                                    extras.dup(),
                                );
                            }
                            return Ok(Some((name, id, extras.dup())));
                        }
                    }
                    Err(
                        Diagnostic::error_at(
                            app.span,
                            "TraitApp constraints on impl type parameters must constrain the first trait argument".to_owned(),
                        ),
                    )
                } else if unbound {
                    let message = concat3(
                        "fresh type variable not determined by constraint: trait ",
                        name.as_str(),
                        "'s extra parameters cannot be determined from the others",
                    );
                    Err(Diagnostic::error_at(app.span, message))
                } else {
                    let heads = resolve_heads(self, &app.type_args);
                    assert(heads.deep_view().len() == app.type_args.len());
                    let key = (name.clone(), all_but_first(&heads), heads[0].clone());
                    if self.trait_state.impls.contains_key(&key) {
                        Ok(None)
                    } else {
                        let message = concat4(
                            "no impl of ",
                            name.as_str(),
                            " for ",
                            heads[0].as_str(),
                        );
                        Err(Diagnostic::error_at(app.span, message))
                    }
                }
            },
        }
    }
}

/// The first `n` of the `Trait a b` of a where clause.
pub open spec fn apps_checked(
    c: CheckerModel,
    vars: Seq<(Seq<char>, u32)>,
    introduced: Introduced,
    apps: Seq<TraitApp>,
    extras: Seq<Seq<Ty>>,
    n: nat,
) -> (CheckerModel, Result<Seq<AppConstraint>, Diag>)
    decreases n,
{
    if n == 0 {
        (c, Ok(Seq::empty()))
    } else {
        let before = apps_checked(c, vars, introduced, apps, extras, (n - 1) as nat);
        match before.1 {
            Err(e) => before,
            Ok(constraints) => {
                let last = app_checked(
                    before.0,
                    known_vars(vars, introduced, (n - 1) as nat),
                    apps[n - 1],
                    extras[n - 1],
                );
                match last.1 {
                    Err(e) => (last.0, Err(e)),
                    Ok(Some(constraint)) => (last.0, Ok(constraints.push(constraint))),
                    Ok(None) => (last.0, Ok(constraints)),
                }
            },
        }
    }
}

proof fn apps_checked_stop(
    c: CheckerModel,
    vars: Seq<(Seq<char>, u32)>,
    introduced: Introduced,
    apps: Seq<TraitApp>,
    extras: Seq<Seq<Ty>>,
    n: nat,
    m: nat,
)
    requires
        n <= m,
        apps_checked(c, vars, introduced, apps, extras, n).1 is Err,
    ensures
        apps_checked(
            c,
            vars,
            introduced,
            apps,
            extras,
            m,
        ) == apps_checked(c, vars, introduced, apps, extras, n),
    decreases m,
{
    if n < m {
        apps_checked_stop(c, vars, introduced, apps, extras, n, (m - 1) as nat);
    }
}

impl Checker {
    /// Checks the `Trait a b` of a where clause, and gives back those that are
    /// constraints on parameters of the impl, with the variables that are known
    /// after them. `introduced` are the variables that first occur in each.
    pub fn check_where_apps(
        &mut self,
        vars: &Vec<(String, u32)>,
        introduced: &Vec<Vec<(String, u32)>>,
        apps: &Vec<TraitApp>,
        extras: &Vec<Vec<Type>>,
    ) -> (r: (Result<Vec<(String, u32, Vec<Type>)>, Diagnostic>, Vec<(String, u32)>))
        requires
            extras.len() == apps.len(),
            introduced.len() == apps.len(),
            apps_are_told(old(self).deep_view(), apps@),
        ensures
            r.0 is Ok ==> r.1.deep_view() == known_vars(
                vars.deep_view(),
                introduced.deep_view(),
                apps@.len(),
            ),
            (final(self).deep_view(), outcome(r.0)) == apps_checked(
                old(self).deep_view(),
                vars.deep_view(),
                introduced.deep_view(),
                apps@,
                extras.deep_view(),
                apps@.len(),
            ),
    {
        let ghost c0 = self.deep_view();
        let ghost v = vars.deep_view();
        let ghost all = extras.deep_view();
        let ghost more = introduced.deep_view();
        let mut known = vars.dup();
        let mut out: Vec<(String, u32, Vec<Type>)> = Vec::new();
        let mut i: usize = 0;
        assert(out.deep_view() =~= Seq::empty());
        while i < apps.len()
            invariant
                i <= apps.len(),
                extras.len() == apps.len(),
                apps_are_told(self.deep_view(), apps@),
                c0 == old(self).deep_view(),
                v == vars.deep_view(),
                all == extras.deep_view(),
                more == introduced.deep_view(),
                introduced.len() == apps.len(),
                known.deep_view() == known_vars(v, more, i as nat),
                (self.deep_view(), Ok::<Seq<AppConstraint>, Diag>(out.deep_view())) == apps_checked(
                    c0,
                    v,
                    more,
                    apps@,
                    all,
                    i as nat,
                ),
            decreases apps.len() - i,
        {
            assert(all[i as int] == extras@[i as int].deep_view());
            let ghost before = self.deep_view();
            assert(app_is_told(before, apps@[i as int]));
            proof {
                app_keeps_traits(before, known.deep_view(), apps@[i as int], all[i as int]);
            }
            match self.check_app(&known, &apps[i], &extras[i]) {
                Err(e) => {
                    proof {
                        apps_checked_stop(c0, v, more, apps@, all, (i + 1) as nat, apps@.len());
                    }
                    return (Err(e), known);
                },
                Ok(Some(constraint)) => {
                    push_value(&mut out, constraint);
                },
                Ok(None) => {},
            }
            proof {
                traits_tell_apps(before, self.deep_view(), apps@);
            }
            assert(more[i as int] == introduced@[i as int].deep_view());
            let mut arrived = introduced[i].dup();
            append_values(&mut known, &mut arrived);
            i = i + 1;
        }
        (Ok(out), known)
    }
}

/// The names that are not among some others.
pub open spec fn names_outside(names: Seq<Seq<char>>, allowed: Seq<Seq<char>>) -> Seq<Seq<char>>
    decreases names.len(),
{
    if names.len() == 0 {
        Seq::empty()
    } else {
        let before = names_outside(names.drop_last(), allowed);
        if allowed.contains(names.last()) {
            before
        } else {
            before.push(names.last())
        }
    }
}

/// The names that are not among some others.
pub fn find_names_outside(names: &Vec<String>, allowed: &Vec<String>) -> (r: Vec<String>)
    ensures
        r.deep_view() == names_outside(names.deep_view(), allowed.deep_view()),
{
    let ghost all = names.deep_view();
    let mut out: Vec<String> = Vec::new();
    let mut i: usize = 0;
    assert(all.take(0) =~= Seq::empty());
    assert(out.deep_view() =~= Seq::empty());
    while i < names.len()
        invariant
            i <= names.len(),
            all == names.deep_view(),
            out.deep_view() == names_outside(all.take(i as int), allowed.deep_view()),
        decreases names.len() - i,
    {
        proof {
            assert(all.take(i + 1).drop_last() =~= all.take(i as int));
            assert(all.take(i + 1).last() == all[i as int]);
        }
        if !contains_name(allowed, names[i].as_str()) {
            push_value(&mut out, names[i].clone());
        }
        i = i + 1;
    }
    assert(all.take(i as int) =~= all);
    out
}

/// The first field access that could be of several records.
pub open spec fn first_ambiguous(sub: Sub, candidates: Seq<(u32, Seq<Seq<char>>, Span)>) -> Option<
    Diag,
>
    decreases candidates.len(),
{
    if candidates.len() == 0 {
        None
    } else {
        match first_ambiguous(sub, candidates.drop_last()) {
            Some(d) => Some(d),
            None => if applied(sub, Ty::Var(candidates.last().0)) is Var {
                Some(
                    an_error_at(
                        candidates.last().2,
                        "ambiguous field access: could be any of ["@ + joined(
                            sorted_texts(candidates.last().1),
                            ", "@,
                        )
                            + "] which all have this field; add a type annotation to disambiguate"@,
                    ),
                )
            } else {
                None
            },
        }
    }
}

proof fn first_ambiguous_stays(sub: Sub, candidates: Seq<(u32, Seq<Seq<char>>, Span)>, n: int)
    requires
        0 <= n <= candidates.len(),
        first_ambiguous(sub, candidates.take(n)) is Some,
    ensures
        first_ambiguous(sub, candidates) == first_ambiguous(sub, candidates.take(n)),
    decreases candidates.len(),
{
    if n < candidates.len() {
        assert(candidates.drop_last().take(n) =~= candidates.take(n));
        first_ambiguous_stays(sub, candidates.drop_last(), n);
    } else {
        assert(candidates.take(n) =~= candidates);
    }
}

/// The first field access that could be of several records.
pub fn find_ambiguous(
    sub: &crate::subst::Substitution,
    candidates: &Vec<(u32, Vec<String>, Span)>,
) -> (r: Option<Diagnostic>)
    requires
        acyclic(sub@),
    ensures
        r.deep_view() == first_ambiguous(sub@, candidates.deep_view()),
{
    let ghost all = candidates.deep_view();
    let mut i: usize = 0;
    assert(all.take(0) =~= Seq::empty());
    while i < candidates.len()
        invariant
            i <= candidates.len(),
            all == candidates.deep_view(),
            acyclic(sub@),
            first_ambiguous(sub@, all.take(i as int)) is None,
        decreases candidates.len() - i,
    {
        broadcast use group_type_models;

        proof {
            assert(all.take(i + 1).drop_last() =~= all.take(i as int));
            assert(all.take(i + 1).last() == all[i as int]);
        }
        let c = &candidates[i];
        if let Type::Var(_) = sub.apply(&Type::Var(c.0)) {
            let names = sort_texts(&c.1);
            let shown = join_text(&names, ", ");
            let message = concat3(
                "ambiguous field access: could be any of [",
                shown.as_str(),
                "] which all have this field; add a type annotation to disambiguate",
            );
            proof {
                first_ambiguous_stays(sub@, all, i + 1);
            }
            return Some(Diagnostic::error_at(c.2, message));
        }
        i = i + 1;
    }
    assert(all.take(i as int) =~= all);
    None
}

pub open spec fn short_name_list(names: Seq<Seq<char>>) -> Seq<char> {
    joined(names.map_values(|x: Seq<char>| last_segment(x)), ", "@)
}

/// Effects that the trait does not permit to its impls.
pub open spec fn effects_exceeded(
    h: ImplHeadModel,
    method: Seq<char>,
    span: Span,
    exceeded: Seq<Seq<char>>,
) -> Diag {
    let shown = short_name_list(exceeded);
    an_error_at(
        span,
        impl_of(h) + ", method '"@ + method + "' uses effect"@ + (if exceeded.len() == 1 {
            ""@
        } else {
            "s"@
        }) + " {"@ + shown + "} that trait method '"@ + method
            + "' does not permit. Declare the effect on the trait method (e.g. `needs {..e}` to allow any impl effects, or `needs {"@
            + shown + "}` to allow exactly these)."@,
    )
}

/// Effects that the impl does not declare.
pub open spec fn effects_undeclared(
    h: ImplHeadModel,
    method: Seq<char>,
    span: Span,
    undeclared: Seq<Seq<char>>,
    declared: Seq<Seq<char>>,
) -> Diag {
    an_error_at(
        span,
        impl_of(h) + ", method '"@ + method + "' uses effects {"@ + joined(undeclared, ", "@) + (
        if declared.len() == 0 {
            "} but has no 'needs' declaration"@
        } else {
            "} not declared in its 'needs' clause"@
        }),
    )
}

/// The body of a method. Its effects, in order, or the first complaint: the body
/// may do only what the trait method permits and what the impl declares.
pub open spec fn body_checked(
    c: CheckerModel,
    h: ImplHeadModel,
    method: MethodModel,
    declared: Seq<Seq<char>>,
    span: Span,
    body: BodyModel,
) -> (CheckerModel, Result<Seq<Seq<char>>, Diag>) {
    let effects = ordered(body.effects.to_set());
    let exceeded = names_outside(effects, method.effect_sig.effects);
    let undeclared = names_outside(effects, declared);
    let c1 = if declared.len() == 0 {
        c
    } else {
        CheckerModel { known_funs: add_new(c.known_funs, seq![method.name]), ..c }
    };
    match body.mismatch {
        Some(m) => (
            c,
            Err(
                an_error_at(
                    h.span,
                    "in "@ + impl_of(h) + ", method '"@ + method.name + "': "@ + m,
                ),
            ),
        ),
        None => if !method.effect_sig.is_open_row && exceeded.len() > 0 {
            (c, Err(effects_exceeded(h, method.name, span, exceeded)))
        } else if undeclared.len() > 0 {
            (c, Err(effects_undeclared(h, method.name, span, undeclared, declared)))
        } else {
            match first_ambiguous(c.sub, body.candidates) {
                Some(d) => (c1, Err(d)),
                None => (c1, Ok(effects)),
            }
        },
    }
}

impl Checker {
    /// Checks what the body of a method came to. `span` is where the body stands.
    pub fn check_body(
        &mut self,
        head: &ImplHead,
        method: &TraitMethodInfo,
        declared: &Vec<String>,
        span: Span,
        body: &MethodBody,
    ) -> (r: Result<Vec<String>, Diagnostic>)
        requires
            acyclic(old(self).sub@),
        ensures
            (final(self).deep_view(), outcome(r)) == body_checked(
                old(self).deep_view(),
                head.deep_view(),
                method.deep_view(),
                declared.deep_view(),
                span,
                body.deep_view(),
            ),
    {
        let ghost c0 = self.deep_view();
        assert(declared.deep_view().len() == declared.len());
        let shown = show_impl(head);
        let label = concat3(shown.as_str(), ", method '", method.name.as_str());
        if let Some(m) = &body.mismatch {
            let start = concat5("in ", shown.as_str(), ", method '", method.name.as_str(), "': ");
            return Err(Diagnostic::error_at(head.span, concat(start.as_str(), m.as_str())));
        }
        let effects = ordered_set(&body.effects);
        proof {
            crate::sorting::ordered_is(effects.deep_view(), body.effects.deep_view().to_set());
        }
        if !method.effect_sig.is_open_row {
            let exceeded = find_names_outside(&effects, &method.effect_sig.effects);
            assert(exceeded.deep_view().len() == exceeded.len());
            if exceeded.len() > 0 {
                let short = crate::effects::short_names(&exceeded);
                let names = join_text(&short, ", ");
                let plural = if exceeded.len() == 1 {
                    ""
                } else {
                    "s"
                };
                let start = concat5(
                    label.as_str(),
                    "' uses effect",
                    plural,
                    " {",
                    names.as_str(),
                );
                let message = concat5(
                    start.as_str(),
                    "} that trait method '",
                    method.name.as_str(),
                    "' does not permit. Declare the effect on the trait method (e.g. `needs {..e}` to allow any impl effects, or `needs {",
                    names.as_str(),
                );
                let message = concat(message.as_str(), "}` to allow exactly these).");
                return Err(Diagnostic::error_at(span, message));
            }
        }
        let undeclared = find_names_outside(&effects, declared);
        assert(undeclared.deep_view().len() == undeclared.len());
        if undeclared.len() > 0 {
            let names = join_text(&undeclared, ", ");
            let end = if declared.len() == 0 {
                "} but has no 'needs' declaration"
            } else {
                "} not declared in its 'needs' clause"
            };
            let message = concat4(label.as_str(), "' uses effects {", names.as_str(), end);
            return Err(Diagnostic::error_at(span, message));
        }
        if declared.len() != 0 {
            proof {
                add_new_one(self.known_funs.deep_view(), method.name@);
            }
            push_new(&mut self.known_funs, method.name.clone());
        }
        assert(self.sub@ == c0.sub);
        match find_ambiguous(&self.sub, &body.candidates) {
            Some(d) => Err(d),
            None => Ok(effects),
        }
    }
}

/// The constraints of an impl.
#[derive(Debug)]
pub struct ImplConstraints {
    /// Traits that the arguments of the target type need, by position.
    pub by_position: Vec<(String, usize)>,
    /// The same, by variable.
    pub by_var: Vec<(String, u32)>,
    /// Traits with further arguments, by variable.
    pub with_args: Vec<(String, u32, Vec<Type>)>,
}

#[verifier::ext_equal]
pub struct ConstraintsModel {
    pub by_position: Seq<(Seq<char>, usize)>,
    pub by_var: Seq<(Seq<char>, u32)>,
    pub with_args: Seq<(Seq<char>, u32, Seq<Ty>)>,
}

impl DeepView for ImplConstraints {
    type V = ConstraintsModel;

    open spec fn deep_view(&self) -> ConstraintsModel {
        ConstraintsModel {
            by_position: self.by_position.deep_view(),
            by_var: self.by_var.deep_view(),
            with_args: self.with_args.deep_view(),
        }
    }
}

impl Dup for ImplConstraints {
    fn dup(&self) -> (r: Self) {
        ImplConstraints {
            by_position: self.by_position.dup(),
            by_var: self.by_var.dup(),
            with_args: self.with_args.dup(),
        }
    }
}

/// The constraints with a trait that a variable of the impl needs.
pub open spec fn with_impl_constraint(
    c: CheckerModel,
    target: Ty,
    id: u32,
    k: ConstraintsModel,
    t: TraitRef,
    args: Seq<Ty>,
) -> ConstraintsModel {
    let name = trait_at(c, t);
    if t.type_args@.len() > 0 {
        ConstraintsModel { with_args: k.with_args.push((name, id, args)), ..k }
    } else {
        ConstraintsModel {
            by_var: k.by_var.push((name, id)),
            by_position: match direct_var_position(target, id) {
                Some(at) => k.by_position.push((name, at)),
                None => k.by_position,
            },
            ..k
        }
    }
}

/// The constraints with the first `n` traits of a bound.
pub open spec fn with_impl_bound(
    c: CheckerModel,
    target: Ty,
    id: u32,
    k: ConstraintsModel,
    traits: Seq<TraitRef>,
    args: Seq<Seq<Ty>>,
    n: nat,
) -> ConstraintsModel
    decreases n,
{
    if n == 0 {
        k
    } else {
        with_impl_constraint(
            c,
            target,
            id,
            with_impl_bound(c, target, id, k, traits, args, (n - 1) as nat),
            traits[n - 1],
            args[n - 1],
        )
    }
}

/// The complaint about a bound on a variable that an impl does not speak of.
pub open spec fn unknown_bound_var(
    span: Span,
    var: Seq<char>,
    params: Seq<TypeParamModel>,
) -> Diag {
    an_error_at(
        span,
        "where clause references unknown type variable '"@ + var + "' (params: "@ + shown_params(
            params,
        ) + ")"@,
    )
}

/// The constraints with the first `n` bounds of the where clause of an impl.
pub open spec fn impl_constraints(
    c: CheckerModel,
    span: Span,
    params: Seq<TypeParamModel>,
    target: Ty,
    vars: Seq<(Seq<char>, u32)>,
    k: ConstraintsModel,
    bounds: Seq<TraitBound>,
    args: Seq<Seq<Seq<Ty>>>,
    n: nat,
) -> Result<ConstraintsModel, Diag>
    decreases n,
{
    if n == 0 {
        Ok(k)
    } else {
        match impl_constraints(c, span, params, target, vars, k, bounds, args, (n - 1) as nat) {
            Err(e) => Err(e),
            Ok(k) => {
                let b = bounds[n - 1];
                match first_at(vars, b.type_var@) {
                    None => Err(unknown_bound_var(span, b.type_var@, params)),
                    Some(id) => Ok(
                        with_impl_bound(
                            c,
                            target,
                            id,
                            k,
                            b.traits@,
                            args[n - 1],
                            b.traits@.len(),
                        ),
                    ),
                }
            },
        }
    }
}

proof fn impl_constraints_stop(
    c: CheckerModel,
    span: Span,
    params: Seq<TypeParamModel>,
    target: Ty,
    vars: Seq<(Seq<char>, u32)>,
    k: ConstraintsModel,
    bounds: Seq<TraitBound>,
    args: Seq<Seq<Seq<Ty>>>,
    n: nat,
    m: nat,
)
    requires
        n <= m,
        impl_constraints(c, span, params, target, vars, k, bounds, args, n) is Err,
    ensures
        impl_constraints(c, span, params, target, vars, k, bounds, args, m) == impl_constraints(
            c,
            span,
            params,
            target,
            vars,
            k,
            bounds,
            args,
            n,
        ),
    decreases m,
{
    if n < m {
        impl_constraints_stop(c, span, params, target, vars, k, bounds, args, n, (m - 1) as nat);
    }
}

impl Checker {
    fn add_impl_bound(
        &self,
        target: &Type,
        id: u32,
        constraints: &mut ImplConstraints,
        traits: &Vec<TraitRef>,
        args: &Vec<Vec<Type>>,
    )
        requires
            args.len() == traits.len(),
        ensures
            final(constraints).deep_view() == with_impl_bound(
                self.deep_view(),
                target@,
                id,
                old(constraints).deep_view(),
                traits@,
                args.deep_view(),
                traits@.len(),
            ),
    {
        let ghost k0 = constraints.deep_view();
        let mut i: usize = 0;
        while i < traits.len()
            invariant
                i <= traits.len(),
                args.len() == traits.len(),
                constraints.deep_view() == with_impl_bound(
                    self.deep_view(),
                    target@,
                    id,
                    k0,
                    traits@,
                    args.deep_view(),
                    i as nat,
                ),
            decreases traits.len() - i,
        {
            assert(args.deep_view()[i as int] == args@[i as int].deep_view());
            let t = &traits[i];
            let name = self.resolved_trait_name_at(t.id, t.name.as_str());
            if t.type_args.len() > 0 {
                push_value(&mut constraints.with_args, (name, id, args[i].dup()));
            } else {
                push_value(&mut constraints.by_var, (name.clone(), id));
                if let Some(at) = direct_target_var_index(target, id) {
                    push_value(&mut constraints.by_position, (name, at));
                }
            }
            i = i + 1;
        }
    }

    /// The constraints of an impl, from its where clause. `apps` are those that its
    /// `Trait a b` make.
    pub fn impl_where_constraints(
        &self,
        span: Span,
        params: &Vec<TypeParam>,
        target: &Type,
        vars: &Vec<(String, u32)>,
        apps: Vec<(String, u32, Vec<Type>)>,
        bounds: &Vec<TraitBound>,
        args: &Vec<Vec<Vec<Type>>>,
    ) -> (r: Result<ImplConstraints, Diagnostic>)
        requires
            args_fit(bounds@, args.deep_view()),
        ensures
            outcome(r) == impl_constraints(
                self.deep_view(),
                span,
                params.deep_view(),
                target@,
                vars.deep_view(),
                (ConstraintsModel {
                    by_position: Seq::empty(),
                    by_var: Seq::empty(),
                    with_args: apps.deep_view(),
                }),
                bounds@,
                args.deep_view(),
                bounds@.len(),
            ),
    {
        let by_position: Vec<(String, usize)> = Vec::new();
        let by_var: Vec<(String, u32)> = Vec::new();
        assert(by_position.deep_view() =~= Seq::empty());
        assert(by_var.deep_view() =~= Seq::empty());
        let mut out = ImplConstraints { by_position, by_var, with_args: apps };
        let ghost k0 = out.deep_view();
        let ghost c = self.deep_view();
        let ghost ps = params.deep_view();
        let ghost vs = vars.deep_view();
        let ghost all = args.deep_view();
        let mut i: usize = 0;
        while i < bounds.len()
            invariant
                i <= bounds.len(),
                args_fit(bounds@, all),
                c == self.deep_view(),
                ps == params.deep_view(),
                vs == vars.deep_view(),
                all == args.deep_view(),
                k0 == (ConstraintsModel {
                    by_position: Seq::empty(),
                    by_var: Seq::empty(),
                    with_args: apps.deep_view(),
                }),
                impl_constraints(c, span, ps, target@, vs, k0, bounds@, all, i as nat) == Ok::<
                    ConstraintsModel,
                    Diag,
                >(out.deep_view()),
            decreases bounds.len() - i,
        {
            assert(all.len() == args.len());
            assert(all[i as int] == args@[i as int].deep_view());
            let b = &bounds[i];
            match find_var(vars, b.type_var.as_str()) {
                Some(id) => {
                    self.add_impl_bound(target, id, &mut out, &b.traits, &args[i]);
                },
                None => {
                    let shown = show_params(params);
                    let message = concat5(
                        "where clause references unknown type variable '",
                        b.type_var.as_str(),
                        "' (params: ",
                        shown.as_str(),
                        ")",
                    );
                    proof {
                        impl_constraints_stop(
                            c,
                            span,
                            ps,
                            target@,
                            vs,
                            k0,
                            bounds@,
                            all,
                            (i + 1) as nat,
                            bounds@.len(),
                        );
                    }
                    return Err(Diagnostic::error_at(span, message));
                },
            }
            i = i + 1;
        }
        Ok(out)
    }
}

/// An impl, its types converted.
pub struct ImplParts {
    /// The type parameters that it declares.
    pub params: Vec<TypeParam>,
    /// The target type.
    pub target: Type,
    /// The variables that its head speaks of.
    pub vars: Vec<(String, u32)>,
    /// The further arguments of the trait.
    pub trait_type_args: Vec<Type>,
    /// The further arguments of the traits of its where clause.
    pub bound_args: Vec<Vec<Vec<Type>>>,
    /// The variables that first occur in the further arguments of each bound.
    pub introduced: Vec<Vec<(String, u32)>>,
    /// The arguments but the first of each `Trait a b` of its where clause.
    pub app_args: Vec<Vec<Type>>,
    /// The variables that first occur in each `Trait a b`.
    pub app_introduced: Vec<Vec<(String, u32)>>,
    /// The effects that it declares.
    pub declared: Vec<String>,
}

#[verifier::ext_equal]
pub struct ImplPartsModel {
    pub params: Seq<TypeParamModel>,
    pub target: Ty,
    pub vars: Seq<(Seq<char>, u32)>,
    pub trait_type_args: Seq<Ty>,
    pub bound_args: Seq<Seq<Seq<Ty>>>,
    pub introduced: Seq<Seq<(Seq<char>, u32)>>,
    pub app_args: Seq<Seq<Ty>>,
    pub app_introduced: Seq<Seq<(Seq<char>, u32)>>,
    pub declared: Seq<Seq<char>>,
}

impl DeepView for ImplParts {
    type V = ImplPartsModel;

    open spec fn deep_view(&self) -> ImplPartsModel {
        ImplPartsModel {
            params: self.params.deep_view(),
            target: self.target.deep_view(),
            vars: self.vars.deep_view(),
            trait_type_args: self.trait_type_args.deep_view(),
            bound_args: self.bound_args.deep_view(),
            introduced: self.introduced.deep_view(),
            app_args: self.app_args.deep_view(),
            app_introduced: self.app_introduced.deep_view(),
            declared: self.declared.deep_view(),
        }
    }
}

impl Dup for ImplParts {
    fn dup(&self) -> (r: Self) {
        ImplParts {
            params: self.params.dup(),
            target: self.target.dup(),
            vars: self.vars.dup(),
            trait_type_args: self.trait_type_args.dup(),
            bound_args: self.bound_args.dup(),
            introduced: self.introduced.dup(),
            app_args: self.app_args.dup(),
            app_introduced: self.app_introduced.dup(),
            declared: self.declared.dup(),
        }
    }
}

/// An impl whose head is checked.
pub struct ImplStart {
    /// The methods of its trait.
    pub methods: Vec<TraitMethodInfo>,
    /// What it is registered under.
    pub key: (String, Vec<String>, String),
    /// The variables that its head and its where clause speak of.
    pub vars: Vec<(String, u32)>,
    /// The constraints that the `Trait a b` of its where clause make.
    pub apps: Vec<(String, u32, Vec<Type>)>,
    /// The type variables that were in scope by their names before.
    pub outer: Table<String, u32>,
}

#[verifier::ext_equal]
pub struct ImplStartModel {
    pub methods: Seq<MethodModel>,
    pub key: (Seq<char>, Seq<Seq<char>>, Seq<char>),
    pub vars: Seq<(Seq<char>, u32)>,
    pub apps: Seq<(Seq<char>, u32, Seq<Ty>)>,
    pub outer: Seq<(Seq<char>, u32)>,
}

impl DeepView for ImplStart {
    type V = ImplStartModel;

    open spec fn deep_view(&self) -> ImplStartModel {
        ImplStartModel {
            methods: self.methods.deep_view(),
            key: self.key.deep_view(),
            vars: self.vars.deep_view(),
            apps: self.apps.deep_view(),
            outer: self.outer.order(),
        }
    }
}

impl Dup for ImplStart {
    fn dup(&self) -> (r: Self) {
        ImplStart {
            methods: self.methods.dup(),
            key: self.key.dup(),
            vars: self.vars.dup(),
            apps: self.apps.dup(),
            outer: self.outer.dup(),
        }
    }
}

/// The names of type parameters with their variables.
pub open spec fn names_with_ids(params: Seq<TypeParamModel>, ids: Seq<u32>) -> Seq<
    (Seq<char>, u32),
> {
    Seq::new(shorter(params.len(), ids.len()), |i: int| (params[i].name, ids[i]))
}

/// The state in which the bodies of an impl are checked, or the first complaint about
/// its head and its where clause. `provided` are the methods that it has. The type
/// parameters that it declares are in scope by their names.
pub open spec fn impl_begun(
    c: CheckerModel,
    h: ImplHeadModel,
    p: ImplPartsModel,
    provided: Seq<Seq<char>>,
    bounds: Seq<TraitBound>,
    apps: Seq<TraitApp>,
) -> (CheckerModel, Result<ImplStartModel, Diag>) {
    match impl_methods_checked(c, h, provided) {
        Err(e) => (c, Err(e)),
        Ok(info) => match impl_key_checked(c, h, p.target) {
            Err(e) => (c, Err(e)),
            Ok(key) => {
                let c1 = with_where_bounds(
                    c,
                    p.vars,
                    p.introduced,
                    bounds,
                    p.bound_args,
                    bounds.len(),
                );
                let vars = known_vars(p.vars, p.introduced, bounds.len());
                let checked = apps_checked(
                    c1,
                    vars,
                    p.app_introduced,
                    apps,
                    p.app_args,
                    apps.len(),
                );
                match checked.1 {
                    Err(e) => (checked.0, Err(e)),
                    Ok(constraints) => (
                        CheckerModel {
                            outer_named_type_vars: with_outer_names(
                                Seq::empty(),
                                names_with_ids(p.params, ids_of(p.vars)),
                            ),
                            ..checked.0
                        },
                        Ok(
                            ImplStartModel {
                                methods: info.methods,
                                key,
                                vars: known_vars(vars, p.app_introduced, apps.len()),
                                apps: constraints,
                                outer: checked.0.outer_named_type_vars,
                            },
                        ),
                    ),
                }
            },
        },
    }
}

/// The state with an impl whose bodies are checked, or the first complaint about its
/// constraints. `effects` are the effects of its methods.
pub open spec fn impl_registered(
    c: CheckerModel,
    h: ImplHeadModel,
    p: ImplPartsModel,
    start: ImplStartModel,
    effects: Seq<(Seq<char>, Seq<Seq<char>>)>,
    bounds: Seq<TraitBound>,
) -> (CheckerModel, Result<(), Diag>) {
    let c1 = CheckerModel { outer_named_type_vars: start.outer, ..c };
    let k = ConstraintsModel {
        by_position: Seq::empty(),
        by_var: Seq::empty(),
        with_args: start.apps,
    };
    match impl_constraints(
        c1,
        h.span,
        p.params,
        p.target,
        start.vars,
        k,
        bounds,
        p.bound_args,
        bounds.len(),
    ) {
        Err(e) => (c1, Err(e)),
        Ok(k) => (
            with_impl_info(
                c1,
                start.key,
                ImplModel {
                    param_constraints: k.by_position,
                    param_constraints_by_var: k.by_var,
                    param_constraints_by_var_with_args: k.with_args,
                    target_pattern: Some(p.target),
                    trait_type_args: p.trait_type_args,
                    target_type_param_ids: ids_of(p.vars),
                    span: Some(h.span),
                    method_effects: effects,
                },
            ),
            Ok(()),
        ),
    }
}

pub open spec fn with_impl_info(
    c: CheckerModel,
    key: (Seq<char>, Seq<Seq<char>>, Seq<char>),
    info: ImplModel,
) -> CheckerModel {
    CheckerModel {
        trait_state: TraitStateModel {
            impls: put(c.trait_state.impls, key, info),
            ..c.trait_state
        },
        ..c
    }
}

fn names_and_ids(params: &Vec<TypeParam>, vars: &Vec<(String, u32)>) -> (r: Vec<(String, u32)>)
    ensures
        r.deep_view() == names_with_ids(params.deep_view(), ids_of(vars.deep_view())),
{
    let mut out: Vec<(String, u32)> = Vec::new();
    let mut i: usize = 0;
    assert(ids_of(vars.deep_view()).len() == vars.len());
    while i < params.len() && i < vars.len()
        invariant
            i <= params.len(),
            i <= vars.len(),
            out.len() == i,
            ids_of(vars.deep_view()).len() == vars.len(),
            forall|j: int|
                0 <= j < i ==> #[trigger] out.deep_view()[j] == (
                    params.deep_view()[j].name,
                    ids_of(vars.deep_view())[j],
                ),
        decreases params.len() - i,
    {
        push_value(&mut out, (params[i].name.clone(), vars[i].1));
        i = i + 1;
    }
    assert(out.deep_view() =~= names_with_ids(params.deep_view(), ids_of(vars.deep_view())));
    out
}

/// The names of the methods of an impl.
pub open spec fn provided_names(methods: Seq<ImplMethod>) -> Seq<Seq<char>> {
    methods.map_values(|m: ImplMethod| provided_name(m))
}

pub open spec fn provided_name(m: ImplMethod) -> Seq<char> {
    m.name@
}

fn names_of_methods(v: &Vec<ImplMethod>) -> (r: Vec<String>)
    ensures
        r.deep_view() == v@.map_values(|x: ImplMethod| provided_name(x)),
{
    let mut out: Vec<String> = Vec::new();
    let mut i: usize = 0;
    while i < v.len()
        invariant
            i <= v.len(),
            out.len() == i,
            forall|j: int| 0 <= j < i ==> #[trigger] out.deep_view()[j] == provided_name(v@[j]),
        decreases v.len() - i,
    {
        push_value(&mut out, v[i].name.clone());
        i = i + 1;
    }
    assert(out.deep_view() =~= v@.map_values(|x: ImplMethod| provided_name(x)));
    out
}

/// Whether every method of an impl is one of its trait.
pub open spec fn methods_known(known: Seq<MethodModel>, methods: Seq<ImplMethod>) -> bool {
    forall|i: int|
        0 <= i < methods.len() ==> method_named(known, (#[trigger] methods[i]).name@) is Some
}

impl Checker {
    /// Checks the head and the where clause of an impl, and brings the type
    /// parameters that it declares into scope.
    pub fn begin_impl(
        &mut self,
        head: &ImplHead,
        parts: &ImplParts,
        methods: &Vec<ImplMethod>,
        where_clause: &Vec<TraitBound>,
        where_apps: &Vec<TraitApp>,
    ) -> (r: Result<ImplStart, Diagnostic>)
        requires
            args_fit(where_clause@, parts.deep_view().bound_args),
            parts.introduced.len() == where_clause.len(),
            parts.app_args.len() == where_apps.len(),
            parts.app_introduced.len() == where_apps.len(),
            apps_are_told(old(self).deep_view(), where_apps@),
        ensures
            (final(self).deep_view(), outcome(r)) == impl_begun(
                old(self).deep_view(),
                head.deep_view(),
                parts.deep_view(),
                provided_names(methods@),
                where_clause@,
                where_apps@,
            ),
            r is Ok ==> methods_known(r->Ok_0.deep_view().methods, methods@),
    {
        let provided = names_of_methods(methods);
        assert(provided.deep_view() == provided_names(methods@));
        let info = match self.check_impl_methods(head, &provided) {
            Ok(info) => info.dup(),
            Err(e) => {
                return Err(e);
            },
        };
        let key = match self.check_impl_key(head, &parts.target) {
            Ok(key) => key,
            Err(e) => {
                return Err(e);
            },
        };
        proof {
            where_bounds_keep_traits(
                self.deep_view(),
                parts.vars.deep_view(),
                parts.introduced.deep_view(),
                where_clause@,
                parts.bound_args.deep_view(),
                where_clause@.len(),
            );
        }
        let vars = self.add_where_bounds(
            &parts.vars,
            &parts.introduced,
            where_clause,
            &parts.bound_args,
        );
        proof {
            traits_tell_apps(old(self).deep_view(), self.deep_view(), where_apps@);
        }
        let (checked, vars) = self.check_where_apps(
            &vars,
            &parts.app_introduced,
            where_apps,
            &parts.app_args,
        );
        let apps = match checked {
            Ok(apps) => apps,
            Err(e) => {
                return Err(e);
            },
        };
        let outer = self.outer_named_type_vars.dup();
        let own = names_and_ids(&parts.params, &parts.vars);
        let mut named: Table<String, u32> = Table::new();
        add_outer_names(&mut named, &own);
        self.outer_named_type_vars = named;
        proof {
            assert forall|i: int| 0 <= i < methods@.len() implies method_named(
                info.deep_view().methods,
                (#[trigger] methods@[i]).name@,
            ) is Some by {
                without_extra_named(
                    info.deep_view().methods,
                    provided_names(methods@),
                    i,
                );
            }
        }
        Ok(ImplStart { methods: info.methods, key, vars, apps, outer })
    }

    /// Registers an impl whose bodies are checked, or gives back the first complaint
    /// about its constraints.
    pub fn register_impl(
        &mut self,
        head: &ImplHead,
        parts: ImplParts,
        start: ImplStart,
        effects: Table<String, Vec<String>>,
        where_clause: &Vec<TraitBound>,
    ) -> (r: Result<(), Diagnostic>)
        requires
            args_fit(where_clause@, parts.deep_view().bound_args),
        ensures
            (final(self).deep_view(), outcome(r)) == impl_registered(
                old(self).deep_view(),
                head.deep_view(),
                parts.deep_view(),
                start.deep_view(),
                effects.order(),
                where_clause@,
            ),
    {
        self.outer_named_type_vars = start.outer;
        let constraints = match self.impl_where_constraints(
            head.span,
            &parts.params,
            &parts.target,
            &start.vars,
            start.apps,
            where_clause,
            &parts.bound_args,
        ) {
            Ok(constraints) => constraints,
            Err(e) => {
                return Err(e);
            },
        };
        let ids = var_id_list(&parts.vars);
        assert(ids.deep_view() =~= ids@);
        let info = ImplInfo {
            param_constraints: constraints.by_position,
            param_constraints_by_var: constraints.by_var,
            param_constraints_by_var_with_args: constraints.with_args,
            target_pattern: Some(parts.target),
            trait_type_args: parts.trait_type_args,
            target_type_param_ids: ids,
            span: Some(head.span),
            method_effects: effects,
        };
        self.trait_state.impls.insert(start.key, info);
        Ok(())
    }
}

/// Impls do not overlap: where the head of an impl is accepted, nothing is registered
/// under its key, and its trait is defined.
pub proof fn impls_do_not_overlap(
    c: CheckerModel,
    h: ImplHeadModel,
    p: ImplPartsModel,
    provided: Seq<Seq<char>>,
    bounds: Seq<TraitBound>,
    apps: Seq<TraitApp>,
)
    requires
        impl_begun(c, h, p, provided, bounds, apps).1 is Ok,
    ensures
        ({
            let start = impl_begun(c, h, p, provided, bounds, apps).1->Ok_0;
            &&& !has_key(c.trait_state.impls, start.key)
            &&& start.key.0 == h.trait_name
            &&& start.key.1 == h.arg_names
            &&& target_key(p.target) == Some(start.key.2)
            &&& has_key(c.trait_state.traits, h.trait_name)
        }),
{
}

proof fn missing_is_none(provided: Seq<Seq<char>>, items: Seq<MethodModel>)
    ensures
        first_missing(provided, items) is None <==> forall|i: int|
            0 <= i < items.len() ==> provided.contains((#[trigger] items[i]).name),
    decreases items.len(),
{
    if items.len() > 0 {
        let init = items.drop_last();
        missing_is_none(provided, init);
        assert(forall|i: int| 0 <= i < init.len() ==> #[trigger] items[i] == init[i]);
        assert(forall|i: int| 0 <= i < init.len() ==> items[i] == #[trigger] init[i]);
        assert(items[items.len() - 1] == items.last());
    }
}

proof fn repeated_is_none(items: Seq<Seq<char>>)
    ensures
        first_repeated(items) is None <==> items.no_duplicates(),
    decreases items.len(),
{
    if items.len() > 0 {
        let init = items.drop_last();
        repeated_is_none(init);
        assert(forall|i: int| 0 <= i < init.len() ==> #[trigger] items[i] == init[i]);
        let last = items.len() - 1;
        assert(items[last] == items.last());
        if init.contains(items.last()) {
            let i = choose|i: int| 0 <= i < init.len() && init[i] == items.last();
            assert(items[i] == items[last]);
        }
        if items.no_duplicates() {
            assert(init.no_duplicates()) by {
                assert forall|i: int, j: int|
                    0 <= i < init.len() && 0 <= j < init.len() && i != j implies init[i]
                    != init[j] by {
                    assert(items[i] != items[j]);
                }
            }
        }
        if init.no_duplicates() && !init.contains(items.last()) {
            assert forall|i: int, j: int|
                0 <= i < items.len() && 0 <= j < items.len() && i != j implies items[i]
                != items[j] by {
                if i == last {
                    assert(items[j] == init[j]);
                } else if j == last {
                    assert(items[i] == init[i]);
                } else {
                    assert(init[i] != init[j]);
                }
            }
        }
    }
}

/// Whether a trait has a method of a name.
pub open spec fn has_method(methods: Seq<MethodModel>, name: Seq<char>) -> bool {
    exists|k: int| 0 <= k < methods.len() && (#[trigger] methods[k]).name == name
}

proof fn named_methods_are_there(methods: Seq<MethodModel>, name: Seq<char>)
    ensures
        method_named(methods, name) is Some <==> has_method(methods, name),
        method_named(methods, name) matches Some(m) ==> methods.contains(m) && m.name == name,
    decreases methods.len(),
{
    if methods.len() > 0 {
        let init = methods.drop_last();
        named_methods_are_there(init, name);
        assert(forall|i: int| 0 <= i < init.len() ==> #[trigger] methods[i] == init[i]);
        assert(forall|i: int| 0 <= i < init.len() ==> methods[i] == #[trigger] init[i]);
        assert(methods[methods.len() - 1] == methods.last());
        if let Some(m) = method_named(init, name) {
            let i = choose|i: int| 0 <= i < init.len() && init[i] == m;
            assert(methods[i] == m);
        }
    }
}

proof fn extra_is_none(methods: Seq<MethodModel>, items: Seq<Seq<char>>)
    ensures
        first_extra(methods, items) is None <==> forall|i: int|
            0 <= i < items.len() ==> has_method(methods, #[trigger] items[i]),
    decreases items.len(),
{
    if items.len() > 0 {
        let init = items.drop_last();
        extra_is_none(methods, init);
        named_methods_are_there(methods, items.last());
        assert(forall|i: int| 0 <= i < init.len() ==> #[trigger] items[i] == init[i]);
        assert(forall|i: int| 0 <= i < init.len() ==> items[i] == #[trigger] init[i]);
        assert(items[items.len() - 1] == items.last());
    }
}

/// The methods of an impl are accepted just where its trait is defined, has as many
/// further parameters as the impl gives arguments, and the impl provides each method of
/// the trait, none twice and no other.
pub proof fn impls_provide_just_their_methods(
    c: CheckerModel,
    h: ImplHeadModel,
    provided: Seq<Seq<char>>,
)
    ensures
        impl_methods_checked(c, h, provided) is Ok <==> {
            let info = at_key(c.trait_state.traits, h.trait_name)->0;
            &&& has_key(c.trait_state.traits, h.trait_name)
            &&& h.arg_names.len() == (if info.type_params.len() > 0 {
                info.type_params.len() - 1
            } else {
                0
            })
            &&& forall|i: int|
                0 <= i < info.methods.len() ==> provided.contains(
                    (#[trigger] info.methods[i]).name,
                )
            &&& provided.no_duplicates()
            &&& forall|i: int|
                0 <= i < provided.len() ==> has_method(info.methods, #[trigger] provided[i])
        },
        impl_methods_checked(c, h, provided) matches Ok(info) ==> at_key(
            c.trait_state.traits,
            h.trait_name,
        ) == Some(info),
{
    if let Some(info) = at_key(c.trait_state.traits, h.trait_name) {
        missing_is_none(provided, info.methods);
        repeated_is_none(provided);
        extra_is_none(info.methods, provided);
    }
}

/// An impl is refused a key just where its target is an alias, is no named type, or has
/// an impl of the trait with these arguments.
pub proof fn impl_keys_are_free(c: CheckerModel, h: ImplHeadModel, target: Ty)
    ensures
        impl_key_checked(c, h, target) is Ok <==> !has_key(c.type_aliases, h.resolved_target)
            && target is Con && !has_key(
            c.trait_state.impls,
            (h.trait_name, h.arg_names, target_key(target)->0),
        ),
        impl_key_checked(c, h, target) matches Ok(key) ==> key == (
            h.trait_name,
            h.arg_names,
            target_key(target)->0,
        ),
{
}

proof fn ambiguous_is_none(sub: Sub, candidates: Seq<(u32, Seq<Seq<char>>, Span)>)
    ensures
        first_ambiguous(sub, candidates) is None <==> forall|i: int|
            0 <= i < candidates.len() ==> !(applied(
                sub,
                Ty::Var((#[trigger] candidates[i]).0),
            ) is Var),
    decreases candidates.len(),
{
    if candidates.len() > 0 {
        let init = candidates.drop_last();
        ambiguous_is_none(sub, init);
        assert(forall|i: int| 0 <= i < init.len() ==> #[trigger] candidates[i] == init[i]);
        assert(forall|i: int| 0 <= i < init.len() ==> candidates[i] == #[trigger] init[i]);
        assert(candidates[candidates.len() - 1] == candidates.last());
    }
}

/// The body of a method is accepted just where its type is what the trait asks for, each
/// of its effects is permitted by the trait, unless that permits all, and is declared by
/// the impl, and each record whose field it reads is known. Its effects are then those
/// of the body.
pub proof fn bodies_do_what_is_permitted(
    c: CheckerModel,
    h: ImplHeadModel,
    method: MethodModel,
    declared: Seq<Seq<char>>,
    span: Span,
    body: BodyModel,
)
    ensures
        ({
            let checked = body_checked(c, h, method, declared, span, body).1;
            &&& checked is Ok <==> {
                &&& body.mismatch is None
                &&& method.effect_sig.is_open_row || forall|i: int|
                    0 <= i < body.effects.len() ==> method.effect_sig.effects.contains(
                        #[trigger] body.effects[i],
                    )
                &&& forall|i: int|
                    0 <= i < body.effects.len() ==> declared.contains(#[trigger] body.effects[i])
                &&& forall|i: int|
                    0 <= i < body.candidates.len() ==> !(applied(
                        c.sub,
                        Ty::Var((#[trigger] body.candidates[i]).0),
                    ) is Var)
            }
            &&& checked matches Ok(effects) ==> forall|e: Seq<char>| #[trigger]
                effects.contains(e) <==> body.effects.contains(e)
        }),
{
    let effects = ordered(body.effects.to_set());
    listings_have_each_name_once(body.effects);
    outside_are_some(effects, method.effect_sig.effects);
    outside_are_some(effects, declared);
    ambiguous_is_none(c.sub, body.candidates);
    listed_within(body.effects, effects, method.effect_sig.effects);
    listed_within(body.effects, effects, declared);
}

proof fn listed_within(names: Seq<Seq<char>>, listed: Seq<Seq<char>>, allowed: Seq<Seq<char>>)
    requires
        forall|x: Seq<char>| #[trigger] listed.contains(x) <==> names.contains(x),
    ensures
        (exists|i: int| 0 <= i < listed.len() && !allowed.contains(#[trigger] listed[i]))
            <==> !forall|i: int| 0 <= i < names.len() ==> allowed.contains(#[trigger] names[i]),
{
    if exists|i: int| 0 <= i < listed.len() && !allowed.contains(#[trigger] listed[i]) {
        let i = choose|i: int| 0 <= i < listed.len() && !allowed.contains(#[trigger] listed[i]);
        assert(listed.contains(listed[i]));
        let j = choose|j: int| 0 <= j < names.len() && names[j] == listed[i];
        assert(!allowed.contains(names[j]));
    }
    if !forall|i: int| 0 <= i < names.len() ==> allowed.contains(#[trigger] names[i]) {
        let j = choose|j: int| 0 <= j < names.len() && !allowed.contains(#[trigger] names[j]);
        assert(names.contains(names[j]));
        assert(listed.contains(names[j]));
        let i = choose|i: int| 0 <= i < listed.len() && listed[i] == names[j];
        assert(!allowed.contains(listed[i]));
    }
}

/// Whether one of the first `n` traits of a bound is a trait without arguments.
pub open spec fn has_plain_trait(
    c: CheckerModel,
    traits: Seq<TraitRef>,
    n: nat,
    name: Seq<char>,
) -> bool {
    exists|j: int|
        0 <= j < n && (#[trigger] traits[j]).type_args@.len() == 0 && trait_at(c, traits[j]) == name
}

/// Whether one of the first `n` traits of a bound is a trait with some arguments.
pub open spec fn has_trait_with(
    c: CheckerModel,
    traits: Seq<TraitRef>,
    args: Seq<Seq<Ty>>,
    n: nat,
    name: Seq<char>,
    with: Seq<Ty>,
) -> bool {
    exists|j: int|
        0 <= j < n && (#[trigger] traits[j]).type_args@.len() > 0 && trait_at(c, traits[j]) == name
            && args[j] == with
}

proof fn bounds_become_constraints(
    c: CheckerModel,
    target: Ty,
    id: u32,
    k: ConstraintsModel,
    traits: Seq<TraitRef>,
    args: Seq<Seq<Ty>>,
    n: nat,
)
    requires
        n <= traits.len(),
    ensures
        ({
            let after = with_impl_bound(c, target, id, k, traits, args, n);
            &&& forall|e: (Seq<char>, u32)| #[trigger]
                after.by_var.contains(e) <==> k.by_var.contains(e) || e.1 == id && has_plain_trait(
                    c,
                    traits,
                    n,
                    e.0,
                )
            &&& forall|e: (Seq<char>, u32, Seq<Ty>)| #[trigger]
                after.with_args.contains(e) <==> k.with_args.contains(e) || e.1 == id
                    && has_trait_with(c, traits, args, n, e.0, e.2)
            &&& forall|e: (Seq<char>, usize)| #[trigger]
                after.by_position.contains(e) <==> k.by_position.contains(e)
                    || direct_var_position(target, id) == Some(e.1) && has_plain_trait(
                    c,
                    traits,
                    n,
                    e.0,
                )
        }),
    decreases n,
{
    if n > 0 {
        let n1 = (n - 1) as nat;
        bounds_become_constraints(c, target, id, k, traits, args, n1);
        let before = with_impl_bound(c, target, id, k, traits, args, n1);
        let after = with_impl_bound(c, target, id, k, traits, args, n);
        let t = traits[n - 1];
        let name = trait_at(c, t);
        assert forall|e: (Seq<char>, u32)| #[trigger]
            after.by_var.contains(e) <==> k.by_var.contains(e) || e.1 == id && has_plain_trait(
                c,
                traits,
                n,
                e.0,
            ) by {
            push_contains(before.by_var, (name, id), e);
            assert(before.by_var.contains(e) <==> k.by_var.contains(e) || e.1 == id
                && has_plain_trait(c, traits, n1, e.0));
            if t.type_args@.len() == 0 && e.0 == name {
                assert(trait_at(c, traits[n - 1]) == e.0);
            }
        }
        assert forall|e: (Seq<char>, u32, Seq<Ty>)| #[trigger]
            after.with_args.contains(e) <==> k.with_args.contains(e) || e.1 == id
                && has_trait_with(c, traits, args, n, e.0, e.2) by {
            push_contains(before.with_args, (name, id, args[n - 1]), e);
            assert(before.with_args.contains(e) <==> k.with_args.contains(e) || e.1 == id
                && has_trait_with(c, traits, args, n1, e.0, e.2));
            if t.type_args@.len() > 0 && e.0 == name {
                assert(trait_at(c, traits[n - 1]) == e.0);
            }
        }
        assert forall|e: (Seq<char>, usize)| #[trigger]
            after.by_position.contains(e) <==> k.by_position.contains(e) || direct_var_position(
                target,
                id,
            ) == Some(e.1) && has_plain_trait(c, traits, n, e.0) by {
            if let Some(at) = direct_var_position(target, id) {
                push_contains(before.by_position, (name, at), e);
            }
            assert(before.by_position.contains(e) <==> k.by_position.contains(e)
                || direct_var_position(target, id) == Some(e.1) && has_plain_trait(
                c,
                traits,
                n1,
                e.0,
            ));
            if t.type_args@.len() == 0 && e.0 == name {
                assert(trait_at(c, traits[n - 1]) == e.0);
            }
        }
    }
}

/// The where clause of an impl becomes its constraints: just the traits that its bounds
/// name are needed of the variables that they are on. A bound on a variable that the
/// impl does not speak of is refused, and no other.
pub proof fn where_clauses_become_constraints(
    c: CheckerModel,
    span: Span,
    params: Seq<TypeParamModel>,
    target: Ty,
    vars: Seq<(Seq<char>, u32)>,
    k: ConstraintsModel,
    bounds: Seq<TraitBound>,
    args: Seq<Seq<Seq<Ty>>>,
    n: nat,
)
    requires
        n <= bounds.len(),
    ensures
        ({
            let r = impl_constraints(c, span, params, target, vars, k, bounds, args, n);
            &&& r is Ok <==> forall|i: int|
                0 <= i < n ==> first_at(vars, (#[trigger] bounds[i]).type_var@) is Some
            &&& r matches Ok(after) ==> {
                &&& forall|e: (Seq<char>, u32)| #[trigger]
                    after.by_var.contains(e) <==> k.by_var.contains(e) || exists|i: int|
                        0 <= i < n && first_at(vars, (#[trigger] bounds[i]).type_var@) == Some(e.1)
                            && has_plain_trait(
                            c,
                            bounds[i].traits@,
                            bounds[i].traits@.len(),
                            e.0,
                        )
                &&& forall|e: (Seq<char>, u32, Seq<Ty>)| #[trigger]
                    after.with_args.contains(e) <==> k.with_args.contains(e) || exists|i: int|
                        0 <= i < n && first_at(vars, (#[trigger] bounds[i]).type_var@) == Some(e.1)
                            && has_trait_with(
                            c,
                            bounds[i].traits@,
                            args[i],
                            bounds[i].traits@.len(),
                            e.0,
                            e.2,
                        )
            }
        }),
    decreases n,
{
    if n > 0 {
        let n1 = (n - 1) as nat;
        where_clauses_become_constraints(c, span, params, target, vars, k, bounds, args, n1);
        let b = bounds[n - 1];
        match impl_constraints(c, span, params, target, vars, k, bounds, args, n1) {
            Ok(before) => {
                if let Some(id) = first_at(vars, b.type_var@) {
                    bounds_become_constraints(
                        c,
                        target,
                        id,
                        before,
                        b.traits@,
                        args[n - 1],
                        b.traits@.len(),
                    );
                } else {
                    assert(first_at(vars, bounds[n - 1].type_var@) is None);
                }
            },
            Err(_) => {},
        }
    }
}

/// A registered impl is found under its key, with the target as its pattern, the
/// arguments of its trait and the constraints of its where clause. No other impl
/// changes.
pub proof fn registered_impls_are_found(
    c: CheckerModel,
    h: ImplHeadModel,
    p: ImplPartsModel,
    start: ImplStartModel,
    effects: Seq<(Seq<char>, Seq<Seq<char>>)>,
    bounds: Seq<TraitBound>,
    other: (Seq<char>, Seq<Seq<char>>, Seq<char>),
)
    requires
        distinct_keys(c.trait_state.impls),
        impl_registered(c, h, p, start, effects, bounds).1 is Ok,
    ensures
        ({
            let after = impl_registered(c, h, p, start, effects, bounds).0;
            let found = at_key(after.trait_state.impls, start.key);
            let info = found->0;
            &&& found is Some
            &&& info.target_pattern == Some(p.target)
            &&& info.trait_type_args == p.trait_type_args
            &&& info.span == Some(h.span)
            &&& info.method_effects == effects
            &&& info.target_type_param_ids.len() == p.vars.len()
            &&& forall|i: int|
                0 <= i < p.vars.len() ==> #[trigger] info.target_type_param_ids[i] == p.vars[i].1
            &&& forall|e: (Seq<char>, u32)| #[trigger]
                info.param_constraints_by_var.contains(e) <==> exists|i: int|
                    0 <= i < bounds.len() && first_at(
                        start.vars,
                        (#[trigger] bounds[i]).type_var@,
                    ) == Some(e.1) && has_plain_trait(
                        c,
                        bounds[i].traits@,
                        bounds[i].traits@.len(),
                        e.0,
                    )
            &&& forall|e: (Seq<char>, u32, Seq<Ty>)| #[trigger]
                info.param_constraints_by_var_with_args.contains(e) <==> start.apps.contains(e)
                    || exists|i: int|
                    0 <= i < bounds.len() && first_at(
                        start.vars,
                        (#[trigger] bounds[i]).type_var@,
                    ) == Some(e.1) && has_trait_with(
                        c,
                        bounds[i].traits@,
                        p.bound_args[i],
                        bounds[i].traits@.len(),
                        e.0,
                        e.2,
                    )
            &&& other != start.key ==> at_key(after.trait_state.impls, other) == at_key(
                c.trait_state.impls,
                other,
            )
            &&& after.outer_named_type_vars == start.outer
        }),
{
    let c1 = CheckerModel { outer_named_type_vars: start.outer, ..c };
    let k = ConstraintsModel {
        by_position: Seq::empty(),
        by_var: Seq::empty(),
        with_args: start.apps,
    };
    where_clauses_become_constraints(
        c1,
        h.span,
        p.params,
        p.target,
        start.vars,
        k,
        bounds,
        p.bound_args,
        bounds.len(),
    );
    let after = impl_registered(c, h, p, start, effects, bounds).0;
    let r = impl_constraints(
        c1,
        h.span,
        p.params,
        p.target,
        start.vars,
        k,
        bounds,
        p.bound_args,
        bounds.len(),
    )->Ok_0;
    let own = ImplModel {
        param_constraints: r.by_position,
        param_constraints_by_var: r.by_var,
        param_constraints_by_var_with_args: r.with_args,
        target_pattern: Some(p.target),
        trait_type_args: p.trait_type_args,
        target_type_param_ids: ids_of(p.vars),
        span: Some(h.span),
        method_effects: effects,
    };
    assert(after.trait_state.impls == put(c.trait_state.impls, start.key, own));
    put_then_get(c.trait_state.impls, start.key, own, start.key);
    put_then_get(c.trait_state.impls, start.key, own, other);
    assert forall|name: Seq<char>, i: int|
        0 <= i < bounds.len() implies #[trigger] has_plain_trait(
        c1,
        bounds[i].traits@,
        bounds[i].traits@.len(),
        name,
    ) == has_plain_trait(c, bounds[i].traits@, bounds[i].traits@.len(), name) by {
        same_plain_traits(c, c1, bounds[i].traits@, bounds[i].traits@.len(), name);
    }
    assert forall|name: Seq<char>, with: Seq<Ty>, i: int|
        0 <= i < bounds.len() implies #[trigger] has_trait_with(
        c1,
        bounds[i].traits@,
        p.bound_args[i],
        bounds[i].traits@.len(),
        name,
        with,
    ) == has_trait_with(
        c,
        bounds[i].traits@,
        p.bound_args[i],
        bounds[i].traits@.len(),
        name,
        with,
    ) by {
        same_traits_with(
            c,
            c1,
            bounds[i].traits@,
            p.bound_args[i],
            bounds[i].traits@.len(),
            name,
            with,
        );
    }
    assert forall|e: (Seq<char>, u32)| #[trigger]
        own.param_constraints_by_var.contains(e) <==> exists|i: int|
            0 <= i < bounds.len() && first_at(start.vars, (#[trigger] bounds[i]).type_var@) == Some(
                e.1,
            ) && has_plain_trait(c, bounds[i].traits@, bounds[i].traits@.len(), e.0) by {
        assert(!k.by_var.contains(e));
        assert(r.by_var.contains(e) <==> exists|i: int|
            0 <= i < bounds.len() && first_at(start.vars, (#[trigger] bounds[i]).type_var@) == Some(
                e.1,
            ) && has_plain_trait(c1, bounds[i].traits@, bounds[i].traits@.len(), e.0));
    }
}

proof fn same_plain_traits(
    c: CheckerModel,
    other: CheckerModel,
    traits: Seq<TraitRef>,
    n: nat,
    name: Seq<char>,
)
    requires
        other.resolution == c.resolution,
    ensures
        has_plain_trait(other, traits, n, name) == has_plain_trait(c, traits, n, name),
{
    assert(forall|t: TraitRef| trait_at(other, t) == #[trigger] trait_at(c, t));
}

proof fn same_traits_with(
    c: CheckerModel,
    other: CheckerModel,
    traits: Seq<TraitRef>,
    args: Seq<Seq<Ty>>,
    n: nat,
    name: Seq<char>,
    with: Seq<Ty>,
)
    requires
        other.resolution == c.resolution,
    ensures
        has_trait_with(other, traits, args, n, name, with) == has_trait_with(
            c,
            traits,
            args,
            n,
            name,
            with,
        ),
{
    assert(forall|t: TraitRef| trait_at(other, t) == #[trigger] trait_at(c, t));
}

} // verus!
