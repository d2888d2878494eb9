//! Registering handlers.
//!
//! A handler is begun with [`Checker::begin_handler`]; then its bodies are checked, as
//! [`crate::arm_run`] says; then [`Checker::register_handler`] registers it.

use vstd::prelude::*;
use crate::ast::{EffectRef, HandlerArm, HandlerBody, NodeId, TraitBound, TraitRef, TypeExpr};
use crate::bounds::{know_trait, known_traits, trait_at, with_known_trait};
use crate::checker::{resolved_name, Checker, CheckerModel, LspModel, TraitStateModel};
use crate::codegen_info::{find_op, sig_named};
use crate::diagnostics::{an_error_at, Diag, Diagnostic};
use crate::effect_ops::{replace_in_constraints, replaced_constraint};
use crate::effects::{canonical_effect, effect_named};
use crate::exports::first_at;
use crate::fun_types::find_var;
use crate::import_scope::{op_name_of, op_names};
use crate::impl_methods::shorter;
use crate::impls::{find_names_outside, names_outside};
use crate::infos::{EffectModel, EffectOpSig, HandlerInfo, HandlerModel, OpModel};
use crate::names::{canonical_type_name, canonicalize_type_name};
use crate::schemes::{EnvModel, Scheme, SchemeModel};
use crate::signatures::{complaints_fit, take_for_granted, with_assumptions};
use crate::seqs::{add_new, add_new_contains};
use crate::sorting::{ordered, ordered_is, ordered_set};
use crate::subst::{acyclic, applied};
use crate::supertraits::trait_or_self;
use crate::table::{at_key, distinct_keys, has_key, put, put_then_get, Table};
use crate::text::{concat3, concat4, concat5, dot_join, dotted, join_text, joined};
use crate::token::Span;
use crate::type_vars::{
    collect_free_vars, free_vars_in_types, replace_vars, replace_vars_in_fields, replaced,
    replaced_all, replaced_fields, replaced_vars_are_gone, vars_of, vars_of_all, with_free,
};
use crate::types::{EffectEntry, EffectRow, Entry, Row, Ty, Type, group_type_models};
use crate::values::{outcome, push_value, Dup};

verus! {

/// A handler, its types converted.
pub struct HandlerParts {
    pub name: String,
    pub id: NodeId,
    pub name_span: Span,
    pub span: Span,
    /// The arguments of the effects that it handles, over its own variables.
    pub type_args: Vec<Vec<Type>>,
    /// The variables that they speak of.
    pub vars: Vec<(String, u32)>,
    /// What is wrong with the kinds of the variables of its where clause.
    pub complaints: Vec<Vec<Option<Diagnostic>>>,
    /// The arguments of the effects as they stand in the type of the handler.
    pub plain_args: Vec<Vec<Type>>,
}

#[verifier::ext_equal]
pub struct HandlerPartsModel {
    pub name: Seq<char>,
    pub id: NodeId,
    pub name_span: Span,
    pub span: Span,
    pub type_args: Seq<Seq<Ty>>,
    pub vars: Seq<(Seq<char>, u32)>,
    pub complaints: Seq<Seq<Option<Diag>>>,
    pub plain_args: Seq<Seq<Ty>>,
}

impl DeepView for HandlerParts {
    type V = HandlerPartsModel;

    open spec fn deep_view(&self) -> HandlerPartsModel {
        HandlerPartsModel {
            name: self.name.deep_view(),
            id: self.id.deep_view(),
            name_span: self.name_span.deep_view(),
            span: self.span.deep_view(),
            type_args: self.type_args.deep_view(),
            vars: self.vars.deep_view(),
            complaints: self.complaints.deep_view(),
            plain_args: self.plain_args.deep_view(),
        }
    }
}

impl Dup for HandlerParts {
    fn dup(&self) -> (r: Self) {
        HandlerParts {
            name: self.name.dup(),
            id: self.id.dup(),
            name_span: self.name_span.dup(),
            span: self.span.dup(),
            type_args: self.type_args.dup(),
            vars: self.vars.dup(),
            complaints: self.complaints.dup(),
            plain_args: self.plain_args.dup(),
        }
    }
}

/// What checking the bodies of a handler came to.
pub struct HandlerRun {
    /// What the parameters of the effects stand for.
    pub mapping: Table<u32, Type>,
    /// The variable of its answer.
    pub answer: u32,
    /// Where its arms stand.
    pub arm_spans: Table<String, Span>,
    /// The variable of the parameter of its return clause, and the type of that
    /// clause.
    pub returned: Option<(u32, Type)>,
    /// The effects of its bodies.
    pub effects: EffectRow,
    /// The type variables that were in scope by their names before.
    pub outer: Table<String, u32>,
}

#[verifier::ext_equal]
pub struct HandlerRunModel {
    pub mapping: Map<u32, Ty>,
    pub answer: u32,
    pub arm_spans: Seq<(Seq<char>, Span)>,
    pub returned: Option<(u32, Ty)>,
    pub effects: Row,
    pub outer: Seq<(Seq<char>, u32)>,
}

impl DeepView for HandlerRun {
    type V = HandlerRunModel;

    open spec fn deep_view(&self) -> HandlerRunModel {
        HandlerRunModel {
            mapping: self.mapping.deep_view(),
            answer: self.answer.deep_view(),
            arm_spans: self.arm_spans.order(),
            returned: self.returned.deep_view(),
            effects: self.effects.deep_view(),
            outer: self.outer.order(),
        }
    }
}

impl Dup for HandlerRun {
    fn dup(&self) -> (r: Self) {
        HandlerRun {
            mapping: self.mapping.dup(),
            answer: self.answer.dup(),
            arm_spans: self.arm_spans.dup(),
            returned: self.returned.dup(),
            effects: self.effects.dup(),
            outer: self.outer.dup(),
        }
    }
}

/// The first `n` parameters of an effect bound to arguments.
pub open spec fn args_bound(m: Map<u32, Ty>, params: Seq<u32>, args: Seq<Ty>, n: nat) -> Map<
    u32,
    Ty,
>
    decreases n,
{
    if n == 0 {
        m
    } else {
        args_bound(m, params, args, (n - 1) as nat).insert(params[n - 1], args[n - 1])
    }
}

/// Binds the parameters of an effect to arguments.
pub fn bind_args(m: &mut Table<u32, Type>, params: &Vec<u32>, args: &Vec<Type>)
    ensures
        final(m).deep_view() == args_bound(
            old(m).deep_view(),
            params@,
            args.deep_view(),
            shorter(params@.len(), args.deep_view().len()),
        ),
{
    let ghost m0 = m.deep_view();
    let ghost all = args.deep_view();
    let mut i: usize = 0;
    while i < params.len() && i < args.len()
        invariant
            i <= params.len(),
            i <= args.len(),
            all == args.deep_view(),
            m.deep_view() == args_bound(m0, params@, all, i as nat),
        decreases params.len() - i,
    {
        assert(all[i as int] == args@[i as int]@);
        m.insert(params[i], args[i].dup());
        i = i + 1;
    }
    assert(i == shorter(params@.len(), all.len()));
}

/// The parameters of the first `n` effects of a handler bound to arguments. Effects
/// that are not defined are complained about.
pub open spec fn effects_bound(
    c: CheckerModel,
    refs: Seq<EffectRef>,
    args: Seq<Seq<Ty>>,
    n: nat,
) -> (
    CheckerModel,
    Map<u32, Ty>,
)
    decreases n,
{
    if n == 0 {
        (c, Map::empty())
    } else {
        let before = effects_bound(c, refs, args, (n - 1) as nat);
        let e = refs[n - 1];
        match at_key(c.effects, resolved_name(c.resolution.effect_refs, e.id, e.name@)) {
            Some(info) => (
                before.0,
                args_bound(
                    before.1,
                    info.type_params,
                    args[n - 1],
                    shorter(info.type_params.len(), args[n - 1].len()),
                ),
            ),
            None => (
                with_diagnostic(
                    before.0,
                    an_error_at(e.span, "undefined effect: "@ + e.name@),
                ),
                before.1,
            ),
        }
    }
}

pub open spec fn with_diagnostic(c: CheckerModel, d: Diag) -> CheckerModel {
    CheckerModel { collected_diagnostics: c.collected_diagnostics.push(d), ..c }
}

proof fn effects_bound_keep(c: CheckerModel, refs: Seq<EffectRef>, args: Seq<Seq<Ty>>, n: nat)
    ensures
        effects_bound(c, refs, args, n).0 == (CheckerModel {
            collected_diagnostics: effects_bound(c, refs, args, n).0.collected_diagnostics,
            ..c
        }),
    decreases n,
{
    if n > 0 {
        effects_bound_keep(c, refs, args, (n - 1) as nat);
    }
}

/// The state with a trait of a bound of a handler.
pub open spec fn with_handler_trait(
    c: CheckerModel,
    id: u32,
    t: TraitRef,
    complaint: Option<Diag>,
) -> CheckerModel {
    let name = trait_at(c, t);
    CheckerModel {
        collected_diagnostics: match complaint {
            Some(d) => c.collected_diagnostics.push(d),
            None => c.collected_diagnostics,
        },
        lsp: LspModel { type_references: c.lsp.type_references.push((t.span, name)), ..c.lsp },
        trait_state: TraitStateModel {
            where_bounds: with_known_trait(c.trait_state.where_bounds, id, name),
            ..c.trait_state
        },
        ..c
    }
}

pub open spec fn with_handler_traits(
    c: CheckerModel,
    id: u32,
    traits: Seq<TraitRef>,
    complaints: Seq<Option<Diag>>,
    n: nat,
) -> CheckerModel
    decreases n,
{
    if n == 0 {
        c
    } else {
        with_handler_trait(
            with_handler_traits(c, id, traits, complaints, (n - 1) as nat),
            id,
            traits[n - 1],
            complaints[n - 1],
        )
    }
}

/// The state with the first `n` bounds of a handler.
pub open spec fn with_handler_bounds(
    c: CheckerModel,
    p: HandlerPartsModel,
    bounds: Seq<TraitBound>,
    n: nat,
) -> CheckerModel
    decreases n,
{
    if n == 0 {
        c
    } else {
        let before = with_handler_bounds(c, p, bounds, (n - 1) as nat);
        let b = bounds[n - 1];
        match first_at(p.vars, b.type_var@) {
            Some(id) => with_handler_traits(
                crate::signatures::with_var_name(before, id, b.type_var@),
                id,
                b.traits@,
                p.complaints[n - 1],
                b.traits@.len(),
            ),
            None => with_diagnostic(
                before,
                an_error_at(
                    p.span,
                    "where clause references unknown type variable '"@ + b.type_var@
                        + "' in handler '"@ + p.name + "'"@,
                ),
            ),
        }
    }
}

pub open spec fn with_outer_name(outer: Seq<(Seq<char>, u32)>, v: (Seq<char>, u32)) -> Seq<
    (Seq<char>, u32),
> {
    put(outer, v.0, v.1)
}

/// Type variables in scope, with more of them.
pub open spec fn with_outer_names(
    acc: Seq<(Seq<char>, u32)>,
    items: Seq<(Seq<char>, u32)>,
) -> Seq<(Seq<char>, u32)>
    decreases items.len(),
{
    if items.len() == 0 {
        acc
    } else {
        with_outer_name(with_outer_names(acc, items.drop_last()), items.last())
    }
}

/// Brings type variables into scope.
pub fn add_outer_names(acc: &mut Table<String, u32>, items: &Vec<(String, u32)>)
    ensures
        final(acc).order() == with_outer_names(old(acc).order(), items.deep_view()),
{
    let ghost a0 = acc.order();
    let ghost all = items.deep_view();
    let mut i: usize = 0;
    assert(all.take(0) =~= Seq::empty());
    while i < items.len()
        invariant
            i <= items.len(),
            all == items.deep_view(),
            acc.order() == with_outer_names(a0, all.take(i as int)),
        decreases items.len() - i,
    {
        proof {
            assert(all.take(i + 1).drop_last() =~= all.take(i as int));
            assert(all.take(i + 1).last() == all[i as int]);
        }
        acc.insert(items[i].0.clone(), items[i].1);
        i = i + 1;
    }
    assert(all.take(i as int) =~= all);
}

/// The state in which the bodies of a handler are checked, what the parameters of
/// its effects stand for, and the variable of its answer.
pub open spec fn handler_begun(c: CheckerModel, p: HandlerPartsModel, body: HandlerBody) -> (
    CheckerModel,
    Map<u32, Ty>,
    u32,
) {
    let mapped = effects_bound(c, body.effects@, p.type_args, body.effects@.len());
    let c1 = with_handler_bounds(mapped.0, p, body.where_clause@, body.where_clause@.len());
    (
        CheckerModel {
            outer_named_type_vars: with_outer_names(c1.outer_named_type_vars, p.vars),
            next_var: (c1.next_var + 1) as u32,
            ..c1
        },
        mapped.1,
        c1.next_var,
    )
}

proof fn handler_bounds_keep(
    c: CheckerModel,
    p: HandlerPartsModel,
    bounds: Seq<TraitBound>,
    n: nat,
)
    ensures
        with_handler_bounds(c, p, bounds, n).next_var == c.next_var,
        with_handler_bounds(c, p, bounds, n).resolution == c.resolution,
    decreases n,
{
    if n > 0 {
        handler_bounds_keep(c, p, bounds, (n - 1) as nat);
        let before = with_handler_bounds(c, p, bounds, (n - 1) as nat);
        let b = bounds[n - 1];
        if let Some(id) = first_at(p.vars, b.type_var@) {
            handler_traits_keep(
                crate::signatures::with_var_name(before, id, b.type_var@),
                id,
                b.traits@,
                p.complaints[n - 1],
                b.traits@.len(),
            );
        }
    }
}

proof fn handler_traits_keep(
    c: CheckerModel,
    id: u32,
    traits: Seq<TraitRef>,
    complaints: Seq<Option<Diag>>,
    n: nat,
)
    ensures
        with_handler_traits(c, id, traits, complaints, n).next_var == c.next_var,
        with_handler_traits(c, id, traits, complaints, n).resolution == c.resolution,
    decreases n,
{
    if n > 0 {
        handler_traits_keep(c, id, traits, complaints, (n - 1) as nat);
    }
}

impl Checker {
    fn bind_effects(
        &mut self,
        refs: &Vec<EffectRef>,
        args: &Vec<Vec<Type>>,
    ) -> (r: Table<u32, Type>)
        requires
            args.len() == refs.len(),
        ensures
            (final(self).deep_view(), r.deep_view()) == effects_bound(
                old(self).deep_view(),
                refs@,
                args.deep_view(),
                refs@.len(),
            ),
    {
        let ghost c0 = self.deep_view();
        let ghost all = args.deep_view();
        let mut out: Table<u32, Type> = Table::new();
        let mut i: usize = 0;
        while i < refs.len()
            invariant
                i <= refs.len(),
                args.len() == refs.len(),
                all == args.deep_view(),
                (self.deep_view(), out.deep_view()) == effects_bound(c0, refs@, all, i as nat),
            decreases refs.len() - i,
        {
            proof {
                effects_bound_keep(c0, refs@, all, i as nat);
                assert(all[i as int] == args@[i as int].deep_view());
            }
            let e = &refs[i];
            let name = self.resolved_effect_name(e.id, e.name.as_str());
            match self.effects.get(&name) {
                Some(info) => {
                    assert(info.type_params.deep_view() =~= info.type_params@);
                    bind_args(&mut out, &info.type_params, &args[i]);
                },
                None => {
                    push_value(
                        &mut self.collected_diagnostics,
                        Diagnostic::error_at(
                            e.span,
                            crate::text::concat("undefined effect: ", e.name.as_str()),
                        ),
                    );
                },
            }
            i = i + 1;
        }
        out
    }

    fn add_handler_traits(
        &mut self,
        id: u32,
        traits: &Vec<TraitRef>,
        complaints: &Vec<Option<Diagnostic>>,
    )
        requires
            complaints.len() == traits.len(),
        ensures
            final(self).deep_view() == with_handler_traits(
                old(self).deep_view(),
                id,
                traits@,
                complaints.deep_view(),
                traits@.len(),
            ),
    {
        let ghost c0 = self.deep_view();
        let mut i: usize = 0;
        while i < traits.len()
            invariant
                i <= traits.len(),
                complaints.len() == traits.len(),
                self.deep_view() == with_handler_traits(
                    c0,
                    id,
                    traits@,
                    complaints.deep_view(),
                    i as nat,
                ),
            decreases traits.len() - i,
        {
            assert(complaints.deep_view()[i as int] == complaints@[i as int].deep_view());
            let t = &traits[i];
            let name = self.resolved_trait_name_at(t.id, t.name.as_str());
            if let Some(d) = &complaints[i] {
                push_value(&mut self.collected_diagnostics, d.dup());
            }
            push_value(&mut self.lsp.type_references, (t.span, name.clone()));
            know_trait(&mut self.trait_state.where_bounds, id, name);
            i = i + 1;
        }
    }

    fn add_handler_bounds(&mut self, parts: &HandlerParts, bounds: &Vec<TraitBound>)
        requires
            complaints_fit(bounds@, parts.deep_view().complaints),
        ensures
            final(self).deep_view() == with_handler_bounds(
                old(self).deep_view(),
                parts.deep_view(),
                bounds@,
                bounds@.len(),
            ),
    {
        let ghost c0 = self.deep_view();
        let ghost p = parts.deep_view();
        let mut i: usize = 0;
        while i < bounds.len()
            invariant
                i <= bounds.len(),
                p == parts.deep_view(),
                complaints_fit(bounds@, p.complaints),
                self.deep_view() == with_handler_bounds(c0, p, bounds@, i as nat),
            decreases bounds.len() - i,
        {
            assert(p.complaints.len() == parts.complaints.len());
            assert(p.complaints[i as int] == parts.complaints@[i as int].deep_view());
            let b = &bounds[i];
            match find_var(&parts.vars, b.type_var.as_str()) {
                Some(id) => {
                    self.trait_state.where_bound_var_names.insert(id, b.type_var.clone());
                    self.add_handler_traits(id, &b.traits, &parts.complaints[i]);
                },
                None => {
                    let message = concat5(
                        "where clause references unknown type variable '",
                        b.type_var.as_str(),
                        "' in handler '",
                        parts.name.as_str(),
                        "'",
                    );
                    push_value(
                        &mut self.collected_diagnostics,
                        Diagnostic::error_at(parts.span, message),
                    );
                },
            }
            i = i + 1;
        }
    }

    /// Begins a handler: binds the parameters of its effects, records its bounds and
    /// brings its type variables into scope. Gives back what the parameters of the
    /// effects stand for, and the variable of its answer.
    pub fn begin_handler(&mut self, parts: &HandlerParts, body: &HandlerBody) -> (r: (
        Table<u32, Type>,
        u32,
    ))
        requires
            parts.type_args.len() == body.effects.len(),
            complaints_fit(body.where_clause@, parts.deep_view().complaints),
            old(self).next_var < u32::MAX,
        ensures
            (final(self).deep_view(), r.0.deep_view(), r.1) == handler_begun(
                old(self).deep_view(),
                parts.deep_view(),
                *body,
            ),
    {
        let ghost c0 = self.deep_view();
        let ghost p = parts.deep_view();
        let mapping = self.bind_effects(&body.effects, &parts.type_args);
        proof {
            effects_bound_keep(c0, body.effects@, p.type_args, body.effects@.len());
            handler_bounds_keep(self.deep_view(), p, body.where_clause@, body.where_clause@.len());
        }
        self.add_handler_bounds(parts, &body.where_clause);
        add_outer_names(&mut self.outer_named_type_vars, &parts.vars);
        let answer = self.fresh_var();
        (mapping, answer)
    }

    /// Takes the bounds of an operation for granted, as the arm that handles it may.
    pub fn add_op_constraint_where_bounds(&mut self, constraints: &Vec<(String, u32, Vec<Type>)>)
        ensures
            final(self).deep_view() == (CheckerModel {
                trait_state: with_assumptions(
                    old(self).deep_view().trait_state,
                    constraints.deep_view(),
                ),
                ..old(self).deep_view()
            }),
    {
        take_for_granted(&mut self.trait_state, constraints);
    }
}

/// An operation as a handler has it, the parameters of the effect bound.
pub open spec fn specialized(op: OpModel, m: Map<u32, Ty>) -> OpModel {
    OpModel {
        params: replaced_fields(op.params, m),
        return_type: replaced(op.return_type, m),
        constraints: op.constraints.map_values(
            |k: (Seq<char>, u32, Seq<Ty>)| replaced_constraint(m, k),
        ),
        ..op
    }
}

fn specialize(op: &EffectOpSig, m: &Table<u32, Type>) -> (r: EffectOpSig)
    ensures
        r.deep_view() == specialized(op.deep_view(), m.deep_view()),
{
    EffectOpSig {
        name: op.name.clone(),
        effect_name: op.effect_name.clone(),
        params: replace_vars_in_fields(&op.params, m),
        return_type: replace_vars(&op.return_type, m),
        needs: op.needs.dup(),
        constraints: replace_in_constraints(m, &op.constraints),
    }
}

/// The operation that an arm handles, of the first `n` effects of the handler, with
/// the state and the places of arms after that. It must be an operation of one of
/// them only.
pub open spec fn arm_op(
    c: CheckerModel,
    m: Map<u32, Ty>,
    spans: Seq<(Seq<char>, Span)>,
    refs: Seq<EffectRef>,
    name: Seq<char>,
    span: Span,
    n: nat,
) -> (CheckerModel, Seq<(Seq<char>, Span)>, Result<Option<OpModel>, Diag>)
    decreases n,
{
    if n == 0 {
        (c, spans, Ok(None))
    } else {
        let before = arm_op(c, m, spans, refs, name, span, (n - 1) as nat);
        match before.2 {
            Err(e) => before,
            Ok(found) => {
                let e = refs[n - 1];
                match at_key(c.effects, resolved_name(c.resolution.effect_refs, e.id, e.name@)) {
                    None => before,
                    Some(info) => match sig_named(info.ops, name) {
                        None => before,
                        Some(op) => if found is Some {
                            (
                                before.0,
                                before.1,
                                Err(
                                    an_error_at(
                                        span,
                                        "ambiguous handler arm '"@ + name
                                            + "': operation exists in multiple effects"@,
                                    ),
                                ),
                            )
                        } else {
                            (
                                with_arm_target(before.0, info, name, span),
                                put(before.1, name, span),
                                Ok(Some(specialized(op, m))),
                            )
                        },
                    },
                }
            },
        }
    }
}

/// The state with the place of the operation that an arm handles.
pub open spec fn with_arm_target(
    c: CheckerModel,
    info: EffectModel,
    name: Seq<char>,
    span: Span,
) -> CheckerModel {
    match at_key(info.op_spans, name) {
        Some(at) => CheckerModel {
            lsp: LspModel {
                handler_arm_targets: put(
                    c.lsp.handler_arm_targets,
                    span,
                    (at, info.source_module),
                ),
                ..c.lsp
            },
            ..c
        },
        None => c,
    }
}

proof fn arm_op_keeps(
    c: CheckerModel,
    m: Map<u32, Ty>,
    spans: Seq<(Seq<char>, Span)>,
    refs: Seq<EffectRef>,
    name: Seq<char>,
    span: Span,
    n: nat,
)
    ensures
        arm_op(c, m, spans, refs, name, span, n).0 == (CheckerModel {
            lsp: arm_op(c, m, spans, refs, name, span, n).0.lsp,
            ..c
        }),
    decreases n,
{
    if n > 0 {
        arm_op_keeps(c, m, spans, refs, name, span, (n - 1) as nat);
    }
}

proof fn arm_op_stops(
    c: CheckerModel,
    m: Map<u32, Ty>,
    spans: Seq<(Seq<char>, Span)>,
    refs: Seq<EffectRef>,
    name: Seq<char>,
    span: Span,
    n: nat,
    k: nat,
)
    requires
        n <= k,
        arm_op(c, m, spans, refs, name, span, n).2 is Err,
    ensures
        arm_op(c, m, spans, refs, name, span, k) == arm_op(c, m, spans, refs, name, span, n),
    decreases k,
{
    if n < k {
        arm_op_stops(c, m, spans, refs, name, span, n, (k - 1) as nat);
    }
}

pub open spec fn quoted_effect(e: EffectRef) -> Seq<char> {
    "'"@ + e.name@ + "'"@
}

/// The operation that an arm handles. An operation may have one arm.
pub open spec fn arm_entered(
    c: CheckerModel,
    m: Map<u32, Ty>,
    spans: Seq<(Seq<char>, Span)>,
    refs: Seq<EffectRef>,
    name: Seq<char>,
    span: Span,
) -> (CheckerModel, Seq<(Seq<char>, Span)>, Result<OpModel, Diag>) {
    if has_key(spans, name) {
        (
            c,
            spans,
            Err(an_error_at(span, "duplicate handler arm for operation '"@ + name + "'"@)),
        )
    } else {
        let found = arm_op(c, m, spans, refs, name, span, refs.len());
        (
            found.0,
            found.1,
            match found.2 {
                Err(e) => Err(e),
                Ok(Some(op)) => Ok(op),
                Ok(None) => Err(
                    an_error_at(
                        span,
                        "handler arm '"@ + name + "' is not an operation of "@ + joined(
                            refs.map_values(|e: EffectRef| quoted_effect(e)),
                            ", "@,
                        ),
                    ),
                ),
            },
        )
    }
}

fn quote_effects(v: &Vec<EffectRef>) -> (r: Vec<String>)
    ensures
        r.deep_view() == v@.map_values(|x: EffectRef| quoted_effect(x)),
{
    let mut out: Vec<String> = Vec::new();
    let mut i: usize = 0;
    while i < v.len()
        invariant
            i <= v.len(),
            out.len() == i,
            forall|j: int| 0 <= j < i ==> #[trigger] out.deep_view()[j] == quoted_effect(v@[j]),
        decreases v.len() - i,
    {
        push_value(&mut out, concat3("'", v[i].name.as_str(), "'"));
        i = i + 1;
    }
    assert(out.deep_view() =~= v@.map_values(|x: EffectRef| quoted_effect(x)));
    out
}

/// Entering an arm touches only where it is defined.
pub proof fn arm_entered_keeps(
    c: CheckerModel,
    m: Map<u32, Ty>,
    spans: Seq<(Seq<char>, Span)>,
    refs: Seq<EffectRef>,
    name: Seq<char>,
    span: Span,
)
    ensures
        arm_entered(c, m, spans, refs, name, span).0 == (CheckerModel {
            lsp: arm_entered(c, m, spans, refs, name, span).0.lsp,
            ..c
        }),
{
    arm_op_keeps(c, m, spans, refs, name, span, refs.len());
}

impl Checker {
    /// Enters an arm of a handler: the operation that it handles, the parameters of
    /// its effect bound. `arm_spans` holds the places of the arms before it.
    pub fn enter_arm(
        &mut self,
        effects: &Vec<EffectRef>,
        mapping: &Table<u32, Type>,
        arm_spans: &mut Table<String, Span>,
        op: &str,
        span: Span,
    ) -> (r: Result<EffectOpSig, Diagnostic>)
        ensures
            (final(self).deep_view(), final(arm_spans).order(), outcome(r)) == arm_entered(
                old(self).deep_view(),
                mapping.deep_view(),
                old(arm_spans).order(),
                effects@,
                op@,
                span,
            ),
    {
        let ghost c0 = self.deep_view();
        let ghost m = mapping.deep_view();
        let ghost spans0 = arm_spans.order();
        if arm_spans.has_name(op) {
            let message = concat3("duplicate handler arm for operation '", op, "'");
            return Err(Diagnostic::error_at(span, message));
        }
        let mut found: Option<EffectOpSig> = None;
        let mut i: usize = 0;
        while i < effects.len()
            invariant
                i <= effects.len(),
                c0 == old(self).deep_view(),
                m == mapping.deep_view(),
                spans0 == old(arm_spans).order(),
                !has_key(spans0, op@),
                arm_op(c0, m, spans0, effects@, op@, span, i as nat) == (
                    self.deep_view(),
                    arm_spans.order(),
                    Ok::<Option<OpModel>, Diag>(found.deep_view()),
                ),
            decreases effects.len() - i,
        {
            proof {
                arm_op_keeps(c0, m, spans0, effects@, op@, span, i as nat);
            }
            let e = &effects[i];
            let name = self.resolved_effect_name(e.id, e.name.as_str());
            if let Some(info) = self.effects.get(&name) {
                if let Some(sig) = find_op(&info.ops, op) {
                    if found.is_some() {
                        let message = concat3(
                            "ambiguous handler arm '",
                            op,
                            "': operation exists in multiple effects",
                        );
                        proof {
                            arm_op_stops(
                                c0,
                                m,
                                spans0,
                                effects@,
                                op@,
                                span,
                                (i + 1) as nat,
                                effects@.len(),
                            );
                        }
                        return Err(Diagnostic::error_at(span, message));
                    }
                    found = Some(specialize(sig, mapping));
                    if let Some(at) = info.op_spans.named(op) {
                        let at = *at;
                        let module = info.source_module.dup();
                        self.lsp.handler_arm_targets.insert(span, (at, module));
                    }
                    arm_spans.insert(op.to_owned(), span);
                }
            }
            i = i + 1;
        }
        match found {
            Some(sig) => Ok(sig),
            None => {
                let names = quote_effects(effects);
                let shown = join_text(&names, ", ");
                let message = concat4(
                    "handler arm '",
                    op,
                    "' is not an operation of ",
                    shown.as_str(),
                );
                Err(Diagnostic::error_at(span, message))
            },
        }
    }

    /// The type of a parameter of an arm: that of the operation, or a fresh variable
    /// where the operation has no such parameter.
    pub fn arm_param_type(&mut self, op: &EffectOpSig, at: usize) -> (r: Type)
        requires
            old(self).next_var < u32::MAX,
        ensures
            at < op.deep_view().params.len() ==> r@ == op.deep_view().params[at as int].1
                && final(self).deep_view() == old(self).deep_view(),
            at >= op.deep_view().params.len() ==> r@ == Ty::Var(old(self).next_var)
                && final(self).deep_view() == (CheckerModel {
                next_var: (old(self).next_var + 1) as u32,
                ..old(self).deep_view()
            }),
    {
        broadcast use group_type_models;

        assert(op.params.deep_view().len() == op.params.len());
        if at < op.params.len() {
            op.params[at].1.dup()
        } else {
            let id = self.fresh_var();
            Type::Var(id)
        }
    }
}

/// The canonical names of effects.
pub open spec fn effect_name_list(c: CheckerModel, refs: Seq<EffectRef>) -> Seq<Seq<char>> {
    refs.map_values(|e: EffectRef| canonical_effect(c, e.name@))
}

pub open spec fn entry_name(e: Entry) -> Seq<char> {
    e.name
}

/// The names of the effects of a row, each once, in order.
pub open spec fn row_effect_names(row: Row) -> Seq<Seq<char>> {
    ordered(row.effects.map_values(|e: Entry| entry_name(e)).to_set())
}

/// The complaint about effects of a handler that it does not declare.
pub open spec fn handler_effects_checked(
    c: CheckerModel,
    name: Seq<char>,
    span: Span,
    row: Row,
    needs: Seq<EffectRef>,
) -> Option<Diag> {
    let declared = effect_name_list(c, needs);
    let undeclared = names_outside(row_effect_names(row), declared);
    if undeclared.len() == 0 {
        None
    } else {
        Some(
            an_error_at(
                span,
                "handler '"@ + name + "' uses effects {"@ + joined(undeclared, ", "@) + (
                if declared.len() == 0 {
                    "} but has no 'needs' declaration"@
                } else {
                    "} not declared in its 'needs' clause"@
                }),
            ),
        )
    }
}

/// The complaints with one about the operations of an effect that have no arm.
pub open spec fn with_missing_ops(
    c: CheckerModel,
    name: Seq<char>,
    handled: Seq<Seq<char>>,
    acc: Seq<Diag>,
    e: EffectRef,
) -> Seq<Diag> {
    match effect_named(c, e.name@) {
        Some(info) => {
            let missing = names_outside(
                info.ops.map_values(|op: OpModel| op_name_of(op)),
                handled,
            );
            if missing.len() == 0 {
                acc
            } else {
                acc.push(
                    an_error_at(
                        e.span,
                        "handler '"@ + name + "' is missing "@ + joined(missing, ", "@)
                            + " from effect '"@ + e.name@ + "'"@,
                    ),
                )
            }
        },
        None => acc,
    }
}

pub open spec fn with_all_missing_ops(
    c: CheckerModel,
    name: Seq<char>,
    handled: Seq<Seq<char>>,
    acc: Seq<Diag>,
    items: Seq<EffectRef>,
) -> Seq<Diag>
    decreases items.len(),
{
    if items.len() == 0 {
        acc
    } else {
        with_missing_ops(
            c,
            name,
            handled,
            with_all_missing_ops(c, name, handled, acc, items.drop_last()),
            items.last(),
        )
    }
}

fn add_missing_ops(
    c: &Checker,
    name: &str,
    handled: &Vec<String>,
    acc: &mut Vec<Diagnostic>,
    items: &Vec<EffectRef>,
)
    ensures
        final(acc).deep_view() == with_all_missing_ops(
            c.deep_view(),
            name@,
            handled.deep_view(),
            old(acc).deep_view(),
            items@,
        ),
{
    let ghost a0 = acc.deep_view();
    let ghost all = items@;
    let mut i: usize = 0;
    assert(all.take(0) =~= Seq::empty());
    while i < items.len()
        invariant
            i <= items.len(),
            all == items@,
            acc.deep_view() == with_all_missing_ops(
                c.deep_view(),
                name@,
                handled.deep_view(),
                a0,
                all.take(i as int),
            ),
        decreases items.len() - i,
    {
        proof {
            assert(all.take(i + 1).drop_last() =~= all.take(i as int));
            assert(all.take(i + 1).last() == all[i as int]);
        }
        let e = &items[i];
        if let Some(info) = c.resolve_effect(e.name.as_str()) {
            let names = op_names(&info.ops);
            let missing = find_names_outside(&names, handled);
            assert(missing.deep_view().len() == missing.len());
            if missing.len() > 0 {
                let shown = join_text(&missing, ", ");
                let start = concat5(
                    "handler '",
                    name,
                    "' is missing ",
                    shown.as_str(),
                    " from effect '",
                );
                let message = concat3(start.as_str(), e.name.as_str(), "'");
                push_value(acc, Diagnostic::error_at(e.span, message));
            }
        }
        i = i + 1;
    }
    assert(all.take(i as int) =~= all);
}

pub open spec fn with_entry_vars(vars: Seq<u32>, e: Entry) -> Seq<u32> {
    with_free(Seq::empty(), vars, vars_of_all(e.args))
}

pub open spec fn with_all_entry_vars(acc: Seq<u32>, items: Seq<Entry>) -> Seq<u32>
    decreases items.len(),
{
    if items.len() == 0 {
        acc
    } else {
        with_entry_vars(with_all_entry_vars(acc, items.drop_last()), items.last())
    }
}

fn add_entry_vars(acc: &mut Vec<u32>, items: &Vec<EffectEntry>)
    ensures
        final(acc)@ == with_all_entry_vars(old(acc)@, items.deep_view()),
{
    let ghost a0 = acc@;
    let ghost all = items.deep_view();
    let mut i: usize = 0;
    assert(all.take(0) =~= Seq::empty());
    while i < items.len()
        invariant
            i <= items.len(),
            all == items.deep_view(),
            acc@ == with_all_entry_vars(a0, all.take(i as int)),
        decreases items.len() - i,
    {
        proof {
            assert(all.take(i + 1).drop_last() =~= all.take(i as int));
            assert(all.take(i + 1).last() == all[i as int]);
        }
        let none: Vec<u32> = Vec::new();
        assert(none@ =~= Seq::empty());
        proof {
            crate::types::entry_model_parts(items@[i as int]);
        }
        free_vars_in_types(&items[i].args, &none, acc);
        i = i + 1;
    }
    assert(all.take(i as int) =~= all);
}

/// The variables of the further arguments of a trait.
pub open spec fn arg_vars(vars: Seq<(Seq<char>, u32)>, args: Seq<TypeExpr>) -> Seq<u32>
    decreases args.len(),
{
    if args.len() == 0 {
        Seq::empty()
    } else {
        let before = arg_vars(vars, args.drop_last());
        match args.last() {
            TypeExpr::Var { name, .. } => match first_at(vars, name@) {
                Some(id) => before.push(id),
                None => before,
            },
            _ => before,
        }
    }
}

fn find_arg_vars(vars: &Vec<(String, u32)>, args: &Vec<TypeExpr>) -> (r: Vec<u32>)
    ensures
        r@ == arg_vars(vars.deep_view(), args@),
{
    let ghost all = args@;
    let mut out: Vec<u32> = Vec::new();
    let mut i: usize = 0;
    assert(all.take(0) =~= Seq::empty());
    while i < args.len()
        invariant
            i <= args.len(),
            all == args@,
            out@ == arg_vars(vars.deep_view(), all.take(i as int)),
        decreases args.len() - i,
    {
        proof {
            assert(all.take(i + 1).drop_last() =~= all.take(i as int));
            assert(all.take(i + 1).last() == all[i as int]);
        }
        match &args[i] {
            TypeExpr::Var { name, .. } => {
                if let Some(id) = find_var(vars, name.as_str()) {
                    out.push(id);
                }
            },
            _ => {},
        }
        i = i + 1;
    }
    assert(all.take(i as int) =~= all);
    out
}

/// A trait that an argument of an effect needs.
pub open spec fn needed_trait(c: CheckerModel, vars: Seq<(Seq<char>, u32)>, t: TraitRef) -> (
    Seq<char>,
    Seq<u32>,
) {
    (trait_or_self(c, t.name@), arg_vars(vars, t.type_args@))
}

fn needed_traits(c: &Checker, vars: &Vec<(String, u32)>, v: &Vec<TraitRef>, out: &mut Vec<
    (String, Vec<u32>),
>)
    ensures
        final(out).deep_view() == old(out).deep_view() + v@.map_values(
            |t: TraitRef| needed_trait(c.deep_view(), vars.deep_view(), t),
        ),
{
    let ghost out0 = out.deep_view();
    let ghost all = v@.map_values(|t: TraitRef| needed_trait(c.deep_view(), vars.deep_view(), t));
    let mut i: usize = 0;
    assert(out0 =~= out0 + all.take(0));
    while i < v.len()
        invariant
            i <= v.len(),
            all == v@.map_values(
                |t: TraitRef| needed_trait(c.deep_view(), vars.deep_view(), t),
            ),
            out.deep_view() == out0 + all.take(i as int),
        decreases v.len() - i,
    {
        let name = match c.resolve_trait_name(v[i].name.as_str()) {
            Some(name) => name,
            None => v[i].name.clone(),
        };
        let ids = find_arg_vars(vars, &v[i].type_args);
        assert(ids.deep_view() =~= ids@);
        push_value(out, (name, ids));
        i = i + 1;
        proof {
            assert(all.take(i as int) =~= all.take(i - 1).push(all[i - 1]));
            assert(out.deep_view() =~= out0 + all.take(i as int));
        }
    }
    assert(all.take(i as int) =~= all);
}

/// Effect and parameter position -> the traits that the argument needs.
pub type Needed = Seq<((Seq<char>, usize), Seq<(Seq<char>, Seq<u32>)>)>;

/// What the first `n` parameters of an effect need for a bound on a variable.
pub open spec fn with_params_needed(
    c: CheckerModel,
    p: HandlerPartsModel,
    m: Map<u32, Ty>,
    effect: Seq<char>,
    params: Seq<u32>,
    id: u32,
    b: TraitBound,
    acc: Needed,
    n: nat,
) -> Needed
    decreases n,
{
    if n == 0 {
        acc
    } else {
        let before = with_params_needed(c, p, m, effect, params, id, b, acc, (n - 1) as nat);
        let param = params[n - 1];
        if m.dom().contains(param) && m[param] == Ty::Var(id) {
            let key = (effect, (n - 1) as usize);
            let own = match at_key(before, key) {
                Some(own) => own,
                None => Seq::empty(),
            };
            put(
                before,
                key,
                own + b.traits@.map_values(|t: TraitRef| needed_trait(c, p.vars, t)),
            )
        } else {
            before
        }
    }
}

/// What the parameters of an effect need for a bound on a variable.
pub open spec fn with_effect_needed(
    c: CheckerModel,
    p: HandlerPartsModel,
    m: Map<u32, Ty>,
    id: u32,
    b: TraitBound,
    acc: Needed,
    e: EffectRef,
) -> Needed {
    match effect_named(c, e.name@) {
        Some(info) => with_params_needed(
            c,
            p,
            m,
            resolved_name(c.resolution.effect_refs, e.id, e.name@),
            info.type_params,
            id,
            b,
            acc,
            info.type_params.len(),
        ),
        None => acc,
    }
}

pub open spec fn with_effects_needed(
    c: CheckerModel,
    p: HandlerPartsModel,
    m: Map<u32, Ty>,
    id: u32,
    b: TraitBound,
    acc: Needed,
    items: Seq<EffectRef>,
) -> Needed
    decreases items.len(),
{
    if items.len() == 0 {
        acc
    } else {
        with_effect_needed(
            c,
            p,
            m,
            id,
            b,
            with_effects_needed(c, p, m, id, b, acc, items.drop_last()),
            items.last(),
        )
    }
}

pub open spec fn with_bound_needed(
    c: CheckerModel,
    p: HandlerPartsModel,
    m: Map<u32, Ty>,
    refs: Seq<EffectRef>,
    acc: Needed,
    b: TraitBound,
) -> Needed {
    match first_at(p.vars, b.type_var@) {
        Some(id) => with_effects_needed(c, p, m, id, b, acc, refs),
        None => acc,
    }
}

/// The traits that the arguments of effects need, from the bounds of a handler.
pub open spec fn with_bounds_needed(
    c: CheckerModel,
    p: HandlerPartsModel,
    m: Map<u32, Ty>,
    refs: Seq<EffectRef>,
    acc: Needed,
    items: Seq<TraitBound>,
) -> Needed
    decreases items.len(),
{
    if items.len() == 0 {
        acc
    } else {
        with_bound_needed(
            c,
            p,
            m,
            refs,
            with_bounds_needed(c, p, m, refs, acc, items.drop_last()),
            items.last(),
        )
    }
}

fn add_params_needed(
    c: &Checker,
    parts: &HandlerParts,
    m: &Table<u32, Type>,
    effect: &str,
    params: &Vec<u32>,
    id: u32,
    b: &TraitBound,
    acc: &mut Table<(String, usize), Vec<(String, Vec<u32>)>>,
)
    ensures
        final(acc).order() == with_params_needed(
            c.deep_view(),
            parts.deep_view(),
            m.deep_view(),
            effect@,
            params@,
            id,
            *b,
            old(acc).order(),
            params@.len(),
        ),
{
    let ghost acc0 = acc.order();
    let mut i: usize = 0;
    while i < params.len()
        invariant
            i <= params.len(),
            acc.order() == with_params_needed(
                c.deep_view(),
                parts.deep_view(),
                m.deep_view(),
                effect@,
                params@,
                id,
                *b,
                acc0,
                i as nat,
            ),
        decreases params.len() - i,
    {
        broadcast use group_type_models;

        let applies = match m.get(&params[i]) {
            Some(Type::Var(other)) => *other == id,
            _ => false,
        };
        if applies {
            let key = (effect.to_owned(), i);
            let mut own = match acc.get(&key) {
                Some(own) => own.dup(),
                None => {
                    let none: Vec<(String, Vec<u32>)> = Vec::new();
                    assert(none.deep_view() =~= Seq::empty());
                    none
                },
            };
            needed_traits(c, &parts.vars, &b.traits, &mut own);
            acc.insert(key, own);
        }
        i = i + 1;
    }
}

fn add_effects_needed(
    c: &Checker,
    parts: &HandlerParts,
    m: &Table<u32, Type>,
    id: u32,
    b: &TraitBound,
    acc: &mut Table<(String, usize), Vec<(String, Vec<u32>)>>,
    items: &Vec<EffectRef>,
)
    ensures
        final(acc).order() == with_effects_needed(
            c.deep_view(),
            parts.deep_view(),
            m.deep_view(),
            id,
            *b,
            old(acc).order(),
            items@,
        ),
{
    let ghost a0 = acc.order();
    let ghost all = items@;
    let mut i: usize = 0;
    assert(all.take(0) =~= Seq::empty());
    while i < items.len()
        invariant
            i <= items.len(),
            all == items@,
            acc.order() == with_effects_needed(
                c.deep_view(),
                parts.deep_view(),
                m.deep_view(),
                id,
                *b,
                a0,
                all.take(i as int),
            ),
        decreases items.len() - i,
    {
        proof {
            assert(all.take(i + 1).drop_last() =~= all.take(i as int));
            assert(all.take(i + 1).last() == all[i as int]);
        }
        let e = &items[i];
        if let Some(info) = c.resolve_effect(e.name.as_str()) {
            let name = c.resolved_effect_name(e.id, e.name.as_str());
            assert(info.type_params.deep_view() =~= info.type_params@);
            add_params_needed(c, parts, m, name.as_str(), &info.type_params, id, b, acc);
        }
        i = i + 1;
    }
    assert(all.take(i as int) =~= all);
}

fn add_bounds_needed(
    c: &Checker,
    parts: &HandlerParts,
    m: &Table<u32, Type>,
    refs: &Vec<EffectRef>,
    acc: &mut Table<(String, usize), Vec<(String, Vec<u32>)>>,
    items: &Vec<TraitBound>,
)
    ensures
        final(acc).order() == with_bounds_needed(
            c.deep_view(),
            parts.deep_view(),
            m.deep_view(),
            refs@,
            old(acc).order(),
            items@,
        ),
{
    let ghost a0 = acc.order();
    let ghost all = items@;
    let mut i: usize = 0;
    assert(all.take(0) =~= Seq::empty());
    while i < items.len()
        invariant
            i <= items.len(),
            all == items@,
            acc.order() == with_bounds_needed(
                c.deep_view(),
                parts.deep_view(),
                m.deep_view(),
                refs@,
                a0,
                all.take(i as int),
            ),
        decreases items.len() - i,
    {
        proof {
            assert(all.take(i + 1).drop_last() =~= all.take(i as int));
            assert(all.take(i + 1).last() == all[i as int]);
        }
        let b = &items[i];
        if let Some(id) = find_var(&parts.vars, b.type_var.as_str()) {
            add_effects_needed(c, parts, m, id, b, acc, refs);
        }
        i = i + 1;
    }
    assert(all.take(i as int) =~= all);
}

/// The type of the handled value and the type that the handler gives back for it:
/// those of the return clause, or else the answer for both.
pub open spec fn handler_result(c: CheckerModel, run: HandlerRunModel) -> (Ty, Ty) {
    match run.returned {
        Some((param, ty)) => (applied(c.sub, Ty::Var(param)), applied(c.sub, ty)),
        None => (applied(c.sub, Ty::Var(run.answer)), applied(c.sub, Ty::Var(run.answer))),
    }
}

/// What is known of a handler.
pub open spec fn handler_info(
    c: CheckerModel,
    p: HandlerPartsModel,
    body: HandlerBody,
    run: HandlerRunModel,
) -> HandlerModel {
    let result = handler_result(c, run);
    let none = Seq::<u32>::empty();
    HandlerModel {
        effects: effect_name_list(c, body.effects@),
        return_type: Some(result),
        needs_effects: run.effects,
        forall: with_all_entry_vars(
            with_free(none, with_free(none, none, vars_of(result.0)), vars_of(result.1)),
            run.effects.effects,
        ),
        arm_spans: run.arm_spans,
        where_constraints: with_bounds_needed(
            c,
            p,
            run.mapping,
            body.effects@,
            Seq::empty(),
            body.where_clause@,
        ),
        source_module: c.current_module,
    }
}

/// The type of a handler, from the effects that it handles.
pub open spec fn handler_type(c: CheckerModel, refs: Seq<EffectRef>, args: Seq<Seq<Ty>>) -> Ty {
    Ty::Con(
        canonical_type_name("Handler"@),
        Seq::new(
            refs.len(),
            |i: int| Ty::Con(canonical_effect(c, refs[i].name@), args[i]),
        ),
    )
}

pub open spec fn arm_op_name(arm: HandlerArm) -> Seq<char> {
    arm.op_name@
}

/// Where the effects of a handler are complained about.
pub open spec fn handler_place(p: HandlerPartsModel, arms: Seq<HandlerArm>) -> Span {
    if arms.len() > 0 {
        arms[0].span
    } else {
        p.span
    }
}

/// The state with a handler registered, or the complaint about its effects.
pub open spec fn handler_registered(
    c: CheckerModel,
    p: HandlerPartsModel,
    body: HandlerBody,
    run: HandlerRunModel,
) -> (CheckerModel, Result<(), Diag>) {
    match handler_effects_checked(
        c,
        p.name,
        handler_place(p, body.arms@),
        run.effects,
        body.needs@,
    ) {
        Some(d) => (c, Err(d)),
        None => {
            let info = handler_info(c, p, body, run);
            let own = put(c.handlers, p.name, info);
            (
                CheckerModel {
                    collected_diagnostics: if c.allow_bodyless_annotations {
                        c.collected_diagnostics
                    } else {
                        with_all_missing_ops(
                            c,
                            p.name,
                            body.arms@.map_values(|arm: HandlerArm| arm_op_name(arm)),
                            c.collected_diagnostics,
                            body.effects@,
                        )
                    },
                    handlers: match c.current_module {
                        Some(module) => put(own, dotted(module, p.name), info),
                        None => own,
                    },
                    env: EnvModel {
                        bindings: put(
                            c.env.bindings,
                            p.name,
                            SchemeModel {
                                forall: Seq::empty(),
                                constraints: Seq::empty(),
                                ty: handler_type(c, body.effects@, p.plain_args),
                            },
                        ),
                        def_ids: put(c.env.def_ids, p.name, p.id),
                    },
                    outer_named_type_vars: run.outer,
                    lsp: LspModel {
                        node_spans: put(c.lsp.node_spans, p.id, p.name_span),
                        ..c.lsp
                    },
                    ..c
                },
                Ok(()),
            )
        },
    }
}

/// The names of the effects of entries.
pub fn entry_names(v: &Vec<EffectEntry>) -> (r: Vec<String>)
    ensures
        r.deep_view() == v.deep_view().map_values(|e: Entry| entry_name(e)),
{
    let mut out: Vec<String> = Vec::new();
    let mut i: usize = 0;
    while i < v.len()
        invariant
            i <= v.len(),
            out.len() == i,
            forall|j: int|
                0 <= j < i ==> #[trigger] out.deep_view()[j] == entry_name(v.deep_view()[j]),
        decreases v.len() - i,
    {
        proof {
            crate::types::entry_model_parts(v@[i as int]);
        }
        push_value(&mut out, v[i].name.clone());
        i = i + 1;
    }
    assert(out.deep_view() =~= v.deep_view().map_values(|e: Entry| entry_name(e)));
    out
}

fn arm_op_names(v: &Vec<HandlerArm>) -> (r: Vec<String>)
    ensures
        r.deep_view() == v@.map_values(|arm: HandlerArm| arm_op_name(arm)),
{
    let mut out: Vec<String> = Vec::new();
    let mut i: usize = 0;
    while i < v.len()
        invariant
            i <= v.len(),
            out.len() == i,
            forall|j: int| 0 <= j < i ==> #[trigger] out.deep_view()[j] == arm_op_name(v@[j]),
        decreases v.len() - i,
    {
        push_value(&mut out, v[i].op_name.clone());
        i = i + 1;
    }
    assert(out.deep_view() =~= v@.map_values(|arm: HandlerArm| arm_op_name(arm)));
    out
}

impl Checker {
    fn effect_names(&self, v: &Vec<EffectRef>) -> (r: Vec<String>)
        ensures
            r.deep_view() == effect_name_list(self.deep_view(), v@),
    {
        let mut out: Vec<String> = Vec::new();
        let mut i: usize = 0;
        while i < v.len()
            invariant
                i <= v.len(),
                out.len() == i,
                forall|j: int|
                    0 <= j < i ==> #[trigger] out.deep_view()[j] == canonical_effect(
                        self.deep_view(),
                        v@[j].name@,
                    ),
            decreases v.len() - i,
        {
            push_value(&mut out, self.canonical_effect_name(v[i].name.as_str()));
            i = i + 1;
        }
        assert(out.deep_view() =~= effect_name_list(self.deep_view(), v@));
        out
    }

    fn check_handler_effects(
        &self,
        name: &str,
        span: Span,
        row: &EffectRow,
        needs: &Vec<EffectRef>,
    ) -> (r: Option<Diagnostic>)
        ensures
            r.deep_view() == handler_effects_checked(self.deep_view(), name@, span, row@, needs@),
    {
        let declared = self.effect_names(needs);
        proof {
            crate::types::row_model_parts(*row);
        }
        let used = entry_names(&row.effects);
        let used_in_order = ordered_set(&used);
        proof {
            ordered_is(used_in_order.deep_view(), used.deep_view().to_set());
        }
        let undeclared = find_names_outside(&used_in_order, &declared);
        assert(undeclared.deep_view().len() == undeclared.len());
        assert(declared.deep_view().len() == declared.len());
        if undeclared.len() == 0 {
            return None;
        }
        let shown = join_text(&undeclared, ", ");
        let end = if declared.len() == 0 {
            "} but has no 'needs' declaration"
        } else {
            "} not declared in its 'needs' clause"
        };
        let message = concat5("handler '", name, "' uses effects {", shown.as_str(), end);
        Some(Diagnostic::error_at(span, message))
    }

    fn type_of_handler(&self, refs: &Vec<EffectRef>, args: &Vec<Vec<Type>>) -> (r: Type)
        requires
            args.len() == refs.len(),
        ensures
            r@ == handler_type(self.deep_view(), refs@, args.deep_view()),
    {
        broadcast use group_type_models;

        let mut effects: Vec<Type> = Vec::new();
        let mut i: usize = 0;
        while i < refs.len()
            invariant
                i <= refs.len(),
                args.len() == refs.len(),
                effects.len() == i,
                forall|j: int|
                    0 <= j < i ==> #[trigger] effects.deep_view()[j] == Ty::Con(
                        canonical_effect(self.deep_view(), refs@[j].name@),
                        args.deep_view()[j],
                    ),
            decreases refs.len() - i,
        {
            broadcast use group_type_models;

            assert(args.deep_view()[i as int] == args@[i as int].deep_view());
            let effect = Type::Con(
                self.canonical_effect_name(refs[i].name.as_str()),
                args[i].dup(),
            );
            push_value(&mut effects, effect);
            i = i + 1;
        }
        let ty = Type::Con(canonicalize_type_name("Handler").to_owned(), effects);
        proof {
            crate::types::con_model(ty->Con_0, ty->Con_1);
            assert(effects.deep_view() =~= handler_type(
                self.deep_view(),
                refs@,
                args.deep_view(),
            )->Con_1);
        }
        ty
    }

    fn info_of_handler(&self, parts: &HandlerParts, body: &HandlerBody, run: &HandlerRun) -> (r:
        HandlerInfo)
        requires
            acyclic(self.sub@),
        ensures
            r.deep_view() == handler_info(
                self.deep_view(),
                parts.deep_view(),
                *body,
                run.deep_view(),
            ),
    {
        broadcast use group_type_models;

        let result = match &run.returned {
            Some((param, ty)) => (self.sub.apply(&Type::Var(*param)), self.sub.apply(ty)),
            None => {
                let answer = self.sub.apply(&Type::Var(run.answer));
                (answer.dup(), answer)
            },
        };
        let mut quantified: Vec<u32> = Vec::new();
        assert(quantified@ =~= Seq::empty());
        collect_free_vars(&result.0, &mut quantified);
        collect_free_vars(&result.1, &mut quantified);
        proof {
            crate::types::row_model_parts(run.effects);
        }
        add_entry_vars(&mut quantified, &run.effects.effects);
        assert(quantified.deep_view() =~= quantified@);
        let mut needed: Table<(String, usize), Vec<(String, Vec<u32>)>> = Table::new();
        add_bounds_needed(
            self,
            parts,
            &run.mapping,
            &body.effects,
            &mut needed,
            &body.where_clause,
        );
        HandlerInfo {
            effects: self.effect_names(&body.effects),
            return_type: Some(result),
            needs_effects: run.effects.dup(),
            forall: quantified,
            arm_spans: run.arm_spans.dup(),
            where_constraints: needed,
            source_module: self.current_module.dup(),
        }
    }

    /// Registers a handler whose bodies are checked. Its effects must be among those
    /// that it declares. Operations without an arm are complained about.
    pub fn register_handler(
        &mut self,
        parts: &HandlerParts,
        body: &HandlerBody,
        run: HandlerRun,
    ) -> (r: Result<(), Diagnostic>)
        requires
            acyclic(old(self).sub@),
            parts.plain_args.len() == body.effects.len(),
        ensures
            (final(self).deep_view(), outcome(r)) == handler_registered(
                old(self).deep_view(),
                parts.deep_view(),
                *body,
                run.deep_view(),
            ),
    {
        let ghost c0 = self.deep_view();
        let span = if body.arms.len() > 0 {
            body.arms[0].span
        } else {
            parts.span
        };
        let name = parts.name.as_str();
        if let Some(d) = self.check_handler_effects(name, span, &run.effects, &body.needs) {
            return Err(d);
        }
        let info = self.info_of_handler(parts, body, &run);
        let ty = self.type_of_handler(&body.effects, &parts.plain_args);
        if !self.allow_bodyless_annotations {
            let handled = arm_op_names(&body.arms);
            let mut complaints = self.collected_diagnostics.dup();
            add_missing_ops(self, name, &handled, &mut complaints, &body.effects);
            self.collected_diagnostics = complaints;
        }
        self.handlers.insert(parts.name.clone(), info.dup());
        if let Some(module) = &self.current_module {
            let canonical = dot_join(module.as_str(), name);
            self.handlers.insert(canonical, info);
        }
        let quantified: Vec<u32> = Vec::new();
        let constraints: Vec<(String, u32, Vec<Type>)> = Vec::new();
        assert(quantified.deep_view() =~= Seq::empty());
        assert(constraints.deep_view() =~= Seq::empty());
        let scheme = Scheme { forall: quantified, constraints, ty };
        self.env.insert_with_def(parts.name.clone(), scheme, parts.id);
        self.outer_named_type_vars = run.outer;
        self.lsp.node_spans.insert(parts.id, parts.name_span);
        Ok(())
    }
}

pub proof fn nothing_outside(names: Seq<Seq<char>>, allowed: Seq<Seq<char>>, i: int)
    requires
        names_outside(names, allowed).len() == 0,
        0 <= i < names.len(),
    ensures
        allowed.contains(names[i]),
    decreases names.len(),
{
    if i < names.len() - 1 {
        nothing_outside(names.drop_last(), allowed, i);
    }
}

/// A registered handler has no effects but those that it declares.
pub proof fn handlers_declare_their_effects(
    c: CheckerModel,
    p: HandlerPartsModel,
    body: HandlerBody,
    run: HandlerRunModel,
    i: int,
)
    requires
        handler_registered(c, p, body, run).1 is Ok,
        0 <= i < row_effect_names(run.effects).len(),
    ensures
        effect_name_list(c, body.needs@).contains(row_effect_names(run.effects)[i]),
{
    nothing_outside(row_effect_names(run.effects), effect_name_list(c, body.needs@), i);
}

/// Whether an operation of a handler is a declared one, with each parameter of the
/// effect replaced by the argument that the handler handles the effect at.
pub open spec fn is_handled_at(declared: OpModel, m: Map<u32, Ty>, op: OpModel) -> bool {
    &&& op.name == declared.name
    &&& op.effect_name == declared.effect_name
    &&& op.needs == declared.needs
    &&& op.return_type == replaced(declared.return_type, m)
    &&& op.params.len() == declared.params.len()
    &&& forall|k: int|
        0 <= k < op.params.len() ==> (#[trigger] op.params[k]).0 == declared.params[k].0
            && op.params[k].1 == replaced(declared.params[k].1, m)
    &&& op.constraints.len() == declared.constraints.len()
    &&& forall|k: int|
        0 <= k < op.constraints.len() ==> is_constraint_at(
            declared.constraints[k],
            m,
            #[trigger] op.constraints[k],
        )
}

/// Whether a constraint is a declared one at what variables stand for: its variable
/// follows where it stands for another one.
pub open spec fn is_constraint_at(
    declared: (Seq<char>, u32, Seq<Ty>),
    m: Map<u32, Ty>,
    k: (Seq<char>, u32, Seq<Ty>),
) -> bool {
    &&& k.0 == declared.0
    &&& k.2 == replaced_all(declared.2, m)
    &&& k.1 == if m.dom().contains(declared.1) && m[declared.1] is Var {
        m[declared.1]->Var_0
    } else {
        declared.1
    }
}

/// Whether an effect declares an operation: under the name of the operation, and as the
/// first with that name.
pub open spec fn declares(info: EffectModel, name: Seq<char>, op: OpModel) -> bool {
    exists|i: int|
        0 <= i < info.ops.len() && #[trigger] info.ops[i] == op && op.name == name && forall|k: int|
            0 <= k < i ==> (#[trigger] info.ops[k]).name != name
}

/// The operation that is found under a name is the first that is declared with it.
pub proof fn named_sigs_are_declared(ops: Seq<OpModel>, name: Seq<char>)
    ensures
        match sig_named(ops, name) {
            Some(op) => exists|i: int|
                0 <= i < ops.len() && #[trigger] ops[i] == op && op.name == name && forall|k: int|
                    0 <= k < i ==> (#[trigger] ops[k]).name != name,
            None => forall|k: int| 0 <= k < ops.len() ==> (#[trigger] ops[k]).name != name,
        },
    decreases ops.len(),
{
    if ops.len() > 0 {
        let init = ops.drop_last();
        named_sigs_are_declared(init, name);
        assert(forall|k: int| 0 <= k < init.len() ==> #[trigger] ops[k] == init[k]);
        assert(ops[ops.len() - 1] == ops.last());
        if let Some(op) = sig_named(init, name) {
            let i = choose|i: int|
                0 <= i < init.len() && #[trigger] init[i] == op && op.name == name
                    && forall|k: int| 0 <= k < i ==> (#[trigger] init[k]).name != name;
            assert(ops[i] == op);
            assert forall|k: int| 0 <= k < i implies (#[trigger] ops[k]).name != name by {
                assert(init[k].name != name);
            }
        }
    }
}

/// The effect that a reference of a handler is to.
pub open spec fn effect_at(c: CheckerModel, e: EffectRef) -> Option<EffectModel> {
    at_key(c.effects, resolved_name(c.resolution.effect_refs, e.id, e.name@))
}

proof fn found_op_is_declared(
    c: CheckerModel,
    m: Map<u32, Ty>,
    spans: Seq<(Seq<char>, Span)>,
    refs: Seq<EffectRef>,
    name: Seq<char>,
    span: Span,
    n: nat,
)
    requires
        n <= refs.len(),
        arm_op(c, m, spans, refs, name, span, n).2 is Ok,
        arm_op(c, m, spans, refs, name, span, n).2->Ok_0 is Some,
    ensures
        exists|i: int, declared: OpModel|
            0 <= i < n && #[trigger] effect_at(c, refs[i]) is Some && #[trigger] declares(
                effect_at(c, refs[i])->0,
                name,
                declared,
            ) && is_handled_at(
                declared,
                m,
                arm_op(c, m, spans, refs, name, span, n).2->Ok_0->0,
            ),
    decreases n,
{
    let n1 = (n - 1) as nat;
    let before = arm_op(c, m, spans, refs, name, span, n1);
    let e = refs[n - 1];
    if before.2->Ok_0 is Some {
        found_op_is_declared(c, m, spans, refs, name, span, n1);
    } else {
        let info = effect_at(c, e)->0;
        named_sigs_are_declared(info.ops, name);
        let op = sig_named(info.ops, name)->0;
        assert(declares(info, name, op));
        assert(is_handled_at(op, m, specialized(op, m)));
        assert(effect_at(c, refs[n - 1]) is Some);
    }
}

/// An arm is checked against an operation that one of the effects of the handler
/// declares, at the arguments that the handler handles it at. What resuming takes is
/// what the operation gives back there: of an operation that gives back a parameter of
/// the effect, the argument. No variable is left in it that stands for something else.
pub proof fn arms_are_held_to_what_is_handled(
    c: CheckerModel,
    m: Map<u32, Ty>,
    spans: Seq<(Seq<char>, Span)>,
    refs: Seq<EffectRef>,
    name: Seq<char>,
    span: Span,
) -> (r: (int, OpModel))
    requires
        arm_entered(c, m, spans, refs, name, span).2 is Ok,
    ensures
        ({
            let op = arm_entered(c, m, spans, refs, name, span).2->Ok_0;
            let (i, declared) = r;
            &&& 0 <= i < refs.len()
            &&& effect_at(c, refs[i]) matches Some(info)
            &&& declares(info, name, declared)
            &&& is_handled_at(declared, m, op)
            &&& declared.return_type matches Ty::Var(p) ==> m.dom().contains(p) ==> op.return_type
                == m[p]
            &&& forall|id: u32|
                m.dom().contains(id) && (forall|k: u32|
                    m.dom().contains(k) ==> !vars_of(#[trigger] m[k]).contains(id))
                    ==> !#[trigger] vars_of(op.return_type).contains(id)
        }),
{
    let n = refs.len();
    found_op_is_declared(c, m, spans, refs, name, span, n);
    let op = arm_entered(c, m, spans, refs, name, span).2->Ok_0;
    let (i, declared) = choose|i: int, declared: OpModel|
        0 <= i < n && #[trigger] effect_at(c, refs[i]) is Some && #[trigger] declares(
            effect_at(c, refs[i])->0,
            name,
            declared,
        ) && is_handled_at(declared, m, op);
    assert forall|id: u32|
        m.dom().contains(id) && (forall|k: u32|
            m.dom().contains(k) ==> !vars_of(#[trigger] m[k]).contains(id)) implies !#[trigger] vars_of(
        op.return_type,
    ).contains(id) by {
        replaced_vars_are_gone(declared.return_type, m, id);
    }
    (i, declared)
}

/// An arm of an operation that none of the effects declares, or that has an arm, is
/// refused.
pub proof fn other_arms_are_refused(
    c: CheckerModel,
    m: Map<u32, Ty>,
    spans: Seq<(Seq<char>, Span)>,
    refs: Seq<EffectRef>,
    name: Seq<char>,
    span: Span,
)
    requires
        has_key(spans, name) || forall|i: int|
            0 <= i < refs.len() ==> match #[trigger] effect_at(c, refs[i]) {
                Some(info) => forall|k: int|
                    0 <= k < info.ops.len() ==> (#[trigger] info.ops[k]).name != name,
                None => true,
            },
    ensures
        arm_entered(c, m, spans, refs, name, span).2 is Err,
{
    if !has_key(spans, name) && arm_entered(c, m, spans, refs, name, span).2 is Ok {
        let (i, declared) = arms_are_held_to_what_is_handled(c, m, spans, refs, name, span);
        let info = effect_at(c, refs[i])->0;
        let k = choose|k: int|
            0 <= k < info.ops.len() && #[trigger] info.ops[k] == declared && declared.name == name;
        assert(info.ops[k].name != name);
    }
}

/// Whether a handler handles an effect with a parameter, at an argument.
pub open spec fn binds(
    c: CheckerModel,
    e: EffectRef,
    args: Seq<Ty>,
    k: int,
    id: u32,
    ty: Ty,
) -> bool {
    &&& effect_at(c, e) matches Some(info)
    &&& 0 <= k < info.type_params.len()
    &&& k < args.len()
    &&& info.type_params[k] == id
    &&& args[k] == ty
}

proof fn args_are_bound(m: Map<u32, Ty>, params: Seq<u32>, args: Seq<Ty>, n: nat, id: u32)
    requires
        n <= params.len(),
        n <= args.len(),
    ensures
        ({
            let after = args_bound(m, params, args, n);
            if exists|k: int| 0 <= k < n && #[trigger] params[k] == id {
                after.dom().contains(id) && exists|k: int|
                    0 <= k < n && #[trigger] params[k] == id && after[id] == args[k]
            } else {
                after.dom().contains(id) == m.dom().contains(id) && after[id] == m[id]
            }
        }),
    decreases n,
{
    if n > 0 {
        args_are_bound(m, params, args, (n - 1) as nat, id);
        if params[n - 1] == id {
            assert(params[n - 1] == id && args_bound(m, params, args, n)[id] == args[n - 1]);
        }
    }
}

/// Just the parameters of the handled effects stand for something, and each for an
/// argument that the handler gives it.
pub proof fn handled_effects_bind_their_parameters(
    c: CheckerModel,
    refs: Seq<EffectRef>,
    args: Seq<Seq<Ty>>,
    n: nat,
    id: u32,
)
    requires
        n <= refs.len(),
        refs.len() == args.len(),
    ensures
        ({
            let m = effects_bound(c, refs, args, n).1;
            &&& m.dom().contains(id) <==> exists|i: int, k: int, ty: Ty|
                0 <= i < n && #[trigger] binds(c, refs[i], args[i], k, id, ty)
            &&& m.dom().contains(id) ==> exists|i: int, k: int|
                0 <= i < n && #[trigger] binds(c, refs[i], args[i], k, id, m[id])
        }),
    decreases n,
{
    if n > 0 {
        let n1 = (n - 1) as nat;
        handled_effects_bind_their_parameters(c, refs, args, n1, id);
        let before = effects_bound(c, refs, args, n1).1;
        let m = effects_bound(c, refs, args, n).1;
        let e = refs[n - 1];
        match effect_at(c, e) {
            Some(info) => {
                let len = shorter(info.type_params.len(), args[n - 1].len());
                args_are_bound(before, info.type_params, args[n - 1], len, id);
                if exists|k: int| 0 <= k < len && #[trigger] info.type_params[k] == id {
                    let k = choose|k: int|
                        0 <= k < len && #[trigger] info.type_params[k] == id && m[id] == args[n
                            - 1][k];
                    assert(binds(c, refs[n - 1], args[n - 1], k, id, m[id]));
                } else {
                    assert forall|k: int, ty: Ty| !#[trigger] binds(
                        c,
                        refs[n - 1],
                        args[n - 1],
                        k,
                        id,
                        ty,
                    ) by {
                        if binds(c, refs[n - 1], args[n - 1], k, id, ty) {
                            assert(info.type_params[k] == id);
                        }
                    }
                }
            },
            None => {},
        }
    }
}

/// Effects of a handler that are not defined are complained about, each where it
/// stands, and there are no other complaints.
pub proof fn undefined_effects_are_reported(
    c: CheckerModel,
    refs: Seq<EffectRef>,
    args: Seq<Seq<Ty>>,
    n: nat,
)
    requires
        n <= refs.len(),
    ensures
        ({
            let before = c.collected_diagnostics;
            let after = effects_bound(c, refs, args, n).0.collected_diagnostics;
            &&& before.len() <= after.len()
            &&& after.take(before.len() as int) == before
            &&& forall|i: int|
                0 <= i < n && #[trigger] effect_at(c, refs[i]) is None ==> after.contains(
                    an_error_at(refs[i].span, "undefined effect: "@ + refs[i].name@),
                )
            &&& (forall|i: int| 0 <= i < n ==> #[trigger] effect_at(c, refs[i]) is Some) ==> after
                == before
        }),
    decreases n,
{
    let before = c.collected_diagnostics;
    if n == 0 {
        assert(before.take(before.len() as int) =~= before);
    } else {
        let n1 = (n - 1) as nat;
        undefined_effects_are_reported(c, refs, args, n1);
        let mid = effects_bound(c, refs, args, n1).0.collected_diagnostics;
        let after = effects_bound(c, refs, args, n).0.collected_diagnostics;
        assert(after.take(before.len() as int) =~= mid.take(before.len() as int));
        let e = refs[n - 1];
        let d = an_error_at(e.span, "undefined effect: "@ + e.name@);
        if effect_at(c, e) is None {
            assert(after[mid.len() as int] == d);
        }
        assert forall|i: int| 0 <= i < n && #[trigger] effect_at(c, refs[i]) is None implies after.contains(
            an_error_at(refs[i].span, "undefined effect: "@ + refs[i].name@),
        ) by {
            if i < n1 {
                let x = an_error_at(refs[i].span, "undefined effect: "@ + refs[i].name@);
                assert(mid.contains(x));
                let k = choose|k: int| 0 <= k < mid.len() && mid[k] == x;
                assert(after[k] == x);
            }
        }
    }
}

/// Whether a handler lacks an arm for an operation of an effect.
pub open spec fn lacks_an_arm(c: CheckerModel, e: EffectRef, handled: Seq<Seq<char>>) -> bool {
    &&& effect_named(c, e.name@) matches Some(info)
    &&& exists|k: int| 0 <= k < info.ops.len() && !handled.contains((#[trigger] info.ops[k]).name)
}

/// There are names outside just where one of the names is not allowed.
pub proof fn outside_are_some(names: Seq<Seq<char>>, allowed: Seq<Seq<char>>)
    ensures
        names_outside(names, allowed).len() > 0 <==> exists|i: int|
            0 <= i < names.len() && !allowed.contains(#[trigger] names[i]),
    decreases names.len(),
{
    if names.len() > 0 {
        let init = names.drop_last();
        outside_are_some(init, allowed);
        assert(forall|i: int| 0 <= i < init.len() ==> #[trigger] names[i] == init[i]);
        assert(forall|i: int| 0 <= i < init.len() ==> names[i] == #[trigger] init[i]);
        assert(names[names.len() - 1] == names.last());
    }
}

proof fn missing_ops_add(
    c: CheckerModel,
    name: Seq<char>,
    handled: Seq<Seq<char>>,
    acc: Seq<Diag>,
    items: Seq<EffectRef>,
)
    ensures
        acc.len() <= with_all_missing_ops(c, name, handled, acc, items).len(),
        with_all_missing_ops(c, name, handled, acc, items).take(acc.len() as int) == acc,
        with_all_missing_ops(c, name, handled, acc, items).len() > acc.len() <==> exists|i: int|
            0 <= i < items.len() && lacks_an_arm(c, #[trigger] items[i], handled),
    decreases items.len(),
{
    if items.len() == 0 {
        assert(acc.take(acc.len() as int) =~= acc);
    } else {
        let init = items.drop_last();
        missing_ops_add(c, name, handled, acc, init);
        let before = with_all_missing_ops(c, name, handled, acc, init);
        let after = with_all_missing_ops(c, name, handled, acc, items);
        assert(after.take(acc.len() as int) =~= before.take(acc.len() as int));
        assert(forall|i: int| 0 <= i < init.len() ==> #[trigger] items[i] == init[i]);
        assert(forall|i: int| 0 <= i < init.len() ==> items[i] == #[trigger] init[i]);
        assert(items[items.len() - 1] == items.last());
        if let Some(info) = effect_named(c, items.last().name@) {
            let names = info.ops.map_values(|op: OpModel| op_name_of(op));
            outside_are_some(names, handled);
            assert(forall|k: int| 0 <= k < names.len() ==> #[trigger] names[k] == info.ops[k].name);
            if exists|k: int| 0 <= k < names.len() && !handled.contains(#[trigger] names[k]) {
                let k = choose|k: int|
                    0 <= k < names.len() && !handled.contains(#[trigger] names[k]);
                assert(!handled.contains(info.ops[k].name));
            }
            if exists|k: int|
                0 <= k < info.ops.len() && !handled.contains((#[trigger] info.ops[k]).name) {
                let k = choose|k: int|
                    0 <= k < info.ops.len() && !handled.contains((#[trigger] info.ops[k]).name);
                assert(!handled.contains(names[k]));
            }
        }
    }
}

/// Registering a handler complains of it just where one of its effects has an operation
/// without an arm, unless bodies may be missing.
pub proof fn handlers_handle_all_operations(
    c: CheckerModel,
    p: HandlerPartsModel,
    body: HandlerBody,
    run: HandlerRunModel,
    handled: Seq<Seq<char>>,
)
    requires
        handler_registered(c, p, body, run).1 is Ok,
        handled.len() == body.arms@.len(),
        forall|i: int| 0 <= i < handled.len() ==> #[trigger] handled[i] == body.arms@[i].op_name@,
    ensures
        ({
            let before = c.collected_diagnostics;
            let after = handler_registered(c, p, body, run).0.collected_diagnostics;
            &&& before.len() <= after.len()
            &&& after.take(before.len() as int) == before
            &&& after.len() > before.len() <==> !c.allow_bodyless_annotations && exists|i: int|
                0 <= i < body.effects@.len() && lacks_an_arm(
                    c,
                    #[trigger] body.effects@[i],
                    handled,
                )
        }),
{
    let names = body.arms@.map_values(|arm: HandlerArm| arm_op_name(arm));
    assert(names =~= handled);
    let before = c.collected_diagnostics;
    assert(before.take(before.len() as int) =~= before);
    missing_ops_add(c, p.name, handled, before, body.effects@);
}

/// A registered handler is known under its name with what it handles, gives back and
/// needs, and its name has the type of a handler of these effects.
pub proof fn registered_handlers_are_known(
    c: CheckerModel,
    p: HandlerPartsModel,
    body: HandlerBody,
    run: HandlerRunModel,
)
    requires
        handler_registered(c, p, body, run).1 is Ok,
        distinct_keys(c.handlers),
        distinct_keys(c.env.bindings),
        body.effects@.len() == p.plain_args.len(),
    ensures
        ({
            let after = handler_registered(c, p, body, run).0;
            let refs = body.effects@;
            let scheme = at_key(after.env.bindings, p.name)->0;
            let info = at_key(after.handlers, p.name)->0;
            &&& at_key(after.handlers, p.name) is Some
            &&& c.current_module matches Some(module) ==> at_key(
                after.handlers,
                dotted(module, p.name),
            ) == Some(info)
            &&& info.effects.len() == refs.len()
            &&& forall|i: int|
                0 <= i < refs.len() ==> #[trigger] info.effects[i] == canonical_effect(
                    c,
                    refs[i].name@,
                )
            &&& info.needs_effects == run.effects
            &&& info.arm_spans == run.arm_spans
            &&& info.source_module == c.current_module
            &&& info.return_type matches Some((param, result))
            &&& match run.returned {
                Some((id, ty)) => param == applied(c.sub, Ty::Var(id)) && result == applied(
                    c.sub,
                    ty,
                ),
                None => param == applied(c.sub, Ty::Var(run.answer)) && result == param,
            }
            &&& at_key(after.env.bindings, p.name) is Some
            &&& scheme.forall.len() == 0
            &&& scheme.constraints.len() == 0
            &&& scheme.ty matches Ty::Con(head, effects)
            &&& head == canonical_type_name("Handler"@)
            &&& effects.len() == refs.len()
            &&& forall|i: int|
                0 <= i < refs.len() ==> #[trigger] effects[i] == Ty::Con(
                    canonical_effect(c, refs[i].name@),
                    p.plain_args[i],
                )
            &&& after.outer_named_type_vars == run.outer
        }),
{
    let info = handler_info(c, p, body, run);
    put_then_get(c.handlers, p.name, info, p.name);
    if let Some(module) = c.current_module {
        let own = put(c.handlers, p.name, info);
        put_then_get(own, dotted(module, p.name), info, dotted(module, p.name));
        put_then_get(own, dotted(module, p.name), info, p.name);
    }
    let after = handler_registered(c, p, body, run).0;
    let scheme = SchemeModel {
        forall: Seq::empty(),
        constraints: Seq::empty(),
        ty: handler_type(c, body.effects@, p.plain_args),
    };
    put_then_get(c.env.bindings, p.name, scheme, p.name);
}

proof fn handler_traits_are_known(
    c: CheckerModel,
    id: u32,
    traits: Seq<TraitRef>,
    complaints: Seq<Option<Diag>>,
    n: nat,
    v: u32,
)
    requires
        n <= traits.len(),
        distinct_keys(c.trait_state.where_bounds),
    ensures
        ({
            let after = with_handler_traits(c, id, traits, complaints, n);
            &&& distinct_keys(after.trait_state.where_bounds)
            &&& after.resolution == c.resolution
            &&& forall|name: Seq<char>| #[trigger]
                known_traits(after.trait_state.where_bounds, v).contains(name) <==> known_traits(
                    c.trait_state.where_bounds,
                    v,
                ).contains(name) || v == id && exists|j: int|
                    0 <= j < n && trait_at(c, #[trigger] traits[j]) == name
        }),
    decreases n,
{
    if n > 0 {
        let n1 = (n - 1) as nat;
        handler_traits_are_known(c, id, traits, complaints, n1, v);
        let before = with_handler_traits(c, id, traits, complaints, n1);
        let after = with_handler_traits(c, id, traits, complaints, n);
        let own = trait_at(before, traits[n - 1]);
        assert(own == trait_at(c, traits[n - 1]));
        let bounds = before.trait_state.where_bounds;
        let list = add_new(known_traits(bounds, id), seq![own]);
        put_then_get(bounds, id, list, v);
        put_then_get(bounds, id, list, id);
        assert forall|name: Seq<char>| #[trigger]
            known_traits(after.trait_state.where_bounds, v).contains(name) <==> known_traits(
                c.trait_state.where_bounds,
                v,
            ).contains(name) || v == id && exists|j: int|
                0 <= j < n && trait_at(c, #[trigger] traits[j]) == name by {
            add_new_contains(known_traits(bounds, id), seq![own], name);
            assert(seq![own].contains(name) <==> name == own) by {
                assert(seq![own][0] == own);
            }
            assert(known_traits(bounds, v).contains(name) <==> known_traits(
                c.trait_state.where_bounds,
                v,
            ).contains(name) || v == id && exists|j: int|
                0 <= j < n1 && trait_at(c, #[trigger] traits[j]) == name);
        }
    }
}

/// In the bodies of a handler, the bounds of its where clause are taken for granted: a
/// variable has just the traits that it had, and those of the bounds on it.
pub proof fn handler_bounds_are_known(
    c: CheckerModel,
    p: HandlerPartsModel,
    bounds: Seq<TraitBound>,
    n: nat,
    v: u32,
)
    requires
        n <= bounds.len(),
        distinct_keys(c.trait_state.where_bounds),
    ensures
        ({
            let after = with_handler_bounds(c, p, bounds, n);
            &&& distinct_keys(after.trait_state.where_bounds)
            &&& after.resolution == c.resolution
            &&& forall|name: Seq<char>| #[trigger]
                known_traits(after.trait_state.where_bounds, v).contains(name) <==> known_traits(
                    c.trait_state.where_bounds,
                    v,
                ).contains(name) || exists|i: int|
                    0 <= i < n && is_bound_on(c, p.vars, #[trigger] bounds[i], v, name)
        }),
    decreases n,
{
    if n > 0 {
        let n1 = (n - 1) as nat;
        handler_bounds_are_known(c, p, bounds, n1, v);
        let before = with_handler_bounds(c, p, bounds, n1);
        let b = bounds[n - 1];
        if let Some(id) = first_at(p.vars, b.type_var@) {
            let mid = crate::signatures::with_var_name(before, id, b.type_var@);
            handler_traits_are_known(
                mid,
                id,
                b.traits@,
                p.complaints[n - 1],
                b.traits@.len(),
                v,
            );
            assert(forall|t: TraitRef| #[trigger] trait_at(mid, t) == trait_at(c, t));
        }
        let after = with_handler_bounds(c, p, bounds, n);
        assert forall|name: Seq<char>| #[trigger]
            known_traits(after.trait_state.where_bounds, v).contains(name) <==> known_traits(
                c.trait_state.where_bounds,
                v,
            ).contains(name) || exists|i: int|
                0 <= i < n && is_bound_on(c, p.vars, #[trigger] bounds[i], v, name) by {
            assert(known_traits(before.trait_state.where_bounds, v).contains(name)
                <==> known_traits(c.trait_state.where_bounds, v).contains(name) || exists|i: int|
                0 <= i < n1 && is_bound_on(c, p.vars, #[trigger] bounds[i], v, name));
            let here = is_bound_on(c, p.vars, bounds[n - 1], v, name);
            if let Some(id) = first_at(p.vars, b.type_var@) {
                let mid = crate::signatures::with_var_name(before, id, b.type_var@);
                assert(here <==> v == id && exists|j: int|
                    0 <= j < b.traits@.len() && trait_at(mid, #[trigger] b.traits@[j]) == name);
                assert(known_traits(after.trait_state.where_bounds, v).contains(name)
                    <==> known_traits(mid.trait_state.where_bounds, v).contains(name) || here);
            }
        }
    }
}

/// Whether a bound is on a variable, and names a trait.
pub open spec fn is_bound_on(
    c: CheckerModel,
    vars: Seq<(Seq<char>, u32)>,
    b: TraitBound,
    v: u32,
    name: Seq<char>,
) -> bool {
    &&& first_at(vars, b.type_var@) == Some(v)
    &&& exists|j: int| 0 <= j < b.traits@.len() && trait_at(c, #[trigger] b.traits@[j]) == name
}

} // verus!
