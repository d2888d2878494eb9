//! Checking the clauses of a function.
//!
//! A function is begun with [`Checker::begin_function`] and
//! [`Checker::enter_function`]; then its bodies are inferred, as [`crate::clause_run`]
//! says; then [`Checker::check_fun_clauses`] gives its type, and the constraints that
//! the bodies led to are placed, as [`crate::scheme_run`] says. The unifications that
//! they ask for are done in between.

use vstd::prelude::*;
use crate::ast::{Decl, Pat};
use crate::checker::{Checker, CheckerModel};
use crate::codegen_info::{arrow_count, arrow_effects, collect_effects_from_fun_type};
use crate::diagnostics::{an_error_at, Diag, Diagnostic};
use crate::effects::{check_effects_via_row, effects_covered};
use crate::fun_types::{
    fun_type, function_type_with_innermost_effects, innermost_effect_row, innermost_row,
};
use crate::handlers::{
    add_outer_names, args_bound, bind_args, entry_name, entry_names, with_outer_names,
};
use crate::impl_methods::shorter;
use crate::impls::{find_ambiguous, find_names_outside, first_ambiguous, names_outside};
use crate::infos::{HandlerInfo, HandlerModel};
use crate::seqs::push_contains;
use crate::signatures::{take_for_granted, with_assumptions, Constraint};
use crate::sorting::{ordered, ordered_is, ordered_set};
use crate::subst::{acyclic, applied, applied_row, Sub, Substitution};
use crate::table::{at_key, put, without, Table};
use crate::text::{
    after_last_dot, concat3, concat4, concat5, decimal, join_text, joined, last_segment,
    number_text, text_at_most, text_eq, text_le,
};
use crate::token::Span;
use crate::type_ops::arrow_ty;
use crate::types::{EffectRow, Entry, Row, Ty, Type, group_type_models};
use crate::values::{contains_name, outcome, push_value, Dup, Same};

verus! {

/// What an annotation says of the first `n` parameters of a function: the types to
/// be unified, the rows of the arrows, the type that is left, and whether the
/// annotation has no arrow for one of them.
pub open spec fn annotated(params: Seq<u32>, ann: Ty, n: nat) -> (Seq<(Ty, Ty)>, Seq<Row>, Ty, bool)
    decreases n,
{
    if n == 0 {
        (Seq::empty(), Seq::empty(), ann, false)
    } else {
        let before = annotated(params, ann, (n - 1) as nat);
        if before.3 {
            before
        } else {
            match before.2 {
                Ty::Fun(param, ret, row) => (
                    before.0.push((Ty::Var(params[n - 1]), *param)),
                    before.1.push(row),
                    *ret,
                    false,
                ),
                _ => (before.0, before.1, before.2, true),
            }
        }
    }
}

/// The type of a function before its bodies are inferred, with the rows of its
/// annotation.
pub open spec fn pre_type(params: Seq<u32>, rows: Seq<Row>, result: Ty) -> Ty
    decreases params.len(),
{
    if params.len() == 0 {
        result
    } else {
        let last = Ty::Var(params.last());
        pre_type(
            params.drop_last(),
            rows,
            if params.len() <= rows.len() {
                Ty::Fun(Box::new(last), Box::new(result), rows[params.len() - 1])
            } else {
                arrow_ty(last, result)
            },
        )
    }
}

/// The variables of a function, and what its annotation says of them.
#[derive(Debug)]
pub struct FunStart {
    /// The variable of its result.
    pub result: u32,
    /// The variables of its parameters.
    pub params: Vec<u32>,
    /// The types to be unified, in order.
    pub pairs: Vec<(Type, Type)>,
}

#[verifier::ext_equal]
pub struct FunStartModel {
    pub result: u32,
    pub params: Seq<u32>,
    pub pairs: Seq<(Ty, Ty)>,
}

impl DeepView for FunStart {
    type V = FunStartModel;

    open spec fn deep_view(&self) -> FunStartModel {
        FunStartModel {
            result: self.result.deep_view(),
            params: self.params.deep_view(),
            pairs: self.pairs.deep_view(),
        }
    }
}

impl Dup for FunStart {
    fn dup(&self) -> (r: Self) {
        FunStart {
            result: self.result.dup(),
            params: self.params.dup(),
            pairs: self.pairs.dup(),
        }
    }
}

/// The variables of a function, and what its annotation says of them.
pub open spec fn fun_begun(
    c: CheckerModel,
    arity: nat,
    annotation: Option<Ty>,
    fun_var: Ty,
) -> FunStartModel {
    let params = Seq::new(arity, |i: int| (c.next_var + 1 + i) as u32);
    FunStartModel {
        result: c.next_var,
        params,
        pairs: match annotation {
            None => Seq::empty(),
            Some(ann) => {
                let said = annotated(params, ann, arity);
                said.0.push((Ty::Var(c.next_var), said.2)).push(
                    (fun_var, pre_type(params, said.1, Ty::Var(c.next_var))),
                )
            },
        },
    }
}

proof fn annotated_stops(params: Seq<u32>, ann: Ty, n: nat, m: nat)
    requires
        n <= m,
        annotated(params, ann, n).3,
    ensures
        annotated(params, ann, m) == annotated(params, ann, n),
    decreases m,
{
    if n < m {
        annotated_stops(params, ann, n, (m - 1) as nat);
    }
}

fn build_pre_type(params: &Vec<u32>, rows: &Vec<EffectRow>, result: Type) -> (r: Type)
    ensures
        r@ == pre_type(params@, rows.deep_view(), result@),
{
    let ghost result0 = result@;
    let ghost rs = rows.deep_view();
    let mut ty = result;
    let mut n: usize = params.len();
    assert(params@.take(n as int) =~= params@);
    while n > 0
        invariant
            n <= params.len(),
            rs == rows.deep_view(),
            pre_type(params@, rs, result0) == pre_type(params@.take(n as int), rs, ty@),
        decreases n,
    {
        broadcast use group_type_models;

        n = n - 1;
        proof {
            assert(params@.take(n + 1).drop_last() =~= params@.take(n as int));
            assert(params@.take(n + 1).last() == params@[n as int]);
            assert(rs.len() == rows.len());
        }
        let param = Type::Var(params[n]);
        if n < rows.len() {
            assert(rs[n as int] == rows@[n as int]@);
            ty = Type::Fun(Box::new(param), Box::new(ty), rows[n].dup());
        } else {
            ty = Type::arrow(param, ty);
        }
    }
    assert(params@.take(0) =~= Seq::empty());
    ty
}

impl Checker {
    /// Begins a function: fresh variables for its result and its parameters, and
    /// what its annotation says of them. `fun_var` is what recursive uses see.
    pub fn begin_function(&mut self, arity: usize, annotation: Option<&Type>, fun_var: &Type) -> (r:
        FunStart)
        requires
            old(self).next_var + arity + 1 <= u32::MAX,
        ensures
            r.deep_view() == fun_begun(
                old(self).deep_view(),
                arity as nat,
                annotation.deep_view(),
                fun_var@,
            ),
            final(self).deep_view() == (CheckerModel {
                next_var: (old(self).next_var + arity + 1) as u32,
                ..old(self).deep_view()
            }),
    {
        broadcast use group_type_models;

        let ghost c0 = self.deep_view();
        let result = self.fresh_var();
        let mut params: Vec<u32> = Vec::new();
        while params.len() < arity
            invariant
                params.len() <= arity,
                c0.next_var + arity + 1 <= u32::MAX,
                self.next_var == c0.next_var + 1 + params.len(),
                self.deep_view() == (CheckerModel { next_var: self.next_var, ..c0 }),
                forall|j: int|
                    0 <= j < params.len() ==> #[trigger] params@[j] == c0.next_var + 1 + j,
            decreases arity - params.len(),
        {
            let id = self.fresh_var();
            params.push(id);
        }
        let ghost ps = Seq::new(arity as nat, |i: int| (c0.next_var + 1 + i) as u32);
        assert(params@ =~= ps);
        assert(params.deep_view() =~= ps);
        let mut pairs: Vec<(Type, Type)> = Vec::new();
        assert(pairs.deep_view() =~= Seq::empty());
        if let Some(ann) = annotation {
            let mut rows: Vec<EffectRow> = Vec::new();
            assert(rows.deep_view() =~= Seq::empty());
            let mut rest = ann.dup();
            let mut stopped = false;
            let mut i: usize = 0;
            while i < params.len() && !stopped
                invariant
                    i <= params.len(),
                    params@ == ps,
                    !stopped ==> annotated(ps, ann@, i as nat) == (
                        pairs.deep_view(),
                        rows.deep_view(),
                        rest@,
                        false,
                    ),
                    stopped ==> annotated(ps, ann@, ps.len()) == (
                        pairs.deep_view(),
                        rows.deep_view(),
                        rest@,
                        true,
                    ),
                decreases params.len() - i + (if stopped { 0int } else { 1int }),
            {
                broadcast use group_type_models;

                let next = match &rest {
                    Type::Fun(param, ret, row) => {
                        push_value(&mut pairs, (Type::Var(params[i]), (**param).dup()));
                        push_value(&mut rows, row.dup());
                        Some((**ret).dup())
                    },
                    _ => None,
                };
                match next {
                    Some(ret) => {
                        rest = ret;
                        i = i + 1;
                    },
                    None => {
                        stopped = true;
                        proof {
                            annotated_stops(ps, ann@, (i + 1) as nat, ps.len());
                        }
                    },
                }
            }
            let pre = build_pre_type(&params, &rows, Type::Var(result));
            push_value(&mut pairs, (Type::Var(result), rest));
            push_value(&mut pairs, (fun_var.dup(), pre));
        }
        FunStart { result, params, pairs }
    }
}

/// The cache of the variables of effects, with an effect that a signature names.
pub open spec fn with_cached_effect(
    c: CheckerModel,
    cache: Seq<(Seq<char>, Map<u32, Ty>)>,
    k: (Seq<char>, Seq<Ty>),
) -> Seq<(Seq<char>, Map<u32, Ty>)> {
    match at_key(c.effects, k.0) {
        Some(info) => put(
            cache,
            k.0,
            args_bound(
                Map::empty(),
                info.type_params,
                k.1,
                shorter(info.type_params.len(), k.1.len()),
            ),
        ),
        None => cache,
    }
}

pub open spec fn with_cached_effects(
    c: CheckerModel,
    acc: Seq<(Seq<char>, Map<u32, Ty>)>,
    items: Seq<(Seq<char>, Seq<Ty>)>,
) -> Seq<(Seq<char>, Map<u32, Ty>)>
    decreases items.len(),
{
    if items.len() == 0 {
        acc
    } else {
        with_cached_effect(c, with_cached_effects(c, acc, items.drop_last()), items.last())
    }
}

fn cache_effects(
    c: &Checker,
    acc: &mut Table<String, Table<u32, Type>>,
    items: &Vec<(String, Vec<Type>)>,
)
    ensures
        final(acc).order() == with_cached_effects(
            c.deep_view(),
            old(acc).order(),
            items.deep_view(),
        ),
{
    let ghost a0 = acc.order();
    let ghost all = items.deep_view();
    let mut i: usize = 0;
    assert(all.take(0) =~= Seq::empty());
    while i < items.len()
        invariant
            i <= items.len(),
            all == items.deep_view(),
            acc.order() == with_cached_effects(c.deep_view(), a0, all.take(i as int)),
        decreases items.len() - i,
    {
        proof {
            assert(all.take(i + 1).drop_last() =~= all.take(i as int));
            assert(all.take(i + 1).last() == all[i as int]);
        }
        let k = &items[i];
        if let Some(info) = c.effects.get(&k.0) {
            let mut own: Table<u32, Type> = Table::new();
            assert(info.type_params.deep_view() =~= info.type_params@);
            bind_args(&mut own, &info.type_params, &k.1);
            acc.insert(k.0.clone(), own);
        }
        i = i + 1;
    }
    assert(all.take(i as int) =~= all);
}

/// The state in which the bodies of a function are inferred: its constraints taken
/// for granted, the type variables of its signature in scope, and the arguments of
/// its effects known.
pub open spec fn fun_entered(
    c: CheckerModel,
    name: Seq<char>,
    constraints: Seq<Constraint>,
) -> CheckerModel {
    CheckerModel {
        trait_state: with_assumptions(c.trait_state, constraints),
        outer_named_type_vars: match at_key(c.fun_type_param_vars, name) {
            Some(vars) => with_outer_names(Seq::empty(), vars),
            None => Seq::empty(),
        },
        type_param_cache: match at_key(c.fun_type_constraints, name) {
            Some(effects) => with_cached_effects(c, c.type_param_cache, effects),
            None => c.type_param_cache,
        },
        trait_forward_row_vars: Seq::empty(),
        ..c
    }
}

impl Checker {
    /// Enters the bodies of a function.
    pub fn enter_function(&mut self, name: &str, constraints: &Vec<(String, u32, Vec<Type>)>)
        ensures
            final(self).deep_view() == fun_entered(
                old(self).deep_view(),
                name@,
                constraints.deep_view(),
            ),
    {
        let cache = match self.fun_type_constraints.named(name) {
            Some(effects) => {
                let mut cache = self.type_param_cache.dup();
                cache_effects(self, &mut cache, effects);
                cache
            },
            None => self.type_param_cache.dup(),
        };
        self.type_param_cache = cache;
        let mut outer: Table<String, u32> = Table::new();
        if let Some(vars) = self.fun_type_param_vars.named(name) {
            add_outer_names(&mut outer, vars);
        }
        self.outer_named_type_vars = outer;
        let none: Vec<(u32, String)> = Vec::new();
        assert(none.deep_view() =~= Seq::empty());
        self.trait_forward_row_vars = none;
        take_for_granted(&mut self.trait_state, constraints);
    }
}

/// Whether a clause has the number of parameters of the first one.
pub open spec fn clause_checked(name: Seq<char>, arity: nat, count: nat, span: Span) -> Result<
    (),
    Diag,
> {
    if count == arity {
        Ok(())
    } else {
        Err(
            an_error_at(
                span,
                "clause for '"@ + name + "' has "@ + decimal(count) + " params, expected "@
                    + decimal(arity),
            ),
        )
    }
}

/// Checks that a clause has the number of parameters of the first one.
pub fn check_clause(name: &str, arity: usize, params: &Vec<Pat>, span: Span) -> (r: Result<
    (),
    Diagnostic,
>)
    ensures
        outcome(r) == clause_checked(name@, arity as nat, params@.len(), span),
{
    if params.len() == arity {
        return Ok(());
    }
    let count = number_text(params.len() as u64);
    let expected = number_text(arity as u64);
    let start = concat5("clause for '", name, "' has ", count.as_str(), " params, expected ");
    let message = crate::text::concat(start.as_str(), expected.as_str());
    Err(Diagnostic::error_at(span, message))
}

/// A function whose bodies are inferred.
pub struct FunBody {
    pub name: String,
    /// Where its first clause stands.
    pub span: Span,
    pub annotation: Option<Type>,
    pub annotation_span: Option<Span>,
    /// The effects that its annotation declares, where it has no parameters.
    pub declared_row: Option<EffectRow>,
    pub params: Vec<Type>,
    pub result: Type,
    /// The effects of its bodies.
    pub effects: EffectRow,
    /// The effects of the functions that it takes as parameters.
    pub absorbed: Vec<String>,
    /// What is wrong with the patterns of its clauses.
    pub coverage: Option<Diagnostic>,
    /// Variables of which a field is read, with the records that have the field.
    pub candidates: Vec<(u32, Vec<String>, Span)>,
    /// The handler that it gives back.
    pub returned_handler: Option<HandlerInfo>,
    /// What was to be forwarded before it.
    pub forwarded: Vec<(u32, String)>,
}

#[verifier::ext_equal]
pub struct FunBodyModel {
    pub name: Seq<char>,
    pub span: Span,
    pub annotation: Option<Ty>,
    pub annotation_span: Option<Span>,
    pub declared_row: Option<Row>,
    pub params: Seq<Ty>,
    pub result: Ty,
    pub effects: Row,
    pub absorbed: Seq<Seq<char>>,
    pub coverage: Option<Diag>,
    pub candidates: Seq<(u32, Seq<Seq<char>>, Span)>,
    pub returned_handler: Option<HandlerModel>,
    pub forwarded: Seq<(u32, Seq<char>)>,
}

impl DeepView for FunBody {
    type V = FunBodyModel;

    open spec fn deep_view(&self) -> FunBodyModel {
        FunBodyModel {
            name: self.name.deep_view(),
            span: self.span.deep_view(),
            annotation: self.annotation.deep_view(),
            annotation_span: self.annotation_span.deep_view(),
            declared_row: self.declared_row.deep_view(),
            params: self.params.deep_view(),
            result: self.result.deep_view(),
            effects: self.effects.deep_view(),
            absorbed: self.absorbed.deep_view(),
            coverage: self.coverage.deep_view(),
            candidates: self.candidates.deep_view(),
            returned_handler: self.returned_handler.deep_view(),
            forwarded: self.forwarded.deep_view(),
        }
    }
}

impl Dup for FunBody {
    fn dup(&self) -> (r: Self) {
        FunBody {
            name: self.name.dup(),
            span: self.span.dup(),
            annotation: self.annotation.dup(),
            annotation_span: self.annotation_span.dup(),
            declared_row: self.declared_row.dup(),
            params: self.params.dup(),
            result: self.result.dup(),
            effects: self.effects.dup(),
            absorbed: self.absorbed.dup(),
            coverage: self.coverage.dup(),
            candidates: self.candidates.dup(),
            returned_handler: self.returned_handler.dup(),
            forwarded: self.forwarded.dup(),
        }
    }
}

/// The effects that a function declares.
pub open spec fn declared_effects(sub: Sub, b: FunBodyModel) -> Option<Row> {
    match b.declared_row {
        Some(row) => Some(applied_row(sub, row)),
        None => match b.annotation {
            Some(ann) => innermost_row(applied(sub, ann)),
            None => None,
        },
    }
}

pub open spec fn row_or_empty(row: Option<Row>) -> Row {
    match row {
        Some(row) => row,
        None => Row { effects: Seq::empty(), tails: Seq::empty() },
    }
}

/// The names of the effects of a row.
pub open spec fn names_of_row(row: Row) -> Seq<Seq<char>> {
    row.effects.map_values(|e: Entry| entry_name(e))
}

/// The names that are among some others.
pub open spec fn names_within(names: Seq<Seq<char>>, others: Seq<Seq<char>>) -> Seq<Seq<char>>
    decreases names.len(),
{
    if names.len() == 0 {
        Seq::empty()
    } else {
        let before = names_within(names.drop_last(), others);
        if others.contains(names.last()) {
            before.push(names.last())
        } else {
            before
        }
    }
}

fn find_names_within(names: &Vec<String>, others: &Vec<String>) -> (r: Vec<String>)
    ensures
        r.deep_view() == names_within(names.deep_view(), others.deep_view()),
{
    let ghost all = names.deep_view();
    let mut out: Vec<String> = Vec::new();
    let mut i: usize = 0;
    assert(all.take(0) =~= Seq::empty());
    assert(out.deep_view() =~= Seq::empty());
    while i < names.len()
        invariant
            i <= names.len(),
            all == names.deep_view(),
            out.deep_view() == names_within(all.take(i as int), others.deep_view()),
        decreases names.len() - i,
    {
        proof {
            assert(all.take(i + 1).drop_last() =~= all.take(i as int));
            assert(all.take(i + 1).last() == all[i as int]);
        }
        if contains_name(others, names[i].as_str()) {
            push_value(&mut out, names[i].clone());
        }
        i = i + 1;
    }
    assert(all.take(i as int) =~= all);
    out
}

/// The effects of functions that a function takes as parameters, and that it neither
/// handles nor declares, in order.
pub open spec fn unhandled_effects(sub: Sub, b: FunBodyModel) -> Seq<Seq<char>> {
    let declared = names_of_row(row_or_empty(declared_effects(sub, b)));
    let own = names_of_row(applied_row(sub, b.effects));
    ordered(names_outside(names_within(b.absorbed, own), declared).to_set())
}

/// Where an annotation stands, or else the first clause.
pub open spec fn annotation_place(b: FunBodyModel) -> Span {
    match b.annotation_span {
        Some(span) => span,
        None => b.span,
    }
}

pub open spec fn unhandled_error(b: FunBodyModel, unhandled: Seq<Seq<char>>) -> Diag {
    let one = unhandled.len() == 1;
    let shown = joined(unhandled, ", "@);
    an_error_at(
        annotation_place(b),
        "`"@ + b.name + "` calls a callback parameter whose declared effect"@ + (if one {
            ""@
        } else {
            "s"@
        }) + " {"@ + shown + "} "@ + (if one {
            "is"@
        } else {
            "are"@
        }) + " not handled; either wrap the callback call in `with`, or add `needs {"@ + shown
            + "}` to the annotation to forward the effect"@ + (if one {
            ""@
        } else {
            "s"@
        }) + " to the caller"@,
    )
}

/// The variables that leave the effects along a function type open.
pub open spec fn open_row_vars(t: Ty) -> Seq<u32>
    decreases t,
{
    match t {
        Ty::Fun(_, ret, row) => tail_vars(row.tails) + open_row_vars(*ret),
        _ => Seq::empty(),
    }
}

pub open spec fn tail_vars(tails: Seq<Ty>) -> Seq<u32>
    decreases tails.len(),
{
    if tails.len() == 0 {
        Seq::empty()
    } else {
        match tails.last() {
            Ty::Var(id) => tail_vars(tails.drop_last()).push(id),
            _ => tail_vars(tails.drop_last()),
        }
    }
}

/// Whether a row variable is open and not a tail of a declared row.
pub open spec fn is_dropped(sub: Sub, declared: Row, id: u32) -> bool {
    &&& applied(sub, Ty::Var(id)) is Var
    &&& !is_declared_tail(sub, declared, applied(sub, Ty::Var(id)))
}

pub open spec fn is_declared_tail(sub: Sub, declared: Row, t: Ty) -> bool {
    exists|i: int| 0 <= i < declared.tails.len() && applied(sub, #[trigger] declared.tails[i]) == t
}

/// Whether a function takes a function with open effects and does not forward them.
pub open spec fn drops_rows(sub: Sub, declared: Row, params: Seq<Ty>) -> bool {
    exists|i: int| 0 <= i < params.len() && #[trigger] drops_rows_of(sub, declared, params[i])
}

pub open spec fn drops_rows_of(sub: Sub, declared: Row, param: Ty) -> bool {
    let vars = open_row_vars(applied(sub, param));
    exists|i: int| 0 <= i < vars.len() && is_dropped(sub, declared, #[trigger] vars[i])
}

fn collect_tail_vars(tails: &Vec<Type>, out: &mut Vec<u32>)
    ensures
        final(out)@ == old(out)@ + tail_vars(tails.deep_view()),
{
    let ghost all = tails.deep_view();
    let ghost out0 = out@;
    let mut i: usize = 0;
    assert(all.take(0) =~= Seq::empty());
    assert(out0 =~= out0 + tail_vars(all.take(0)));
    while i < tails.len()
        invariant
            i <= tails.len(),
            all == tails.deep_view(),
            out@ == out0 + tail_vars(all.take(i as int)),
        decreases tails.len() - i,
    {
        broadcast use group_type_models;

        proof {
            assert(all.take(i + 1).drop_last() =~= all.take(i as int));
            assert(all.take(i + 1).last() == all[i as int]);
        }
        if let Type::Var(id) = &tails[i] {
            let ghost before = tail_vars(all.take(i as int));
            out.push(*id);
            assert(out@ =~= out0 + before.push(*id));
        }
        i = i + 1;
    }
    assert(all.take(i as int) =~= all);
}

fn collect_open_row_vars(ty: &Type, out: &mut Vec<u32>)
    ensures
        final(out)@ == old(out)@ + open_row_vars(ty@),
    decreases ty,
{
    broadcast use group_type_models;

    let ghost out0 = out@;
    match ty {
        Type::Fun(_, ret, row) => {
            collect_tail_vars(&row.tails, out);
            collect_open_row_vars(ret, out);
            assert(out@ =~= out0 + (tail_vars(row@.tails) + open_row_vars(ret@)));
        },
        _ => {
            assert(out0 =~= out0 + Seq::<u32>::empty());
        },
    }
}

fn declares_tail(sub: &Substitution, declared: &EffectRow, t: &Type) -> (r: bool)
    requires
        acyclic(sub@),
    ensures
        r == is_declared_tail(sub@, declared@, t@),
{
    broadcast use group_type_models;

    let ghost tails = declared@.tails;
    assert(tails == declared.tails.deep_view());
    let mut i: usize = 0;
    while i < declared.tails.len()
        invariant
            i <= declared.tails.len(),
            acyclic(sub@),
            tails == declared.tails.deep_view(),
            tails == declared@.tails,
            forall|j: int| 0 <= j < i ==> applied(sub@, #[trigger] tails[j]) != t@,
        decreases declared.tails.len() - i,
    {
        assert(tails[i as int] == declared.tails@[i as int]@);
        let own = sub.apply(&declared.tails[i]);
        if own.same(t) {
            return true;
        }
        i = i + 1;
    }
    false
}

fn param_drops_rows(sub: &Substitution, declared: &EffectRow, param: &Type) -> (r: bool)
    requires
        acyclic(sub@),
    ensures
        r == drops_rows_of(sub@, declared@, param@),
{
    let mut vars: Vec<u32> = Vec::new();
    let resolved = sub.apply(param);
    collect_open_row_vars(&resolved, &mut vars);
    let ghost all = open_row_vars(applied(sub@, param@));
    assert(vars@ =~= all);
    let mut i: usize = 0;
    while i < vars.len()
        invariant
            i <= vars.len(),
            acyclic(sub@),
            vars@ == all,
            all == open_row_vars(applied(sub@, param@)),
            forall|j: int| 0 <= j < i ==> !is_dropped(sub@, declared@, #[trigger] all[j]),
        decreases vars.len() - i,
    {
        broadcast use group_type_models;

        let t = sub.apply(&Type::Var(vars[i]));
        let is_var = match &t {
            Type::Var(_) => true,
            _ => false,
        };
        if is_var && !declares_tail(sub, declared, &t) {
            assert(is_dropped(sub@, declared@, all[i as int]));
            return true;
        }
        i = i + 1;
    }
    false
}

fn any_drops_rows(sub: &Substitution, declared: &EffectRow, params: &Vec<Type>) -> (r: bool)
    requires
        acyclic(sub@),
    ensures
        r == drops_rows(sub@, declared@, params.deep_view()),
{
    let ghost all = params.deep_view();
    let mut i: usize = 0;
    while i < params.len()
        invariant
            i <= params.len(),
            acyclic(sub@),
            all == params.deep_view(),
            forall|j: int| 0 <= j < i ==> !#[trigger] drops_rows_of(sub@, declared@, all[j]),
        decreases params.len() - i,
    {
        assert(all[i as int] == params@[i as int]@);
        if param_drops_rows(sub, declared, &params[i]) {
            return true;
        }
        i = i + 1;
    }
    false
}

/// Whether one pair of a variable and a trait comes before another.
pub open spec fn comes_before(a: (u32, Seq<char>), b: (u32, Seq<char>)) -> bool {
    a.0 < b.0 || (a.0 == b.0 && a.1 != b.1 && text_le(a.1, b.1))
}

/// The first variable, in order, whose impls may have any effects and that the
/// declared row does not forward, with the trait.
pub open spec fn first_unforwarded(sub: Sub, declared: Row, vars: Seq<(u32, Seq<char>)>) -> Option<
    (u32, Seq<char>),
>
    decreases vars.len(),
{
    if vars.len() == 0 {
        None
    } else {
        let before = first_unforwarded(sub, declared, vars.drop_last());
        match applied(sub, Ty::Var(vars.last().0)) {
            Ty::Var(id) => if is_declared_tail(sub, declared, Ty::Var(id)) {
                before
            } else {
                let own = (id, vars.last().1);
                match before {
                    Some(other) => if comes_before(own, other) {
                        Some(own)
                    } else {
                        before
                    },
                    None => Some(own),
                }
            },
            _ => before,
        }
    }
}

fn find_unforwarded(sub: &Substitution, declared: &EffectRow, vars: &Vec<(u32, String)>) -> (r:
    Option<(u32, String)>)
    requires
        acyclic(sub@),
    ensures
        r.deep_view() == first_unforwarded(sub@, declared@, vars.deep_view()),
{
    let ghost all = vars.deep_view();
    let mut found: Option<(u32, String)> = None;
    let mut i: usize = 0;
    assert(all.take(0) =~= Seq::empty());
    while i < vars.len()
        invariant
            i <= vars.len(),
            acyclic(sub@),
            all == vars.deep_view(),
            found.deep_view() == first_unforwarded(sub@, declared@, all.take(i as int)),
        decreases vars.len() - i,
    {
        broadcast use group_type_models;

        proof {
            assert(all.take(i + 1).drop_last() =~= all.take(i as int));
            assert(all.take(i + 1).last() == all[i as int]);
        }
        let t = sub.apply(&Type::Var(vars[i].0));
        if let Type::Var(id) = &t {
            if !declares_tail(sub, declared, &t) {
                let earlier = match &found {
                    Some(other) => {
                        *id < other.0 || (*id == other.0 && !text_eq(
                            vars[i].1.as_str(),
                            other.1.as_str(),
                        ) && text_at_most(vars[i].1.as_str(), other.1.as_str()))
                    },
                    None => true,
                };
                if earlier {
                    found = Some((*id, vars[i].1.clone()));
                }
            }
        }
        i = i + 1;
    }
    assert(all.take(i as int) =~= all);
    found
}

/// The source name of the variable of a signature that stands for a variable.
pub open spec fn signature_var_name(sub: Sub, vars: Seq<(Seq<char>, u32)>, id: u32) -> Option<
    Seq<char>,
>
    decreases vars.len(),
{
    if vars.len() == 0 {
        None
    } else {
        match signature_var_name(sub, vars.drop_last(), id) {
            Some(name) => Some(name),
            None => if applied(sub, Ty::Var(vars.last().1)) == Ty::Var(id) {
                Some(vars.last().0)
            } else {
                None
            },
        }
    }
}

proof fn signature_var_name_stays(sub: Sub, vars: Seq<(Seq<char>, u32)>, id: u32, n: int)
    requires
        0 <= n <= vars.len(),
        signature_var_name(sub, vars.take(n), id) is Some,
    ensures
        signature_var_name(sub, vars, id) == signature_var_name(sub, vars.take(n), id),
    decreases vars.len(),
{
    if n < vars.len() {
        assert(vars.drop_last().take(n) =~= vars.take(n));
        signature_var_name_stays(sub, vars.drop_last(), id, n);
    } else {
        assert(vars.take(n) =~= vars);
    }
}

fn find_signature_var(sub: &Substitution, vars: &Vec<(String, u32)>, id: u32) -> (r: Option<String>)
    requires
        acyclic(sub@),
    ensures
        r.deep_view() == signature_var_name(sub@, vars.deep_view(), id),
{
    let ghost all = vars.deep_view();
    let mut i: usize = 0;
    assert(all.take(0) =~= Seq::empty());
    while i < vars.len()
        invariant
            i <= vars.len(),
            acyclic(sub@),
            all == vars.deep_view(),
            signature_var_name(sub@, all.take(i as int), id) is None,
        decreases vars.len() - i,
    {
        broadcast use group_type_models;

        proof {
            assert(all.take(i + 1).drop_last() =~= all.take(i as int));
            assert(all.take(i + 1).last() == all[i as int]);
        }
        if let Type::Var(other) = sub.apply(&Type::Var(vars[i].1)) {
            if other == id {
                proof {
                    signature_var_name_stays(sub@, all, id, i + 1);
                }
                return Some(vars[i].0.clone());
            }
        }
        i = i + 1;
    }
    assert(all.take(i as int) =~= all);
    None
}

/// The name by which a complaint speaks of a variable.
pub open spec fn shown_forward_var(c: CheckerModel, name: Seq<char>, id: u32) -> Seq<char> {
    match at_key(c.fun_type_param_vars, name) {
        Some(vars) => match signature_var_name(c.sub, vars, id) {
            Some(var) => var,
            None => "a"@,
        },
        None => "a"@,
    }
}

pub open spec fn unforwarded_error(c: CheckerModel, b: FunBodyModel, k: (u32, Seq<char>)) -> Diag {
    let var = shown_forward_var(c, b.name, k.0);
    an_error_at(
        annotation_place(b),
        "`"@ + b.name + "` calls an open-row method of `"@ + last_segment(k.1) + " "@ + var
            + "` but does not forward its effects; add `needs {.."@ + var
            + "}` to the annotation to forward `"@ + var + "`'s effects to the caller"@,
    )
}

/// The complaint about the effects of an annotated function: effects of its
/// parameters that it neither handles nor declares, patterns, open effects that it
/// does not forward, and effects that it does not declare.
pub open spec fn annotated_checked(c: CheckerModel, b: FunBodyModel) -> Option<Diag> {
    let declared = row_or_empty(declared_effects(c.sub, b));
    let unhandled = unhandled_effects(c.sub, b);
    if unhandled.len() > 0 {
        Some(unhandled_error(b, unhandled))
    } else if b.coverage is Some {
        b.coverage
    } else if drops_rows(c.sub, declared, b.params) {
        Some(
            an_error_at(
                annotation_place(b),
                "`"@ + b.name
                    + "` accepts a callback with an open effect row but does not forward it; every `..` row variable on a callback parameter must also appear in the function's own `needs` clause"@,
            ),
        )
    } else {
        match first_unforwarded(c.sub, declared, c.trait_forward_row_vars) {
            Some(k) => Some(unforwarded_error(c, b, k)),
            None => match effects_covered(
                applied_row(c.sub, b.effects),
                applied_row(c.sub, declared),
                "function '"@ + b.name + "'"@,
                b.span,
            ) {
                Ok(_) => None,
                Err(d) => Some(d),
            },
        }
    }
}

/// The effects that a function declares and neither has nor forwards through its
/// result, in order.
pub open spec fn dead_effects(sub: Sub, b: FunBodyModel) -> Seq<Seq<char>> {
    let declared = names_of_row(row_or_empty(declared_effects(sub, b)));
    let own = names_of_row(applied_row(sub, b.effects));
    let forwarded = ordered(arrow_effects(applied(sub, b.result)).to_set());
    ordered(names_outside(names_outside(declared, own), forwarded).to_set())
}

/// The state after the bodies of a function are checked.
pub open spec fn with_fun_checked(c: CheckerModel, b: FunBodyModel) -> CheckerModel {
    let dead = dead_effects(c.sub, b);
    CheckerModel {
        unused_effects: if dead.len() == 0 {
            c.unused_effects
        } else {
            c.unused_effects.push((b.annotation_span->0, b.name, dead))
        },
        trait_forward_row_vars: b.forwarded,
        ..c
    }
}

/// The type of a function whose bodies are checked, or the first complaint. Its
/// effects are those that it declares, or else those of its bodies.
pub open spec fn fun_checked(c: CheckerModel, b: FunBodyModel) -> (CheckerModel, Result<Ty, Diag>) {
    let complaint = if b.annotation is Some {
        annotated_checked(c, b)
    } else {
        b.coverage
    };
    match complaint {
        Some(d) => (c, Err(d)),
        None => {
            let c1 = with_fun_checked(c, b);
            match first_ambiguous(c.sub, b.candidates) {
                Some(d) => (c1, Err(d)),
                None => (
                    CheckerModel {
                        handler_funs: match b.returned_handler {
                            Some(info) => put(c1.handler_funs, b.name, info),
                            None => without(c1.handler_funs, b.name),
                        },
                        ..c1
                    },
                    Ok(
                        fun_type(
                            b.params,
                            b.result,
                            match declared_effects(c.sub, b) {
                                Some(row) => row,
                                None => applied_row(c.sub, b.effects),
                            },
                        ),
                    ),
                ),
            }
        },
    }
}

fn row_names(row: &EffectRow) -> (r: Vec<String>)
    ensures
        r.deep_view() == names_of_row(row@),
{
    proof {
        crate::types::row_model_parts(*row);
    }
    entry_names(&row.effects)
}

fn in_order(names: &Vec<String>) -> (r: Vec<String>)
    ensures
        r.deep_view() == ordered(names.deep_view().to_set()),
{
    let out = ordered_set(names);
    proof {
        ordered_is(out.deep_view(), names.deep_view().to_set());
    }
    out
}

impl Checker {
    fn declared_row_of(&self, b: &FunBody) -> (r: Option<EffectRow>)
        requires
            acyclic(self.sub@),
        ensures
            r.deep_view() == declared_effects(self.sub@, b.deep_view()),
    {
        match &b.declared_row {
            Some(row) => Some(self.sub.apply_effect_row(row)),
            None => match &b.annotation {
                Some(ann) => {
                    let ann = self.sub.apply(ann);
                    innermost_effect_row(&ann)
                },
                None => None,
            },
        }
    }

    fn unforwarded_complaint(
        &self,
        b: &FunBody,
        place: Span,
        id: u32,
        name: &str,
    ) -> (r: Diagnostic)
        requires
            acyclic(self.sub@),
            place == annotation_place(b.deep_view()),
        ensures
            r@ == unforwarded_error(self.deep_view(), b.deep_view(), (id, name@)),
    {
        let found = match self.fun_type_param_vars.get(&b.name) {
            Some(vars) => find_signature_var(&self.sub, vars, id),
            None => None,
        };
        let var = match found {
            Some(var) => var,
            None => "a".to_owned(),
        };
        let start = concat5(
            "`",
            b.name.as_str(),
            "` calls an open-row method of `",
            after_last_dot(name),
            " ",
        );
        let start = concat5(
            start.as_str(),
            var.as_str(),
            "` but does not forward its effects; add `needs {..",
            var.as_str(),
            "}` to the annotation to forward `",
        );
        let message = concat3(start.as_str(), var.as_str(), "`'s effects to the caller");
        Diagnostic::error_at(place, message)
    }

    fn unhandled_complaint(&self, b: &FunBody, place: Span, unhandled: &Vec<String>) -> (r:
        Diagnostic)
        requires
            place == annotation_place(b.deep_view()),
        ensures
            r@ == unhandled_error(b.deep_view(), unhandled.deep_view()),
    {
        assert(unhandled.deep_view().len() == unhandled.len());
        let shown = join_text(unhandled, ", ");
        let one = unhandled.len() == 1;
        let plural = if one {
            ""
        } else {
            "s"
        };
        let verb = if one {
            "is"
        } else {
            "are"
        };
        let start = concat5(
            "`",
            b.name.as_str(),
            "` calls a callback parameter whose declared effect",
            plural,
            " {",
        );
        let start = concat5(
            start.as_str(),
            shown.as_str(),
            "} ",
            verb,
            " not handled; either wrap the callback call in `with`, or add `needs {",
        );
        let message = concat5(
            start.as_str(),
            shown.as_str(),
            "}` to the annotation to forward the effect",
            plural,
            " to the caller",
        );
        Diagnostic::error_at(place, message)
    }

    fn check_annotated(&self, b: &FunBody) -> (r: Option<Diagnostic>)
        requires
            acyclic(self.sub@),
        ensures
            r.deep_view() == annotated_checked(self.deep_view(), b.deep_view()),
    {
        let place = match b.annotation_span {
            Some(span) => span,
            None => b.span,
        };
        let own = self.sub.apply_effect_row(&b.effects);
        let declared = match self.declared_row_of(b) {
            Some(row) => row,
            None => EffectRow::empty(),
        };
        let own_names = row_names(&own);
        let declared_names = row_names(&declared);
        let within = find_names_within(&b.absorbed, &own_names);
        let outside = find_names_outside(&within, &declared_names);
        let unhandled = in_order(&outside);
        assert(unhandled.deep_view().len() == unhandled.len());
        if unhandled.len() > 0 {
            return Some(self.unhandled_complaint(b, place, &unhandled));
        }
        if let Some(d) = &b.coverage {
            return Some(d.dup());
        }
        if any_drops_rows(&self.sub, &declared, &b.params) {
            let message = concat3(
                "`",
                b.name.as_str(),
                "` accepts a callback with an open effect row but does not forward it; every `..` row variable on a callback parameter must also appear in the function's own `needs` clause",
            );
            return Some(Diagnostic::error_at(place, message));
        }
        if let Some(k) = find_unforwarded(&self.sub, &declared, &self.trait_forward_row_vars) {
            return Some(self.unforwarded_complaint(b, place, k.0, k.1.as_str()));
        }
        let label = concat3("function '", b.name.as_str(), "'");
        match check_effects_via_row(&self.sub, &own, &declared, label.as_str(), b.span) {
            Ok(_) => None,
            Err(d) => Some(d),
        }
    }

    fn find_dead_effects(&self, b: &FunBody) -> (r: Vec<String>)
        requires
            acyclic(self.sub@),
        ensures
            r.deep_view() == dead_effects(self.sub@, b.deep_view()),
    {
        let own = self.sub.apply_effect_row(&b.effects);
        let declared = match self.declared_row_of(b) {
            Some(row) => row,
            None => EffectRow::empty(),
        };
        let own_names = row_names(&own);
        let declared_names = row_names(&declared);
        let result = self.sub.apply(&b.result);
        let forwarded = collect_effects_from_fun_type(&result);
        let outside = find_names_outside(&declared_names, &own_names);
        let outside = find_names_outside(&outside, &forwarded);
        in_order(&outside)
    }

    /// Checks a function whose bodies are inferred, and gives back its type.
    pub fn check_fun_clauses(&mut self, b: &FunBody) -> (r: Result<Type, Diagnostic>)
        requires
            acyclic(old(self).sub@),
            dead_effects(old(self).sub@, b.deep_view()).len() > 0 ==> b.annotation_span is Some,
        ensures
            (final(self).deep_view(), outcome(r)) == fun_checked(
                old(self).deep_view(),
                b.deep_view(),
            ),
    {
        let ghost c0 = self.deep_view();
        if b.annotation.is_some() {
            if let Some(d) = self.check_annotated(b) {
                return Err(d);
            }
        } else if let Some(d) = &b.coverage {
            return Err(d.dup());
        }
        let dead = self.find_dead_effects(b);
        assert(dead.deep_view().len() == dead.len());
        if dead.len() > 0 {
            if let Some(span) = b.annotation_span {
                push_value(&mut self.unused_effects, (span, b.name.clone(), dead));
            }
        }
        self.trait_forward_row_vars = b.forwarded.dup();
        if let Some(d) = find_ambiguous(&self.sub, &b.candidates) {
            return Err(d);
        }
        match &b.returned_handler {
            Some(info) => {
                self.handler_funs.insert(b.name.clone(), info.dup());
            },
            None => {
                self.handler_funs.remove(&b.name);
            },
        }
        let row = match self.declared_row_of(b) {
            Some(row) => row,
            None => self.sub.apply_effect_row(&b.effects),
        };
        Ok(function_type_with_innermost_effects(&b.params, b.result.dup(), row))
    }
}

/// The complaint that a function is not of the type of its annotation.
pub fn annotation_mismatch(name: &str, span: Span, message: &str) -> (r: Diagnostic)
    ensures
        r@ == an_error_at(
            span,
            "type annotation mismatch for '"@ + name@ + "': "@ + message@,
        ),
{
    let text = concat4("type annotation mismatch for '", name, "': ", message);
    Diagnostic::error_at(span, text)
}

/// Whether the patterns of a clause can be missed.
pub open spec fn can_fail(params: Seq<Pat>) -> bool {
    exists|i: int| 0 <= i < params.len() && (#[trigger] params[i]) is Other
}

/// Whether the patterns of a clause can be missed: one of them is neither a
/// variable nor a wildcard.
pub fn clause_can_fail(params: &Vec<Pat>) -> (r: bool)
    ensures
        r == can_fail(params@),
{
    let mut i: usize = 0;
    while i < params.len()
        invariant
            i <= params.len(),
            forall|j: int| 0 <= j < i ==> !((#[trigger] params@[j]) is Other),
        decreases params.len() - i,
    {
        match &params[i] {
            Pat::Other { .. } => {
                return true;
            },
            _ => {},
        }
        i = i + 1;
    }
    false
}

/// Whether a type is one whose values patterns tell apart.
pub open spec fn has_cases(c: CheckerModel, t: Ty) -> bool {
    match applied(c.sub, t) {
        Ty::Con(name, _) => crate::table::has_key(c.adt_variants, name) || name
            == crate::names::canonical_type_name("Tuple"@),
        _ => false,
    }
}

/// What the exhaustiveness of clauses came to: for each clause whether it covers
/// anything that those before it do not; whether anything is left, and examples of
/// that.
pub struct Coverage {
    pub useful: Vec<bool>,
    pub open: bool,
    pub witnesses: Vec<String>,
}

/// Whether a clause has a guard. What such a clause covers is not relied on, for the
/// guard may fail.
pub open spec fn is_guarded(clause: Decl) -> bool {
    clause->FunBinding_guard is Some
}

/// The clauses from `start` up to `at` that the patterns of the one at `at` are held
/// against: those without a guard. At the end of the clauses, these are the ones that
/// have to cover everything.
pub open spec fn clauses_before(program: Seq<Decl>, start: usize, at: usize) -> Seq<usize>
    decreases at,
{
    if at <= start {
        Seq::empty()
    } else {
        let before = clauses_before(program, start, (at - 1) as usize);
        if is_guarded(program[at - 1]) {
            before
        } else {
            before.push((at - 1) as usize)
        }
    }
}

/// The clauses that the patterns of another are held against.
pub fn unguarded_before(program: &Vec<Decl>, start: usize, at: usize) -> (r: Vec<usize>)
    requires
        start <= at <= program.len(),
        forall|i: int| start <= i < at ==> (#[trigger] program@[i]) is FunBinding,
    ensures
        r@ == clauses_before(program@, start, at),
{
    let mut out: Vec<usize> = Vec::new();
    let mut i: usize = start;
    while i < at
        invariant
            start <= i <= at <= program.len(),
            forall|j: int| start <= j < at ==> (#[trigger] program@[j]) is FunBinding,
            out@ == clauses_before(program@, start, i),
        decreases at - i,
    {
        assert(program@[i as int] is FunBinding);
        if let Decl::FunBinding { guard, .. } = &program[i] {
            if guard.is_none() {
                out.push(i);
            }
        }
        i = i + 1;
    }
    out
}

/// A clause is held against just the clauses before it that have no guard.
pub proof fn guarded_clauses_cover_nothing(program: Seq<Decl>, start: usize, at: usize, i: usize)
    ensures
        clauses_before(program, start, at).contains(i) <==> start <= i < at && !is_guarded(
            program[i as int],
        ),
    decreases at,
{
    if at > start {
        let m = (at - 1) as usize;
        let before = clauses_before(program, start, m);
        guarded_clauses_cover_nothing(program, start, m, i);
        push_contains(before, m, i);
    }
}

/// Where each clause stands, whether it has a guard, and whether it covers anything
/// new.
pub open spec fn clauses_covered(
    program: Seq<Decl>,
    start: usize,
    end: usize,
    useful: Seq<bool>,
) -> Seq<(Span, bool, bool)> {
    Seq::new(
        (end - start) as nat,
        |i: int|
            (
                program[start + i]->FunBinding_span,
                is_guarded(program[start + i]),
                useful[i],
            ),
    )
}

fn cover_clauses(program: &Vec<Decl>, start: usize, end: usize, useful: &Vec<bool>) -> (r: Vec<
    (Span, bool, bool),
>)
    requires
        start <= end <= program.len(),
        useful.len() == end - start,
        forall|i: int| start <= i < end ==> (#[trigger] program@[i]) is FunBinding,
    ensures
        r@ == clauses_covered(program@, start, end, useful@),
{
    let mut out: Vec<(Span, bool, bool)> = Vec::new();
    let mut i: usize = start;
    while i < end
        invariant
            start <= i <= end <= program.len(),
            useful.len() == end - start,
            forall|j: int| start <= j < end ==> (#[trigger] program@[j]) is FunBinding,
            out.len() == i - start,
            forall|j: int|
                0 <= j < i - start ==> #[trigger] out@[j] == clauses_covered(
                    program@,
                    start,
                    end,
                    useful@,
                )[j],
        decreases end - i,
    {
        assert(program@[i as int] is FunBinding);
        if let Decl::FunBinding { guard, span, .. } = &program[i] {
            out.push((*span, guard.is_some(), useful[i - start]));
        }
        i = i + 1;
    }
    assert(out@ =~= clauses_covered(program@, start, end, useful@));
    out
}

/// The first clause without a guard that covers nothing new.
pub open spec fn first_unreachable(clauses: Seq<(Span, bool, bool)>) -> Option<Span>
    decreases clauses.len(),
{
    if clauses.len() == 0 {
        None
    } else {
        match first_unreachable(clauses.drop_last()) {
            Some(span) => Some(span),
            None => if !clauses.last().1 && !clauses.last().2 {
                Some(clauses.last().0)
            } else {
                None
            },
        }
    }
}

proof fn first_unreachable_stays(clauses: Seq<(Span, bool, bool)>, n: int)
    requires
        0 <= n <= clauses.len(),
        first_unreachable(clauses.take(n)) is Some,
    ensures
        first_unreachable(clauses) == first_unreachable(clauses.take(n)),
    decreases clauses.len(),
{
    if n < clauses.len() {
        assert(clauses.drop_last().take(n) =~= clauses.take(n));
        first_unreachable_stays(clauses.drop_last(), n);
    } else {
        assert(clauses.take(n) =~= clauses);
    }
}

/// The complaint about the patterns of clauses.
pub open spec fn coverage_checked(
    name: Seq<char>,
    clauses: Seq<(Span, bool, bool)>,
    open: bool,
    witnesses: Seq<Seq<char>>,
) -> Option<Diag> {
    match first_unreachable(clauses) {
        Some(span) => Some(
            an_error_at(
                span,
                "unreachable clause for '"@ + name + "': all cases already covered"@,
            ),
        ),
        None => if !open {
            None
        } else if witnesses.len() == 0 {
            Some(an_error_at(clauses[0].0, "non-exhaustive clauses for '"@ + name + "'"@))
        } else {
            Some(
                an_error_at(
                    clauses[0].0,
                    "non-exhaustive clauses for '"@ + name + "': missing "@ + joined(
                        witnesses,
                        ", "@,
                    ),
                ),
            )
        },
    }
}

impl Checker {
    /// Whether one of the parameters of a function is of a type whose values
    /// patterns tell apart.
    pub fn any_has_cases(&self, params: &Vec<Type>) -> (r: bool)
        requires
            acyclic(self.sub@),
        ensures
            r == exists|i: int|
                0 <= i < params.len() && has_cases(
                    self.deep_view(),
                    #[trigger] params.deep_view()[i],
                ),
    {
        let ghost c = self.deep_view();
        let ghost all = params.deep_view();
        let mut i: usize = 0;
        while i < params.len()
            invariant
                i <= params.len(),
                acyclic(self.sub@),
                c == self.deep_view(),
                all == params.deep_view(),
                forall|j: int| 0 <= j < i ==> !has_cases(c, #[trigger] all[j]),
            decreases params.len() - i,
        {
            broadcast use group_type_models;

            assert(all[i as int] == params@[i as int]@);
            if let Type::Con(name, _) = self.sub.apply(&params[i]) {
                if self.adt_variants.contains_key(&name) || text_eq(
                    name.as_str(),
                    crate::names::canonicalize_type_name("Tuple"),
                ) {
                    assert(has_cases(c, all[i as int]));
                    return true;
                }
            }
            i = i + 1;
        }
        false
    }

    /// The complaint about the patterns of the clauses of a function, which stand from
    /// `start` up to `end`, if any. Only functions with a parameter whose values patterns
    /// tell apart have one.
    pub fn check_fun_exhaustiveness(
        &self,
        name: &str,
        program: &Vec<Decl>,
        start: usize,
        end: usize,
        params: &Vec<Type>,
        coverage: &Coverage,
    ) -> (r: Result<(), Diagnostic>)
        requires
            acyclic(self.sub@),
            start < end <= program.len(),
            forall|i: int| start <= i < end ==> (#[trigger] program@[i]) is FunBinding,
            coverage.useful.len() == end - start,
        ensures
            outcome(r) == if exists|i: int|
                0 <= i < params.len() && has_cases(
                    self.deep_view(),
                    #[trigger] params.deep_view()[i],
                ) {
                match coverage_checked(
                    name@,
                    clauses_covered(program@, start, end, coverage.useful@),
                    coverage.open,
                    coverage.witnesses.deep_view(),
                ) {
                    Some(d) => Err(d),
                    None => Ok(()),
                }
            } else {
                Ok(())
            },
    {
        if !self.any_has_cases(params) {
            return Ok(());
        }
        let clauses = cover_clauses(program, start, end, &coverage.useful);
        let ghost all = clauses@;
        let mut i: usize = 0;
        assert(all.take(0) =~= Seq::empty());
        while i < clauses.len()
            invariant
                i <= clauses.len(),
                all == clauses@,
                clauses@ == clauses_covered(program@, start, end, coverage.useful@),
                exists|i: int|
                    0 <= i < params.len() && has_cases(
                        self.deep_view(),
                        #[trigger] params.deep_view()[i],
                    ),
                first_unreachable(all.take(i as int)) is None,
            decreases clauses.len() - i,
        {
            proof {
                assert(all.take(i + 1).drop_last() =~= all.take(i as int));
                assert(all.take(i + 1).last() == all[i as int]);
            }
            if !clauses[i].1 && !clauses[i].2 {
                let message = concat3(
                    "unreachable clause for '",
                    name,
                    "': all cases already covered",
                );
                proof {
                    first_unreachable_stays(all, i + 1);
                }
                return Err(Diagnostic::error_at(clauses[i].0, message));
            }
            i = i + 1;
        }
        assert(all.take(i as int) =~= all);
        assert(coverage.witnesses.deep_view().len() == coverage.witnesses.len());
        if !coverage.open {
            return Ok(());
        }
        let message = if coverage.witnesses.len() == 0 {
            concat3("non-exhaustive clauses for '", name, "'")
        } else {
            let shown = join_text(&coverage.witnesses, ", ");
            concat4("non-exhaustive clauses for '", name, "': missing ", shown.as_str())
        };
        Err(Diagnostic::error_at(clauses[0].0, message))
    }
}

/// A function with an annotation has no effects but those that it declares, where
/// it declares a closed row.
pub proof fn annotated_functions_declare_their_effects(c: CheckerModel, b: FunBodyModel, i: int)
    requires
        b.annotation is Some,
        fun_checked(c, b).1 is Ok,
        applied_row(c.sub, row_or_empty(declared_effects(c.sub, b))).tails.len() == 0,
        0 <= i < applied_row(c.sub, b.effects).effects.len(),
    ensures
        crate::effects::names_effect(
            applied_row(c.sub, row_or_empty(declared_effects(c.sub, b))).effects,
            applied_row(c.sub, b.effects).effects[i],
        ),
{
    crate::effects::closed_rows_cover_what_they_name(
        applied_row(c.sub, b.effects),
        applied_row(c.sub, row_or_empty(declared_effects(c.sub, b))),
        "function '"@ + b.name + "'"@,
        b.span,
    );
}

proof fn unreachable_is_none(clauses: Seq<(Span, bool, bool)>)
    ensures
        first_unreachable(clauses) is None <==> forall|i: int|
            0 <= i < clauses.len() ==> (#[trigger] clauses[i]).1 || clauses[i].2,
    decreases clauses.len(),
{
    if clauses.len() > 0 {
        let init = clauses.drop_last();
        unreachable_is_none(init);
        assert(forall|i: int| 0 <= i < init.len() ==> #[trigger] clauses[i] == init[i]);
        assert(forall|i: int| 0 <= i < init.len() ==> clauses[i] == #[trigger] init[i]);
        assert(clauses[clauses.len() - 1] == clauses.last());
    }
}

/// The patterns of clauses are accepted just where each clause without a guard covers
/// something new, and nothing is left open.
pub proof fn accepted_clauses_are_useful_and_exhaustive(
    name: Seq<char>,
    program: Seq<Decl>,
    start: usize,
    end: usize,
    useful: Seq<bool>,
    open: bool,
    witnesses: Seq<Seq<char>>,
)
    requires
        start <= end <= program.len(),
        useful.len() == end - start,
    ensures
        coverage_checked(
            name,
            clauses_covered(program, start, end, useful),
            open,
            witnesses,
        ) is None <==> !open && forall|i: int|
            start <= i < end ==> is_guarded(#[trigger] program[i]) || useful[i - start],
{
    let clauses = clauses_covered(program, start, end, useful);
    unreachable_is_none(clauses);
    if first_unreachable(clauses) is None {
        assert forall|i: int| start <= i < end implies is_guarded(#[trigger] program[i])
            || useful[i - start] by {
            assert(clauses[i - start].1 || clauses[i - start].2);
        }
    }
    if forall|i: int| start <= i < end ==> is_guarded(#[trigger] program[i]) || useful[i - start] {
        assert forall|i: int| 0 <= i < clauses.len() implies (#[trigger] clauses[i]).1
            || clauses[i].2 by {
            assert(is_guarded(program[start + i]) || useful[i]);
        }
    }
}

/// A function that is accepted has the effects that it declares, or else those of its
/// bodies, on its innermost arrow, and its patterns are not complained about.
pub proof fn accepted_functions_have_their_effects(c: CheckerModel, b: FunBodyModel)
    requires
        fun_checked(c, b).1 is Ok,
    ensures
        b.coverage is None,
        fun_checked(c, b).1->Ok_0 == fun_type(
            b.params,
            b.result,
            match (b.declared_row, b.annotation) {
                (Some(row), _) => applied_row(c.sub, row),
                (None, Some(ann)) => match innermost_row(applied(c.sub, ann)) {
                    Some(row) => row,
                    None => applied_row(c.sub, b.effects),
                },
                (None, None) => applied_row(c.sub, b.effects),
            },
        ),
        b.annotation is Some ==> !drops_rows(
            c.sub,
            row_or_empty(declared_effects(c.sub, b)),
            b.params,
        ),
{
}

/// An annotation is held to a function: each parameter of the function is to be unified
/// with that of the annotation in its place, as far as it has arrows, and the result
/// with what is left. Their variables are fresh and no two the same.
pub proof fn annotations_are_held_to_functions(
    c: CheckerModel,
    arity: nat,
    ann: Ty,
    fun_var: Ty,
    i: int,
)
    requires
        c.next_var + 1 + arity <= u32::MAX,
        0 <= i < arity,
        arrow_count(ann) >= arity,
    ensures
        ({
            let start = fun_begun(c, arity, Some(ann), fun_var);
            &&& start.params.len() == arity
            &&& start.pairs.len() == arity + 2
            &&& start.pairs[i] == (Ty::Var(start.params[i]), param_at(ann, i as nat))
            &&& start.pairs[arity as int] == (Ty::Var(start.result), rest_after(ann, arity))
            &&& start.pairs[(arity + 1) as int].0 == fun_var
            &&& start.result < start.params[i]
            &&& forall|j: int|
                0 <= j < arity && j != i ==> #[trigger] start.params[j] != start.params[i]
        }),
{
    let params = Seq::new(arity, |i: int| (c.next_var + 1 + i) as u32);
    annotated_parameters(params, ann, arity);
    let said = annotated(params, ann, arity);
    assert(said.0[i] == (Ty::Var(params[i]), param_at(ann, i as nat)));
}

/// What is left of a type after some arrows.
pub open spec fn rest_after(t: Ty, n: nat) -> Ty
    decreases n,
{
    if n == 0 {
        t
    } else {
        match rest_after(t, (n - 1) as nat) {
            Ty::Fun(_, ret, _) => *ret,
            other => other,
        }
    }
}

/// The parameter of an arrow of a type.
pub open spec fn param_at(t: Ty, n: nat) -> Ty {
    match rest_after(t, n) {
        Ty::Fun(param, _, _) => *param,
        other => other,
    }
}

proof fn rest_has_arrows(t: Ty, n: nat)
    requires
        n <= arrow_count(t),
    ensures
        arrow_count(rest_after(t, n)) == arrow_count(t) - n,
    decreases n,
{
    if n > 0 {
        rest_has_arrows(t, (n - 1) as nat);
    }
}

proof fn annotated_parameters(params: Seq<u32>, ann: Ty, n: nat)
    requires
        n <= params.len(),
        n <= arrow_count(ann),
    ensures
        ({
            let said = annotated(params, ann, n);
            &&& !said.3
            &&& said.0.len() == n
            &&& said.1.len() == n
            &&& said.2 == rest_after(ann, n)
            &&& forall|i: int|
                0 <= i < n ==> #[trigger] said.0[i] == (
                    Ty::Var(params[i]),
                    param_at(ann, i as nat),
                )
        }),
    decreases n,
{
    if n > 0 {
        let n1 = (n - 1) as nat;
        annotated_parameters(params, ann, n1);
        rest_has_arrows(ann, n1);
        let before = annotated(params, ann, n1);
        let said = annotated(params, ann, n);
        assert forall|i: int| 0 <= i < n implies #[trigger] said.0[i] == (
            Ty::Var(params[i]),
            param_at(ann, i as nat),
        ) by {
            if i < n1 {
                assert(said.0[i] == before.0[i]);
            }
        }
    }
}

} // verus!
