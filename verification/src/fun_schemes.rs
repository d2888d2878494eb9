//! The schemes of functions, and the constraints that become part of them.
//!
//! The constraints that the bodies of a function led to are placed one by one with
//! [`Checker::place_constraint`], in the order that [`crate::scheme_run`] says: some
//! become part of the scheme, the others stay pending.
//! [`Checker::build_fun_scheme`] then builds the scheme.

use vstd::prelude::*;
use crate::checker::{
    Checker, CheckerModel, EvidenceModel, PendingConstraint, PendingModel, TraitEvidence,
    TraitStateModel,
};
use crate::constraints::{all_applied, apply_to_all};
use crate::diagnostics::{an_error_at, Diag, Diagnostic};
use crate::schemes::{Scheme, SchemeModel};
use crate::seqs::{add_new, add_new_contains, add_new_one, filter_contains, push_contains, push_new};
use crate::signatures::Constraint;
use crate::subst::{acyclic, applied, Sub, Substitution};
use crate::supertraits::{covering, where_var_name};
use crate::text::{after_last_dot, concat5, last_segment, text_eq};
use crate::token::Span;
use crate::type_vars::{collect_free_vars, free_vars_in_types, vars_of, vars_of_all, with_free};
use crate::types::{Ty, Type, group_type_models};
use crate::values::{contains_value, outcome, push_value, reached, Dup};

verus! {

/// A function whose constraints are being placed.
#[derive(Debug)]
pub struct FunContext {
    pub name: String,
    /// The variables of its type.
    pub type_vars: Vec<u32>,
    pub annotated: bool,
    /// The constraints that its signature declares.
    pub where_constraints: Vec<(String, u32, Vec<Type>)>,
}

#[verifier::ext_equal]
pub struct FunContextModel {
    pub name: Seq<char>,
    pub type_vars: Seq<u32>,
    pub annotated: bool,
    pub where_constraints: Seq<(Seq<char>, u32, Seq<Ty>)>,
}

impl DeepView for FunContext {
    type V = FunContextModel;

    open spec fn deep_view(&self) -> FunContextModel {
        FunContextModel {
            name: self.name.deep_view(),
            type_vars: self.type_vars.deep_view(),
            annotated: self.annotated.deep_view(),
            where_constraints: self.where_constraints.deep_view(),
        }
    }
}

impl Dup for FunContext {
    fn dup(&self) -> (r: Self) {
        FunContext {
            name: self.name.dup(),
            type_vars: self.type_vars.dup(),
            annotated: self.annotated.dup(),
            where_constraints: self.where_constraints.dup(),
        }
    }
}

/// What is known of a constraint on a representation of a type.
#[derive(Debug)]
pub struct GenericUse {
    /// Whether it is one.
    pub generic: bool,
    /// The record that the representation is of.
    pub record: Option<Type>,
}

#[verifier::ext_equal]
pub struct GenericUseModel {
    pub generic: bool,
    pub record: Option<Ty>,
}

impl DeepView for GenericUse {
    type V = GenericUseModel;

    open spec fn deep_view(&self) -> GenericUseModel {
        GenericUseModel {
            generic: self.generic.deep_view(),
            record: self.record.deep_view(),
        }
    }
}

impl Dup for GenericUse {
    fn dup(&self) -> (r: Self) {
        GenericUse {
            generic: self.generic.dup(),
            record: self.record.dup(),
        }
    }
}

/// Where a constraint goes.
pub enum Placement {
    /// It is dealt with.
    Done,
    /// It becomes part of the scheme.
    Inferred((String, u32, Vec<Type>, Span)),
    /// The variable is to be unified with the record; then the constraint stays
    /// pending.
    Record(u32, Type),
    /// The types are to be unified, in order; then a declared constraint settles it.
    Declared(u32, Vec<(Type, Type)>),
    /// It does not hold.
    Failed(Diagnostic),
}

#[verifier::ext_equal]
pub enum PlacementModel {
    Done,
    Inferred((Seq<char>, u32, Seq<Ty>, Span)),
    Record(u32, Ty),
    Declared(u32, Seq<(Ty, Ty)>),
    Failed(Diag),
}

impl DeepView for Placement {
    type V = PlacementModel;

    open spec fn deep_view(&self) -> PlacementModel {
        match self {
            Placement::Done => PlacementModel::Done,
            Placement::Inferred(k) => PlacementModel::Inferred(
                (k.0@, k.1, k.2.deep_view(), k.3),
            ),
            Placement::Record(id, ty) => PlacementModel::Record(*id, ty@),
            Placement::Declared(id, pairs) => PlacementModel::Declared(*id, pairs.deep_view()),
            Placement::Failed(d) => PlacementModel::Failed(d@),
        }
    }
}

/// The variables of types, solved ones applied.
pub open spec fn with_applied_vars(sub: Sub, vars: Seq<u32>, t: Ty) -> Seq<u32> {
    with_free(Seq::empty(), vars, vars_of(applied(sub, t)))
}

pub open spec fn with_all_applied_vars(sub: Sub, acc: Seq<u32>, items: Seq<Ty>) -> Seq<u32>
    decreases items.len(),
{
    if items.len() == 0 {
        acc
    } else {
        with_applied_vars(sub, with_all_applied_vars(sub, acc, items.drop_last()), items.last())
    }
}

fn collect_applied_vars(sub: &Substitution, acc: &mut Vec<u32>, items: &Vec<Type>)
    requires
        acyclic(sub@),
    ensures
        final(acc)@ == with_all_applied_vars(sub@, old(acc)@, items.deep_view()),
{
    let ghost a0 = acc@;
    let ghost all = items.deep_view();
    let mut i: usize = 0;
    assert(all.take(0) =~= Seq::empty());
    while i < items.len()
        invariant
            i <= items.len(),
            all == items.deep_view(),
            acc@ == with_all_applied_vars(sub@, a0, all.take(i as int)),
            acyclic(sub@),
        decreases items.len() - i,
    {
        proof {
            assert(all.take(i + 1).drop_last() =~= all.take(i as int));
            assert(all.take(i + 1).last() == all[i as int]);
        }
        assert(all[i as int] == items@[i as int]@);
        let t = sub.apply(&items[i]);
        collect_free_vars(&t, acc);
        i = i + 1;
    }
    assert(all.take(i as int) =~= all);
}

/// Whether all of some variables are among others.
pub open spec fn all_among(vars: Seq<u32>, others: Seq<u32>) -> bool {
    forall|i: int| 0 <= i < vars.len() ==> others.contains(#[trigger] vars[i])
}

fn are_among(vars: &Vec<u32>, others: &Vec<u32>) -> (r: bool)
    ensures
        r == all_among(vars@, others@),
{
    let mut i: usize = 0;
    while i < vars.len()
        invariant
            i <= vars.len(),
            forall|j: int| 0 <= j < i ==> others@.contains(#[trigger] vars@[j]),
        decreases vars.len() - i,
    {
        assert(others.deep_view() =~= others@);
        if !contains_value(others, &vars[i]) {
            return false;
        }
        i = i + 1;
    }
    true
}

/// Whether a bound variable that stands for a variable has a trait.
pub open spec fn is_bound(
    c: CheckerModel,
    name: Seq<char>,
    id: u32,
    bounds: Seq<(u32, Seq<Seq<char>>)>,
) -> bool {
    exists|i: int| 0 <= i < bounds.len() && #[trigger] bound_covers(c, name, id, bounds[i])
}

pub open spec fn bound_covers(
    c: CheckerModel,
    name: Seq<char>,
    id: u32,
    b: (u32, Seq<Seq<char>>),
) -> bool {
    covering(c, b.1, name) is Some && applied(c.sub, Ty::Var(b.0)) == Ty::Var(id)
}

/// The first declared constraint on a trait.
pub open spec fn declared_on(constraints: Seq<Constraint>, name: Seq<char>) -> Option<Constraint>
    decreases constraints.len(),
{
    if constraints.len() == 0 {
        None
    } else {
        match declared_on(constraints.drop_last(), name) {
            Some(k) => Some(k),
            None => if constraints.last().0 == name {
                Some(constraints.last())
            } else {
                None
            },
        }
    }
}

proof fn declared_on_stays(constraints: Seq<Constraint>, name: Seq<char>, n: int)
    requires
        0 <= n <= constraints.len(),
        declared_on(constraints.take(n), name) is Some,
    ensures
        declared_on(constraints, name) == declared_on(constraints.take(n), name),
    decreases constraints.len(),
{
    if n < constraints.len() {
        assert(constraints.drop_last().take(n) =~= constraints.take(n));
        declared_on_stays(constraints.drop_last(), name, n);
    } else {
        assert(constraints.take(n) =~= constraints);
    }
}

fn find_declared<'a>(constraints: &'a Vec<(String, u32, Vec<Type>)>, name: &str) -> (r: Option<
    &'a (String, u32, Vec<Type>),
>)
    ensures
        r.deep_view() == declared_on(constraints.deep_view(), name@),
{
    let ghost all = constraints.deep_view();
    let mut i: usize = 0;
    assert(all.take(0) =~= Seq::empty());
    while i < constraints.len()
        invariant
            i <= constraints.len(),
            all == constraints.deep_view(),
            declared_on(all.take(i as int), name@) is None,
        decreases constraints.len() - i,
    {
        proof {
            assert(all.take(i + 1).drop_last() =~= all.take(i as int));
            assert(all.take(i + 1).last() == all[i as int]);
        }
        if text_eq(constraints[i].0.as_str(), name) {
            proof {
                declared_on_stays(all, name@, i + 1);
            }
            return Some(&constraints[i]);
        }
        i = i + 1;
    }
    assert(all.take(i as int) =~= all);
    None
}

/// Two lists side by side, as far as both go.
pub open spec fn side_by_side(a: Seq<Ty>, b: Seq<Ty>) -> Seq<(Ty, Ty)> {
    Seq::new(crate::impl_methods::shorter(a.len(), b.len()), |i: int| (a[i], b[i]))
}

/// The state with a constraint pending.
pub open spec fn with_kept(c: CheckerModel, p: PendingModel) -> CheckerModel {
    CheckerModel {
        trait_state: TraitStateModel {
            pending_constraints: c.trait_state.pending_constraints.push(p),
            ..c.trait_state
        },
        ..c
    }
}

/// The state with evidence that a bound variable settles a constraint.
pub open spec fn with_var_evidence(c: CheckerModel, p: PendingModel, id: u32) -> CheckerModel {
    CheckerModel {
        evidence: c.evidence.push(
            EvidenceModel {
                node_id: p.node_id,
                trait_name: p.trait_name,
                resolved_type: None,
                type_var_name: where_var_name(c, p.trait_name, id),
                trait_type_args: all_applied(c.sub, p.trait_type_args),
            },
        ),
        ..c
    }
}

/// Where a constraint goes that the bodies of a function led to. One on a type that
/// is known stays pending. One on a variable is settled by a bound, or by a
/// declared constraint where the variable is not of the type of the function; where
/// it is, it becomes part of the scheme, unless the signature should have declared
/// it.
pub open spec fn placed(
    c: CheckerModel,
    f: FunContextModel,
    p: PendingModel,
    g: GenericUseModel,
) -> (CheckerModel, PlacementModel) {
    match applied(c.sub, p.ty) {
        Ty::Var(id) => {
            let on_var = PendingModel { ty: Ty::Var(id), ..p };
            if g.generic && g.record is Some {
                (c, PlacementModel::Record(id, g.record->0))
            } else if g.generic && !all_among(
                with_all_applied_vars(c.sub, Seq::empty(), p.trait_type_args),
                f.type_vars,
            ) {
                (with_kept(c, on_var), PlacementModel::Done)
            } else if is_bound(c, p.trait_name, id, c.trait_state.where_bounds) {
                (with_var_evidence(c, p, id), PlacementModel::Done)
            } else if !f.type_vars.contains(id) {
                match declared_on(f.where_constraints, p.trait_name) {
                    Some(k) => (
                        c,
                        PlacementModel::Declared(
                            id,
                            seq![(Ty::Var(id), applied(c.sub, Ty::Var(k.1)))] + side_by_side(
                                p.trait_type_args,
                                k.2,
                            ),
                        ),
                    ),
                    None => (with_kept(c, on_var), PlacementModel::Done),
                }
            } else if f.annotated {
                (
                    c,
                    PlacementModel::Failed(
                        an_error_at(
                            p.span,
                            "trait "@ + p.trait_name
                                + " required but not declared in where clause for '"@ + f.name
                                + "'"@,
                        ),
                    ),
                )
            } else {
                (
                    with_var_evidence(c, p, id),
                    PlacementModel::Inferred(
                        (p.trait_name, id, all_applied(c.sub, p.trait_type_args), p.span),
                    ),
                )
            }
        },
        _ => (with_kept(c, p), PlacementModel::Done),
    }
}

fn pair_up(a: &Vec<Type>, b: &Vec<Type>, out: &mut Vec<(Type, Type)>)
    ensures
        final(out).deep_view() == old(out).deep_view() + side_by_side(
            a.deep_view(),
            b.deep_view(),
        ),
{
    let ghost out0 = out.deep_view();
    let ghost all = side_by_side(a.deep_view(), b.deep_view());
    let mut i: usize = 0;
    assert(out0 =~= out0 + all.take(0));
    while i < a.len() && i < b.len()
        invariant
            i <= a.len(),
            i <= b.len(),
            all == side_by_side(a.deep_view(), b.deep_view()),
            out.deep_view() == out0 + all.take(i as int),
        decreases a.len() - i,
    {
        push_value(out, (a[i].dup(), b[i].dup()));
        i = i + 1;
        proof {
            assert(all[i - 1] == (a@[i - 1]@, b@[i - 1]@));
            assert(all.take(i as int) =~= all.take(i - 1).push(all[i - 1]));
            assert(out.deep_view() =~= out0 + all.take(i as int));
        }
    }
    assert(all.take(i as int) =~= all);
}

impl Checker {
    /// Takes the constraints that came after the first `before`.
    pub fn take_new_constraints(&mut self, before: usize) -> (r: Vec<PendingConstraint>)
        requires
            before <= old(self).trait_state.pending_constraints.len(),
        ensures
            r.deep_view() == old(self).deep_view().trait_state.pending_constraints.skip(
                before as int,
            ),
            final(self).deep_view() == (CheckerModel {
                trait_state: TraitStateModel {
                    pending_constraints: old(
                        self,
                    ).deep_view().trait_state.pending_constraints.take(before as int),
                    ..old(self).deep_view().trait_state
                },
                ..old(self).deep_view()
            }),
    {
        let ghost c0 = self.deep_view();
        let ghost all = c0.trait_state.pending_constraints;
        let pending = &self.trait_state.pending_constraints;
        let mut kept: Vec<PendingConstraint> = Vec::new();
        let mut out: Vec<PendingConstraint> = Vec::new();
        let mut i: usize = 0;
        while i < pending.len()
            invariant
                i <= pending.len(),
                before <= pending.len(),
                all == pending.deep_view(),
                kept.len() == (if i < before {
                    i as int
                } else {
                    before as int
                }),
                out.len() == (if i < before {
                    0
                } else {
                    i - before
                }),
                forall|j: int| 0 <= j < kept.len() ==> #[trigger] kept.deep_view()[j] == all[j],
                forall|j: int|
                    0 <= j < out.len() ==> #[trigger] out.deep_view()[j] == all[before + j],
            decreases pending.len() - i,
        {
            assert(all[i as int] == pending@[i as int].deep_view());
            if i < before {
                push_value(&mut kept, pending[i].dup());
            } else {
                push_value(&mut out, pending[i].dup());
            }
            i = i + 1;
        }
        proof {
            assert(kept.deep_view() =~= all.take(before as int));
            assert(out.deep_view() =~= all.skip(before as int));
        }
        self.trait_state.pending_constraints = kept;
        out
    }

    fn has_bound(&self, name: &str, id: u32) -> (r: bool)
        requires
            acyclic(self.sub@),
        ensures
            r == is_bound(self.deep_view(), name@, id, self.deep_view().trait_state.where_bounds),
    {
        let ghost c = self.deep_view();
        let bounds = &self.trait_state.where_bounds;
        let ghost all = bounds.order();
        let n = bounds.len();
        let mut i: usize = 0;
        while i < n
            invariant
                i <= n,
                n == all.len(),
                acyclic(self.sub@),
                c == self.deep_view(),
                all == bounds.order(),
                all == c.trait_state.where_bounds,
                forall|j: int| 0 <= j < i ==> !#[trigger] bound_covers(c, name@, id, all[j]),
            decreases n - i,
        {
            broadcast use group_type_models;

            if self.covering_trait(bounds.value(i), name).is_some() {
                if let Type::Var(other) = self.sub.apply(&Type::Var(*bounds.key(i))) {
                    if other == id {
                        assert(bound_covers(c, name@, id, all[i as int]));
                        return true;
                    }
                }
            }
            i = i + 1;
        }
        false
    }

    /// Leaves a constraint pending.
    pub fn keep_constraint(&mut self, p: PendingConstraint)
        ensures
            final(self).deep_view() == with_kept(old(self).deep_view(), p.deep_view()),
    {
        push_value(&mut self.trait_state.pending_constraints, p);
    }

    fn add_var_evidence(&mut self, p: &PendingConstraint, id: u32)
        requires
            acyclic(old(self).sub@),
        ensures
            final(self).deep_view() == with_var_evidence(
                old(self).deep_view(),
                p.deep_view(),
                id,
            ),
    {
        let evidence = TraitEvidence {
            node_id: p.node_id,
            trait_name: p.trait_name.clone(),
            resolved_type: None,
            type_var_name: self.resolve_where_var_name(p.trait_name.as_str(), id),
            trait_type_args: apply_to_all(&self.sub, &p.trait_type_args),
        };
        push_value(&mut self.evidence, evidence);
    }

    /// Records that a declared constraint settles a constraint on a variable that
    /// was unified with the variable of the declared one.
    pub fn settle_declared(&mut self, p: &PendingConstraint, id: u32)
        requires
            acyclic(old(self).sub@),
        ensures
            final(self).deep_view() == with_var_evidence(
                old(self).deep_view(),
                p.deep_view(),
                match applied(old(self).sub@, Ty::Var(id)) {
                    Ty::Var(other) => other,
                    _ => id,
                },
            ),
    {
        broadcast use group_type_models;

        let id = match self.sub.apply(&Type::Var(id)) {
            Type::Var(other) => other,
            _ => id,
        };
        self.add_var_evidence(p, id);
    }

    /// Says where a constraint goes that the bodies of a function led to.
    pub fn place_constraint(
        &mut self,
        f: &FunContext,
        p: &PendingConstraint,
        g: &GenericUse,
    ) -> (r: Placement)
        requires
            acyclic(old(self).sub@),
        ensures
            (final(self).deep_view(), r.deep_view()) == placed(
                old(self).deep_view(),
                f.deep_view(),
                p.deep_view(),
                g.deep_view(),
            ),
    {
        broadcast use group_type_models;

        assert(f.type_vars.deep_view() =~= f.type_vars@);
        let id = match self.sub.apply(&p.ty) {
            Type::Var(id) => id,
            _ => {
                self.keep_constraint(p.dup());
                return Placement::Done;
            },
        };
        if g.generic {
            if let Some(record) = &g.record {
                return Placement::Record(id, record.dup());
            }
            let mut vars: Vec<u32> = Vec::new();
            assert(vars@ =~= Seq::empty());
            collect_applied_vars(&self.sub, &mut vars, &p.trait_type_args);
            if !are_among(&vars, &f.type_vars) {
                let mut p = p.dup();
                p.ty = Type::Var(id);
                self.keep_constraint(p);
                return Placement::Done;
            }
        }
        if self.has_bound(p.trait_name.as_str(), id) {
            self.add_var_evidence(p, id);
            return Placement::Done;
        }
        if !contains_value(&f.type_vars, &id) {
            if let Some(k) = find_declared(&f.where_constraints, p.trait_name.as_str()) {
                let mut pairs: Vec<(Type, Type)> = Vec::new();
                let target = self.sub.apply(&Type::Var(k.1));
                push_value(&mut pairs, (Type::Var(id), target));
                proof {
                    assert(pairs.deep_view() =~= seq![
                        (Ty::Var(id), applied(self.sub@, Ty::Var(k.1))),
                    ]);
                }
                pair_up(&p.trait_type_args, &k.2, &mut pairs);
                return Placement::Declared(id, pairs);
            }
            let mut p = p.dup();
            p.ty = Type::Var(id);
            self.keep_constraint(p);
            return Placement::Done;
        }
        if f.annotated {
            let message = concat5(
                "trait ",
                p.trait_name.as_str(),
                " required but not declared in where clause for '",
                f.name.as_str(),
                "'",
            );
            return Placement::Failed(Diagnostic::error_at(p.span, message));
        }
        self.add_var_evidence(p, id);
        let extras = apply_to_all(&self.sub, &p.trait_type_args);
        Placement::Inferred((p.trait_name.clone(), id, extras, p.span))
    }
}

/// The variables that a declared constraint speaks of.
pub open spec fn with_declared_vars(sub: Sub, vars: Seq<u32>, k: Constraint) -> Seq<u32> {
    with_all_applied_vars(
        sub,
        match applied(sub, Ty::Var(k.1)) {
            Ty::Var(id) => add_new(vars, seq![id]),
            _ => vars,
        },
        k.2,
    )
}

pub open spec fn with_all_declared_vars(sub: Sub, acc: Seq<u32>, items: Seq<Constraint>) -> Seq<u32>
    decreases items.len(),
{
    if items.len() == 0 {
        acc
    } else {
        with_declared_vars(sub, with_all_declared_vars(sub, acc, items.drop_last()), items.last())
    }
}

fn collect_declared_vars(
    sub: &Substitution,
    acc: &mut Vec<u32>,
    items: &Vec<(String, u32, Vec<Type>)>,
)
    requires
        acyclic(sub@),
    ensures
        final(acc)@ == with_all_declared_vars(sub@, old(acc)@, items.deep_view()),
{
    let ghost a0 = acc@;
    let ghost all = items.deep_view();
    let mut i: usize = 0;
    assert(all.take(0) =~= Seq::empty());
    while i < items.len()
        invariant
            i <= items.len(),
            all == items.deep_view(),
            acc@ == with_all_declared_vars(sub@, a0, all.take(i as int)),
            acyclic(sub@),
        decreases items.len() - i,
    {
        proof {
            assert(all.take(i + 1).drop_last() =~= all.take(i as int));
            assert(all.take(i + 1).last() == all[i as int]);
        }
        broadcast use group_type_models;

        let k = &items[i];
        assert(all[i as int] == k.deep_view());
        if let Type::Var(id) = sub.apply(&Type::Var(k.1)) {
            proof {
                add_new_one(acc@, id);
                assert(acc.deep_view() =~= acc@);
            }
            push_new(acc, id);
            assert(acc.deep_view() =~= acc@);
        }
        collect_applied_vars(sub, acc, &k.2);
        i = i + 1;
    }
    assert(all.take(i as int) =~= all);
}

/// A scheme with a constraint and the variables of its further arguments.
pub open spec fn with_scheme_constraint(s: SchemeModel, k: Constraint) -> SchemeModel {
    SchemeModel {
        forall: with_free(Seq::empty(), s.forall, vars_of_all(k.2)),
        constraints: s.constraints.push(k),
        ..s
    }
}

/// A scheme with a declared constraint, where its variable is still one.
pub open spec fn with_declared(sub: Sub, s: SchemeModel, k: Constraint) -> SchemeModel {
    match applied(sub, Ty::Var(k.1)) {
        Ty::Var(id) => with_scheme_constraint(
            SchemeModel { forall: add_new(s.forall, seq![id]), ..s },
            (k.0, id, all_applied(sub, k.2)),
        ),
        _ => s,
    }
}

pub open spec fn with_all_declared(
    sub: Sub,
    acc: SchemeModel,
    items: Seq<Constraint>,
) -> SchemeModel
    decreases items.len(),
{
    if items.len() == 0 {
        acc
    } else {
        with_declared(sub, with_all_declared(sub, acc, items.drop_last()), items.last())
    }
}

fn add_scheme_constraint(s: &mut Scheme, name: String, id: u32, extras: Vec<Type>)
    ensures
        final(s).deep_view() == with_scheme_constraint(
            old(s).deep_view(),
            (name@, id, extras.deep_view()),
        ),
{
    let none: Vec<u32> = Vec::new();
    assert(none@ =~= Seq::empty());
    assert(s.forall.deep_view() =~= s.forall@);
    free_vars_in_types(&extras, &none, &mut s.forall);
    assert(s.forall.deep_view() =~= s.forall@);
    push_value(&mut s.constraints, (name, id, extras));
}

fn add_declared(sub: &Substitution, acc: &mut Scheme, items: &Vec<(String, u32, Vec<Type>)>)
    requires
        acyclic(sub@),
    ensures
        final(acc).deep_view() == with_all_declared(sub@, old(acc).deep_view(), items.deep_view()),
{
    let ghost a0 = acc.deep_view();
    let ghost all = items.deep_view();
    let mut i: usize = 0;
    assert(all.take(0) =~= Seq::empty());
    while i < items.len()
        invariant
            i <= items.len(),
            all == items.deep_view(),
            acc.deep_view() == with_all_declared(sub@, a0, all.take(i as int)),
            acyclic(sub@),
        decreases items.len() - i,
    {
        proof {
            assert(all.take(i + 1).drop_last() =~= all.take(i as int));
            assert(all.take(i + 1).last() == all[i as int]);
        }
        broadcast use group_type_models;

        let k = &items[i];
        assert(all[i as int] == k.deep_view());
        if let Type::Var(id) = sub.apply(&Type::Var(k.1)) {
            let extras = apply_to_all(sub, &k.2);
            proof {
                add_new_one(acc.forall.deep_view(), id);
            }
            push_new(&mut acc.forall, id);
            add_scheme_constraint(acc, k.0.clone(), id, extras);
        }
        i = i + 1;
    }
    assert(all.take(i as int) =~= all);
}

/// Whether a scheme has a constraint on a variable.
pub open spec fn scheme_constrains(s: SchemeModel, name: Seq<char>, id: u32) -> bool {
    exists|i: int|
        0 <= i < s.constraints.len() && (#[trigger] s.constraints[i]).0 == name
            && s.constraints[i].1 == id
}

fn has_scheme_constraint(s: &Scheme, name: &str, id: u32) -> (r: bool)
    ensures
        r == scheme_constrains(s.deep_view(), name@, id),
{
    let ghost all = s.constraints.deep_view();
    let mut i: usize = 0;
    while i < s.constraints.len()
        invariant
            i <= s.constraints.len(),
            all == s.constraints.deep_view(),
            forall|j: int| 0 <= j < i ==> (#[trigger] all[j]).0 != name@ || all[j].1 != id,
        decreases s.constraints.len() - i,
    {
        assert(all[i as int] == s.constraints@[i as int].deep_view());
        if text_eq(s.constraints[i].0.as_str(), name) && s.constraints[i].1 == id {
            assert(s.deep_view().constraints[i as int] == all[i as int]);
            return true;
        }
        i = i + 1;
    }
    false
}

/// A scheme with a constraint that the bodies led to. Its variable must be of the
/// type of the function, or of a declared constraint.
pub open spec fn with_inferred(
    name: Seq<char>,
    type_vars: Seq<u32>,
    where_vars: Seq<u32>,
    s: SchemeModel,
    k: (Seq<char>, u32, Seq<Ty>, Span),
) -> Result<SchemeModel, Diag> {
    if !type_vars.contains(k.1) && !where_vars.contains(k.1) {
        Err(
            an_error_at(
                k.3,
                "ambiguous type variable requires "@ + last_segment(k.0)
                    + " but has no concrete type in '"@ + name + "'"@,
            ),
        )
    } else if s.forall.contains(k.1) && !scheme_constrains(s, k.0, k.1) {
        Ok(with_scheme_constraint(s, (k.0, k.1, k.2)))
    } else {
        Ok(s)
    }
}

pub open spec fn with_all_inferred(
    name: Seq<char>,
    type_vars: Seq<u32>,
    where_vars: Seq<u32>,
    acc: SchemeModel,
    items: Seq<(Seq<char>, u32, Seq<Ty>, Span)>,
) -> Result<SchemeModel, Diag>
    decreases items.len(),
{
    if items.len() == 0 {
        Ok(acc)
    } else {
        match with_all_inferred(name, type_vars, where_vars, acc, items.drop_last()) {
            Ok(acc) => with_inferred(name, type_vars, where_vars, acc, items.last()),
            Err(e) => Err(e),
        }
    }
}

/// The first failure is the outcome.
proof fn with_all_inferred_stops(
    name: Seq<char>,
    type_vars: Seq<u32>,
    where_vars: Seq<u32>,
    acc: SchemeModel,
    items: Seq<(Seq<char>, u32, Seq<Ty>, Span)>,
    n: int,
)
    requires
        0 <= n <= items.len(),
        with_all_inferred(name, type_vars, where_vars, acc, items.take(n)) is Err,
    ensures
        with_all_inferred(name, type_vars, where_vars, acc, items) == with_all_inferred(
            name,
            type_vars,
            where_vars,
            acc,
            items.take(n),
        ),
    decreases items.len(),
{
    if n < items.len() {
        assert(items.drop_last().take(n) =~= items.take(n));
        with_all_inferred_stops(name, type_vars, where_vars, acc, items.drop_last(), n);
    } else {
        assert(items.take(n) =~= items);
    }
}

fn add_inferred(
    name: &str,
    type_vars: &Vec<u32>,
    where_vars: &Vec<u32>,
    acc: &mut Scheme,
    items: &Vec<(String, u32, Vec<Type>, Span)>,
) -> (r: Result<(), Diagnostic>)
    ensures
        with_all_inferred(
            name@,
            type_vars@,
            where_vars@,
            old(acc).deep_view(),
            items.deep_view(),
        ) == reached(r, final(acc).deep_view()),
{
    let ghost a0 = acc.deep_view();
    let ghost all = items.deep_view();
    let mut i: usize = 0;
    assert(all.take(0) =~= Seq::empty());
    while i < items.len()
        invariant
            i <= items.len(),
            all == items.deep_view(),
            a0 == old(acc).deep_view(),
            with_all_inferred(
                name@,
                type_vars@,
                where_vars@,
                a0,
                all.take(i as int),
            ) == Ok::<_, Diag>(acc.deep_view()),
        decreases items.len() - i,
    {
        proof {
            assert(all.take(i + 1).drop_last() =~= all.take(i as int));
            assert(all.take(i + 1).last() == all[i as int]);
        }
        let k = &items[i];
        proof {
            assert(all[i as int] == k.deep_view());
            assert(type_vars.deep_view() =~= type_vars@);
            assert(where_vars.deep_view() =~= where_vars@);
        }
        let r: Result<(), Diagnostic> = if !contains_value(type_vars, &k.1) && !contains_value(
            where_vars,
            &k.1,
        ) {
            let message = concat5(
                "ambiguous type variable requires ",
                after_last_dot(k.0.as_str()),
                " but has no concrete type in '",
                name,
                "'",
            );
            Err(Diagnostic::error_at(k.3, message))
        } else {
            if contains_value(&acc.forall, &k.1) && !has_scheme_constraint(acc, k.0.as_str(), k.1) {
                add_scheme_constraint(acc, k.0.clone(), k.1, k.2.dup());
            }
            Ok(())
        };
        if let Err(e) = r {
            proof {
                with_all_inferred_stops(name@, type_vars@, where_vars@, a0, all, i + 1);
            }
            return Err(e);
        }
        i = i + 1;
    }
    assert(all.take(i as int) =~= all);
    Ok(())
}

/// The scheme of a function: its type generalized, with the declared constraints
/// and those that its bodies led to.
pub open spec fn fun_scheme(
    sub: Sub,
    f: FunContextModel,
    generalized: SchemeModel,
    inferred: Seq<(Seq<char>, u32, Seq<Ty>, Span)>,
) -> Result<SchemeModel, Diag> {
    with_all_inferred(
        f.name,
        f.type_vars,
        with_all_declared_vars(sub, Seq::empty(), f.where_constraints),
        with_all_declared(sub, generalized, f.where_constraints),
        inferred,
    )
}

impl Checker {
    /// The scheme of a function. `generalized` is its type with the variables that
    /// nothing else speaks of quantified, and `inferred` holds the constraints that
    /// become part of the scheme.
    pub fn build_fun_scheme(
        &self,
        f: &FunContext,
        generalized: Scheme,
        inferred: &Vec<(String, u32, Vec<Type>, Span)>,
    ) -> (r: Result<Scheme, Diagnostic>)
        requires
            acyclic(self.sub@),
        ensures
            outcome(r) == fun_scheme(
                self.sub@,
                f.deep_view(),
                generalized.deep_view(),
                inferred.deep_view(),
            ),
    {
        assert(f.type_vars.deep_view() =~= f.type_vars@);
        let mut where_vars: Vec<u32> = Vec::new();
        assert(where_vars@ =~= Seq::empty());
        collect_declared_vars(&self.sub, &mut where_vars, &f.where_constraints);
        let mut scheme = generalized;
        add_declared(&self.sub, &mut scheme, &f.where_constraints);
        match add_inferred(
            f.name.as_str(),
            &f.type_vars,
            &where_vars,
            &mut scheme,
            inferred,
        ) {
            Ok(_) => Ok(scheme),
            Err(e) => Err(e),
        }
    }

    /// The variables of the type of a function.
    pub fn fun_type_vars(&self, ty: &Type) -> (r: Vec<u32>)
        requires
            acyclic(self.sub@),
        ensures
            r@ == crate::type_vars::free_vars(applied(self.sub@, ty@)),
    {
        let mut vars: Vec<u32> = Vec::new();
        assert(vars@ =~= Seq::empty());
        let t = self.sub.apply(ty);
        collect_free_vars(&t, &mut vars);
        vars
    }
}

proof fn constraints_stay_constrained(s: SchemeModel, k: Constraint, name: Seq<char>, id: u32)
    requires
        scheme_constrains(s, name, id) || (k.0 == name && k.1 == id),
    ensures
        scheme_constrains(with_scheme_constraint(s, k), name, id),
{
    let after = with_scheme_constraint(s, k);
    if scheme_constrains(s, name, id) {
        let i = choose|i: int|
            0 <= i < s.constraints.len() && (#[trigger] s.constraints[i]).0 == name
                && s.constraints[i].1 == id;
        assert(after.constraints[i] == s.constraints[i]);
    } else {
        assert(after.constraints[s.constraints.len() as int] == k);
    }
}

/// The scheme of a function has each declared constraint whose variable is still a
/// variable.
pub proof fn schemes_have_declared_constraints(
    sub: Sub,
    s: SchemeModel,
    constraints: Seq<Constraint>,
    i: int,
    id: u32,
)
    requires
        0 <= i < constraints.len(),
        applied(sub, Ty::Var(constraints[i].1)) == Ty::Var(id),
    ensures
        scheme_constrains(with_all_declared(sub, s, constraints), constraints[i].0, id),
    decreases constraints.len(),
{
    let before = with_all_declared(sub, s, constraints.drop_last());
    let last = constraints.last();
    if i < constraints.len() - 1 {
        schemes_have_declared_constraints(sub, s, constraints.drop_last(), i, id);
        if let Ty::Var(other) = applied(sub, Ty::Var(last.1)) {
            constraints_stay_constrained(
                SchemeModel { forall: add_new(before.forall, seq![other]), ..before },
                (last.0, other, all_applied(sub, last.2)),
                constraints[i].0,
                id,
            );
        }
    } else {
        constraints_stay_constrained(
            SchemeModel { forall: add_new(before.forall, seq![id]), ..before },
            (last.0, id, all_applied(sub, last.2)),
            last.0,
            id,
        );
    }
}

/// Whether a scheme quantifies the variables of a constraint, those of its further
/// arguments among them.
pub open spec fn quantifies(s: SchemeModel, k: Constraint) -> bool {
    s.forall.contains(k.1) && forall|v: u32| #[trigger]
        vars_of_all(k.2).contains(v) ==> s.forall.contains(v)
}

/// Whether a scheme quantifies the variables of all its constraints.
pub open spec fn is_closed_scheme(s: SchemeModel) -> bool {
    forall|i: int| 0 <= i < s.constraints.len() ==> quantifies(s, #[trigger] s.constraints[i])
}

proof fn more_is_quantified(s: SchemeModel, after: SchemeModel, k: Constraint)
    requires
        quantifies(s, k),
        forall|v: u32| #[trigger] s.forall.contains(v) ==> after.forall.contains(v),
    ensures
        quantifies(after, k),
{
}

proof fn scheme_constraint_is_quantified(s: SchemeModel, k: Constraint)
    requires
        is_closed_scheme(s),
        s.forall.contains(k.1),
    ensures
        is_closed_scheme(with_scheme_constraint(s, k)),
        forall|v: u32| #[trigger]
            s.forall.contains(v) ==> with_scheme_constraint(s, k).forall.contains(v),
        forall|j: Constraint| #[trigger]
            s.constraints.contains(j) ==> with_scheme_constraint(s, k).constraints.contains(j),
        with_scheme_constraint(s, k).constraints.contains(k),
{
    let after = with_scheme_constraint(s, k);
    let none = Seq::<u32>::empty();
    let vars = vars_of_all(k.2);
    let free = vars.filter(|v: u32| !none.contains(v));
    assert forall|v: u32| #[trigger]
        after.forall.contains(v) <==> s.forall.contains(v) || vars.contains(v) by {
        add_new_contains(s.forall, free, v);
        filter_contains(vars, |v: u32| !none.contains(v), v);
    }
    assert forall|i: int| 0 <= i < after.constraints.len() implies quantifies(
        after,
        #[trigger] after.constraints[i],
    ) by {
        if i < s.constraints.len() {
            assert(after.constraints[i] == s.constraints[i]);
            more_is_quantified(s, after, s.constraints[i]);
        }
    }
    assert forall|j: Constraint| #[trigger] s.constraints.contains(j) implies after
        .constraints.contains(j) by {
        push_contains(s.constraints, k, j);
    }
    push_contains(s.constraints, k, k);
}

proof fn declared_are_quantified(sub: Sub, s: SchemeModel, items: Seq<Constraint>)
    requires
        is_closed_scheme(s),
    ensures
        is_closed_scheme(with_all_declared(sub, s, items)),
        forall|i: int|
            0 <= i < items.len() ==> is_declared_in(
                sub,
                with_all_declared(sub, s, items),
                #[trigger] items[i],
            ),
    decreases items.len(),
{
    if items.len() > 0 {
        let init = items.drop_last();
        declared_are_quantified(sub, s, init);
        let before = with_all_declared(sub, s, init);
        let after = with_all_declared(sub, s, items);
        let k = items.last();
        if let Ty::Var(id) = applied(sub, Ty::Var(k.1)) {
            let wider = SchemeModel { forall: add_new(before.forall, seq![id]), ..before };
            let applied_k = (k.0, id, all_applied(sub, k.2));
            assert forall|v: u32| #[trigger] before.forall.contains(v) implies wider
                .forall.contains(v) by {
                add_new_contains(before.forall, seq![id], v);
            }
            add_new_contains(before.forall, seq![id], id);
            assert(seq![id][0] == id);
            assert forall|i: int| 0 <= i < wider.constraints.len() implies quantifies(
                wider,
                #[trigger] wider.constraints[i],
            ) by {
                more_is_quantified(before, wider, before.constraints[i]);
            }
            scheme_constraint_is_quantified(wider, applied_k);
        }
        assert forall|i: int| 0 <= i < items.len() implies is_declared_in(
            sub,
            after,
            #[trigger] items[i],
        ) by {
            if i < init.len() {
                assert(init[i] == items[i]);
                assert(is_declared_in(sub, before, init[i]));
            }
        }
    }
}

/// Whether a scheme has a declared constraint, its variable and its further arguments
/// with solved variables applied. One whose variable is solved to a type is none.
pub open spec fn is_declared_in(sub: Sub, s: SchemeModel, k: Constraint) -> bool {
    match applied(sub, Ty::Var(k.1)) {
        Ty::Var(id) => s.constraints.contains((k.0, id, all_applied(sub, k.2))),
        _ => true,
    }
}

proof fn inferred_are_quantified(
    name: Seq<char>,
    type_vars: Seq<u32>,
    where_vars: Seq<u32>,
    s: SchemeModel,
    items: Seq<(Seq<char>, u32, Seq<Ty>, Span)>,
)
    requires
        is_closed_scheme(s),
        with_all_inferred(name, type_vars, where_vars, s, items) is Ok,
    ensures
        ({
            let after = with_all_inferred(name, type_vars, where_vars, s, items)->Ok_0;
            &&& is_closed_scheme(after)
            &&& forall|j: Constraint| #[trigger]
                s.constraints.contains(j) ==> after.constraints.contains(j)
            &&& forall|v: u32| #[trigger] s.forall.contains(v) ==> after.forall.contains(v)
            &&& forall|i: int|
                0 <= i < items.len() && s.forall.contains((#[trigger] items[i]).1)
                    ==> scheme_constrains(after, items[i].0, items[i].1)
        }),
    decreases items.len(),
{
    if items.len() > 0 {
        let init = items.drop_last();
        inferred_are_quantified(name, type_vars, where_vars, s, init);
        let before = with_all_inferred(name, type_vars, where_vars, s, init)->Ok_0;
        let after = with_all_inferred(name, type_vars, where_vars, s, items)->Ok_0;
        let k = items.last();
        if before.forall.contains(k.1) && !scheme_constrains(before, k.0, k.1) {
            scheme_constraint_is_quantified(before, (k.0, k.1, k.2));
        }
        assert forall|i: int|
            0 <= i < items.len() && s.forall.contains((#[trigger] items[i]).1) implies
            scheme_constrains(after, items[i].0, items[i].1) by {
            if i < init.len() {
                assert(init[i] == items[i]);
                if after != before {
                    constraints_stay_constrained(
                        before,
                        (k.0, k.1, k.2),
                        items[i].0,
                        items[i].1,
                    );
                }
            } else if after != before {
                constraints_stay_constrained(before, (k.0, k.1, k.2), k.0, k.1);
            }
        }
    }
}

/// The scheme of a function quantifies every variable of its constraints. It has each
/// declared constraint whose variable is still a variable, and constrains each
/// variable of the generalized type as the bodies led to.
pub proof fn schemes_quantify_their_constraints(
    sub: Sub,
    f: FunContextModel,
    generalized: SchemeModel,
    inferred: Seq<(Seq<char>, u32, Seq<Ty>, Span)>,
)
    requires
        generalized.constraints.len() == 0,
        fun_scheme(sub, f, generalized, inferred) is Ok,
    ensures
        ({
            let s = fun_scheme(sub, f, generalized, inferred)->Ok_0;
            &&& is_closed_scheme(s)
            &&& forall|i: int|
                0 <= i < f.where_constraints.len() ==> is_declared_in(
                    sub,
                    s,
                    #[trigger] f.where_constraints[i],
                )
            &&& forall|i: int|
                0 <= i < inferred.len() && generalized.forall.contains((#[trigger] inferred[i]).1)
                    ==> scheme_constrains(s, inferred[i].0, inferred[i].1)
        }),
{
    let declared = with_all_declared(sub, generalized, f.where_constraints);
    let where_vars = with_all_declared_vars(sub, Seq::empty(), f.where_constraints);
    declared_are_quantified(sub, generalized, f.where_constraints);
    inferred_are_quantified(f.name, f.type_vars, where_vars, declared, inferred);
    let s = fun_scheme(sub, f, generalized, inferred)->Ok_0;
    assert forall|i: int| 0 <= i < f.where_constraints.len() implies is_declared_in(
        sub,
        s,
        #[trigger] f.where_constraints[i],
    ) by {
        assert(is_declared_in(sub, declared, f.where_constraints[i]));
    }
    declared_keep_variables(sub, generalized, f.where_constraints);
}

proof fn declared_keep_variables(sub: Sub, s: SchemeModel, items: Seq<Constraint>)
    ensures
        forall|v: u32| #[trigger]
            s.forall.contains(v) ==> with_all_declared(sub, s, items).forall.contains(v),
    decreases items.len(),
{
    if items.len() > 0 {
        let init = items.drop_last();
        declared_keep_variables(sub, s, init);
        let before = with_all_declared(sub, s, init);
        let k = items.last();
        if let Ty::Var(id) = applied(sub, Ty::Var(k.1)) {
            let none = Seq::<u32>::empty();
            let wider = add_new(before.forall, seq![id]);
            let free = vars_of_all(all_applied(sub, k.2)).filter(|v: u32| !none.contains(v));
            assert forall|v: u32| #[trigger] before.forall.contains(v) implies with_all_declared(
                sub,
                s,
                items,
            ).forall.contains(v) by {
                add_new_contains(before.forall, seq![id], v);
                add_new_contains(wider, free, v);
            }
        }
    }
}

/// Whether a constraint is one of those that a signature declares, and the variables and
/// further arguments of both stand side by side.
pub open spec fn held_to_declared(
    sub: Sub,
    declared: Seq<Constraint>,
    p: PendingModel,
    id: u32,
    pairs: Seq<(Ty, Ty)>,
) -> bool {
    exists|i: int|
        #![trigger declared[i]]
        {
            let k = declared[i];
            &&& 0 <= i < declared.len()
            &&& k.0 == p.trait_name
            &&& pairs.len() >= 1
            &&& pairs[0] == (Ty::Var(id), applied(sub, Ty::Var(k.1)))
            &&& pairs.len() <= 1 + p.trait_type_args.len()
            &&& pairs.len() <= 1 + k.2.len()
            &&& pairs.len() == 1 + p.trait_type_args.len() || pairs.len() == 1 + k.2.len()
            &&& forall|j: int|
                1 <= j < pairs.len() ==> #[trigger] pairs[j] == (
                    p.trait_type_args[j - 1],
                    k.2[j - 1],
                )
        }
}

proof fn declared_is_among(constraints: Seq<Constraint>, name: Seq<char>)
    ensures
        match declared_on(constraints, name) {
            Some(k) => k.0 == name && constraints.contains(k),
            None => forall|i: int|
                0 <= i < constraints.len() ==> (#[trigger] constraints[i]).0 != name,
        },
    decreases constraints.len(),
{
    if constraints.len() > 0 {
        let init = constraints.drop_last();
        declared_is_among(init, name);
        assert(constraints[constraints.len() - 1] == constraints.last());
        assert(forall|i: int| 0 <= i < init.len() ==> #[trigger] init[i] == constraints[i]);
        assert(forall|i: int| 0 <= i < init.len() ==> #[trigger] constraints[i] == init[i]);
    }
}

/// No constraint that the bodies of a function led to is lost. It stays pending, or a
/// bound on its variable settles it, or it is held to a declared constraint, or to what
/// is known of a record, or it becomes part of the scheme; otherwise the function is
/// refused.
pub proof fn constraints_are_accounted_for(
    c: CheckerModel,
    f: FunContextModel,
    p: PendingModel,
    g: GenericUseModel,
)
    ensures
        ({
            let after = placed(c, f, p, g);
            let before = c.trait_state.pending_constraints;
            let pending = after.0.trait_state.pending_constraints;
            let ty = applied(c.sub, p.ty);
            let settled = after.0.evidence.len() == c.evidence.len() + 1
                && after.0.evidence.last().node_id == p.node_id
                && after.0.evidence.last().trait_name == p.trait_name
                && after.0.evidence.last().resolved_type is None;
            &&& match after.1 {
                PlacementModel::Done => {
                    ||| {
                        &&& pending.len() == before.len() + 1
                        &&& pending.last().trait_name == p.trait_name
                        &&& pending.last().trait_type_args == p.trait_type_args
                        &&& pending.last().node_id == p.node_id
                        &&& pending.last().ty == p.ty || pending.last().ty == ty
                        &&& after.0.evidence == c.evidence
                    }
                    ||| {
                        &&& pending == before
                        &&& settled
                        &&& exists|i: int|
                            0 <= i < c.trait_state.where_bounds.len() && applied(
                                c.sub,
                                Ty::Var((#[trigger] c.trait_state.where_bounds[i]).0),
                            ) == ty && covering(
                                c,
                                c.trait_state.where_bounds[i].1,
                                p.trait_name,
                            ) is Some
                    }
                },
                PlacementModel::Inferred(k) => {
                    &&& pending == before
                    &&& settled
                    &&& k.0 == p.trait_name
                    &&& Ty::Var(k.1) == ty
                    &&& f.type_vars.contains(k.1)
                    &&& !f.annotated
                    &&& k.2.len() == p.trait_type_args.len()
                    &&& forall|j: int|
                        0 <= j < k.2.len() ==> #[trigger] k.2[j] == applied(
                            c.sub,
                            p.trait_type_args[j],
                        )
                    &&& k.3 == p.span
                },
                PlacementModel::Record(id, record) => {
                    &&& after.0 == c
                    &&& g.generic
                    &&& Ty::Var(id) == ty
                    &&& g.record == Some(record)
                },
                PlacementModel::Declared(id, pairs) => {
                    &&& after.0 == c
                    &&& Ty::Var(id) == ty
                    &&& !f.type_vars.contains(id)
                    &&& held_to_declared(c.sub, f.where_constraints, p, id, pairs)
                },
                PlacementModel::Failed(_) => {
                    &&& after.0 == c
                    &&& f.annotated
                    &&& ty matches Ty::Var(id) && f.type_vars.contains(id)
                },
            }
            &&& !(ty is Var) ==> after.1 is Done && pending.last() == p
        }),
{
    if let Ty::Var(id) = applied(c.sub, p.ty) {
        declared_is_among(f.where_constraints, p.trait_name);
        if let Some(k) = declared_on(f.where_constraints, p.trait_name) {
            let i = choose|i: int| 0 <= i < f.where_constraints.len() && f.where_constraints[i] == k;
            let pairs = seq![(Ty::Var(id), applied(c.sub, Ty::Var(k.1)))] + side_by_side(
                p.trait_type_args,
                k.2,
            );
            assert(f.where_constraints[i] == k);
            assert(held_to_declared(c.sub, f.where_constraints, p, id, pairs));
        }
        if is_bound(c, p.trait_name, id, c.trait_state.where_bounds) {
            let i = choose|i: int|
                0 <= i < c.trait_state.where_bounds.len() && #[trigger] bound_covers(
                    c,
                    p.trait_name,
                    id,
                    c.trait_state.where_bounds[i],
                );
            assert(bound_covers(c, p.trait_name, id, c.trait_state.where_bounds[i]));
        }
    }
}

} // verus!
