//! The bounds of signatures, and what they let the bodies take for granted.

use vstd::prelude::*;
use crate::ast::{TraitBound, TraitRef};
use crate::bounds::{
    args_fit, know_trait, known_traits, known_vars, trait_at, with_known_trait, Introduced,
};
use crate::checker::{Checker, CheckerModel, LspModel, TraitState, TraitStateModel};
use crate::diagnostics::{an_error_at, Diag, Diagnostic};
use crate::exports::first_at;
use crate::fun_types::find_var;
use crate::seqs::{add_new, add_new_contains, push_contains};
use crate::table::{distinct_keys, put, put_then_get};
use crate::text::concat4;
use crate::token::Span;
use crate::types::{Ty, Type};
use crate::values::{append_values, outcome, push_value, reached, Dup};

verus! {

/// A trait that a variable must have, with the further arguments of the trait.
pub type Constraint = (Seq<char>, u32, Seq<Ty>);

/// Where the traits of a bound are named.
pub open spec fn trait_places(c: CheckerModel, traits: Seq<TraitRef>) -> Seq<(Span, Seq<char>)> {
    traits.map_values(|t: TraitRef| (t.span, trait_at(c, t)))
}

pub open spec fn with_trait_places(c: CheckerModel, traits: Seq<TraitRef>) -> CheckerModel {
    CheckerModel {
        lsp: LspModel {
            type_references: c.lsp.type_references + trait_places(c, traits),
            ..c.lsp
        },
        ..c
    }
}

/// The constraints that the first `n` traits of a bound make, or the first
/// complaint.
pub open spec fn bound_constraints(
    c: CheckerModel,
    id: u32,
    traits: Seq<TraitRef>,
    args: Seq<Seq<Ty>>,
    complaints: Seq<Option<Diag>>,
    acc: Seq<Constraint>,
    n: nat,
) -> Result<Seq<Constraint>, Diag>
    decreases n,
{
    if n == 0 {
        Ok(acc)
    } else {
        match bound_constraints(c, id, traits, args, complaints, acc, (n - 1) as nat) {
            Err(e) => Err(e),
            Ok(before) => match complaints[n - 1] {
                Some(d) => Err(d),
                None => Ok(before.push((trait_at(c, traits[n - 1]), id, args[n - 1]))),
            },
        }
    }
}

proof fn bound_constraints_stop(
    c: CheckerModel,
    id: u32,
    traits: Seq<TraitRef>,
    args: Seq<Seq<Ty>>,
    complaints: Seq<Option<Diag>>,
    acc: Seq<Constraint>,
    n: nat,
    m: nat,
)
    requires
        n <= m,
        bound_constraints(c, id, traits, args, complaints, acc, n) is Err,
    ensures
        bound_constraints(c, id, traits, args, complaints, acc, m) == bound_constraints(
            c,
            id,
            traits,
            args,
            complaints,
            acc,
            n,
        ),
    decreases m,
{
    if n < m {
        bound_constraints_stop(c, id, traits, args, complaints, acc, n, (m - 1) as nat);
    }
}

/// The message about a bound on a variable that nothing introduces.
pub open spec fn unknown_variable(var: Seq<char>, whose: Seq<char>) -> Seq<char> {
    "where clause references unknown type variable '"@ + var + "'"@ + whose
}

/// The constraints that the first `n` bounds of a signature make, or the first
/// complaint. `complaints` are those about the kinds of the variables; where
/// `named`, the source names of the variables are kept.
pub open spec fn declared_constraints(
    c: CheckerModel,
    named: bool,
    span: Span,
    whose: Seq<char>,
    vars: Seq<(Seq<char>, u32)>,
    introduced: Introduced,
    bounds: Seq<TraitBound>,
    args: Seq<Seq<Seq<Ty>>>,
    complaints: Seq<Seq<Option<Diag>>>,
    n: nat,
) -> (CheckerModel, Result<Seq<Constraint>, Diag>)
    decreases n,
{
    if n == 0 {
        (c, Ok(Seq::empty()))
    } else {
        let before = declared_constraints(
            c,
            named,
            span,
            whose,
            vars,
            introduced,
            bounds,
            args,
            complaints,
            (n - 1) as nat,
        );
        match before.1 {
            Err(e) => before,
            Ok(acc) => {
                let b = bounds[n - 1];
                let c1 = with_trait_places(before.0, b.traits@);
                match first_at(known_vars(vars, introduced, (n - 1) as nat), b.type_var@) {
                    None => (c1, Err(an_error_at(span, unknown_variable(b.type_var@, whose)))),
                    Some(id) => (
                        if named {
                            with_var_name(c1, id, b.type_var@)
                        } else {
                            c1
                        },
                        bound_constraints(
                            c1,
                            id,
                            b.traits@,
                            args[n - 1],
                            complaints[n - 1],
                            acc,
                            b.traits@.len(),
                        ),
                    ),
                }
            },
        }
    }
}

pub open spec fn with_var_name(c: CheckerModel, id: u32, name: Seq<char>) -> CheckerModel {
    CheckerModel {
        trait_state: TraitStateModel {
            where_bound_var_names: put(c.trait_state.where_bound_var_names, id, name),
            ..c.trait_state
        },
        ..c
    }
}

proof fn declared_constraints_stop(
    c: CheckerModel,
    named: bool,
    span: Span,
    whose: Seq<char>,
    vars: Seq<(Seq<char>, u32)>,
    introduced: Introduced,
    bounds: Seq<TraitBound>,
    args: Seq<Seq<Seq<Ty>>>,
    complaints: Seq<Seq<Option<Diag>>>,
    n: nat,
    m: nat,
)
    requires
        n <= m,
        declared_constraints(
            c,
            named,
            span,
            whose,
            vars,
            introduced,
            bounds,
            args,
            complaints,
            n,
        ).1 is Err,
    ensures
        declared_constraints(c, named, span, whose, vars, introduced, bounds, args, complaints, m)
            == declared_constraints(
                c,
                named,
                span,
                whose,
                vars,
                introduced,
                bounds,
                args,
                complaints,
                n,
            ),
    decreases m,
{
    if n < m {
        declared_constraints_stop(
            c,
            named,
            span,
            whose,
            vars,
            introduced,
            bounds,
            args,
            complaints,
            n,
            (m - 1) as nat,
        );
    }
}

/// Declaring constraints touches only where types are named, and the source names
/// of variables.
pub proof fn declaring_keeps(
    c: CheckerModel,
    named: bool,
    span: Span,
    whose: Seq<char>,
    vars: Seq<(Seq<char>, u32)>,
    introduced: Introduced,
    bounds: Seq<TraitBound>,
    args: Seq<Seq<Seq<Ty>>>,
    complaints: Seq<Seq<Option<Diag>>>,
    n: nat,
)
    ensures
        ({
            let after = declared_constraints(
                c,
                named,
                span,
                whose,
                vars,
                introduced,
                bounds,
                args,
                complaints,
                n,
            ).0;
            after == (CheckerModel {
                lsp: after.lsp,
                trait_state: TraitStateModel {
                    where_bound_var_names: after.trait_state.where_bound_var_names,
                    ..c.trait_state
                },
                ..c
            })
        }),
    decreases n,
{
    if n > 0 {
        declaring_keeps(
            c,
            named,
            span,
            whose,
            vars,
            introduced,
            bounds,
            args,
            complaints,
            (n - 1) as nat,
        );
    }
}

/// Whether there is an answer about the kind for each trait of each bound.
pub open spec fn complaints_fit(
    bounds: Seq<TraitBound>,
    complaints: Seq<Seq<Option<Diag>>>,
) -> bool {
    &&& complaints.len() == bounds.len()
    &&& forall|i: int|
        0 <= i < bounds.len() ==> #[trigger] complaints[i].len() == bounds[i].traits@.len()
}

impl Checker {
    /// Records where the traits of a bound are named.
    pub fn add_trait_places(&mut self, traits: &Vec<TraitRef>)
        ensures
            final(self).deep_view() == with_trait_places(old(self).deep_view(), traits@),
    {
        let ghost c0 = self.deep_view();
        let ghost all = trait_places(c0, traits@);
        let mut i: usize = 0;
        assert(c0.lsp.type_references =~= c0.lsp.type_references + all.take(0));
        while i < traits.len()
            invariant
                i <= traits.len(),
                all == trait_places(c0, traits@),
                self.deep_view() == (CheckerModel {
                    lsp: LspModel {
                        type_references: c0.lsp.type_references + all.take(i as int),
                        ..c0.lsp
                    },
                    ..c0
                }),
            decreases traits.len() - i,
        {
            let t = &traits[i];
            let name = self.resolved_trait_name_at(t.id, t.name.as_str());
            push_value(&mut self.lsp.type_references, (t.span, name));
            i = i + 1;
            proof {
                assert(all.take(i as int) =~= all.take(i - 1).push(all[i - 1]));
                assert(self.lsp.type_references.deep_view() =~= c0.lsp.type_references + all.take(
                    i as int,
                ));
            }
        }
        assert(all.take(i as int) =~= all);
    }

    fn push_bound_constraints(
        &self,
        id: u32,
        traits: &Vec<TraitRef>,
        args: &Vec<Vec<Type>>,
        complaints: &Vec<Option<Diagnostic>>,
        out: &mut Vec<(String, u32, Vec<Type>)>,
    ) -> (r: Result<(), Diagnostic>)
        requires
            args.len() == traits.len(),
            complaints.len() == traits.len(),
        ensures
            bound_constraints(
                self.deep_view(),
                id,
                traits@,
                args.deep_view(),
                complaints.deep_view(),
                old(out).deep_view(),
                traits@.len(),
            ) == reached(r, final(out).deep_view()),
    {
        let ghost c = self.deep_view();
        let ghost extras = args.deep_view();
        let ghost ks = complaints.deep_view();
        let ghost out0 = out.deep_view();
        let mut i: usize = 0;
        while i < traits.len()
            invariant
                i <= traits.len(),
                args.len() == traits.len(),
                complaints.len() == traits.len(),
                c == self.deep_view(),
                extras == args.deep_view(),
                ks == complaints.deep_view(),
                out0 == old(out).deep_view(),
                bound_constraints(c, id, traits@, extras, ks, out0, i as nat) == Ok::<
                    Seq<Constraint>,
                    Diag,
                >(out.deep_view()),
            decreases traits.len() - i,
        {
            assert(ks[i as int] == complaints@[i as int].deep_view());
            assert(extras[i as int] == args@[i as int].deep_view());
            if let Some(d) = &complaints[i] {
                proof {
                    bound_constraints_stop(
                        c,
                        id,
                        traits@,
                        extras,
                        ks,
                        out0,
                        (i + 1) as nat,
                        traits@.len(),
                    );
                }
                return Err(d.dup());
            }
            let t = &traits[i];
            let name = self.resolved_trait_name_at(t.id, t.name.as_str());
            push_value(out, (name, id, args[i].dup()));
            i = i + 1;
        }
        Ok(())
    }

    /// The constraints that the bounds of a signature make. `args` are the converted
    /// further arguments of their traits, `introduced` the variables that first occur
    /// there, and `complaints` the complaints about the kinds of the variables.
    pub fn declare_constraints(
        &mut self,
        named: bool,
        span: Span,
        whose: &str,
        vars: &Vec<(String, u32)>,
        introduced: &Vec<Vec<(String, u32)>>,
        bounds: &Vec<TraitBound>,
        args: &Vec<Vec<Vec<Type>>>,
        complaints: &Vec<Vec<Option<Diagnostic>>>,
    ) -> (r: Result<Vec<(String, u32, Vec<Type>)>, Diagnostic>)
        requires
            args_fit(bounds@, args.deep_view()),
            complaints_fit(bounds@, complaints.deep_view()),
            introduced.len() == bounds.len(),
        ensures
            (final(self).deep_view(), outcome(r)) == declared_constraints(
                old(self).deep_view(),
                named,
                span,
                whose@,
                vars.deep_view(),
                introduced.deep_view(),
                bounds@,
                args.deep_view(),
                complaints.deep_view(),
                bounds@.len(),
            ),
    {
        let ghost c0 = self.deep_view();
        let ghost vs = vars.deep_view();
        let ghost more = introduced.deep_view();
        let mut known = vars.dup();
        let ghost extras = args.deep_view();
        let ghost ks = complaints.deep_view();
        let mut out: Vec<(String, u32, Vec<Type>)> = Vec::new();
        let mut i: usize = 0;
        assert(out.deep_view() =~= Seq::empty());
        while i < bounds.len()
            invariant
                i <= bounds.len(),
                args_fit(bounds@, extras),
                complaints_fit(bounds@, ks),
                c0 == old(self).deep_view(),
                vs == vars.deep_view(),
                more == introduced.deep_view(),
                introduced.len() == bounds.len(),
                known.deep_view() == known_vars(vs, more, i as nat),
                extras == args.deep_view(),
                ks == complaints.deep_view(),
                declared_constraints(
                    c0,
                    named,
                    span,
                    whose@,
                    vs,
                    more,
                    bounds@,
                    extras,
                    ks,
                    i as nat,
                )
                    == (self.deep_view(), Ok::<Seq<Constraint>, Diag>(out.deep_view())),
            decreases bounds.len() - i,
        {
            proof {
                assert(extras.len() == args.len());
                assert(extras[i as int] == args@[i as int].deep_view());
                assert(ks.len() == complaints.len());
                assert(ks[i as int] == complaints@[i as int].deep_view());
            }
            let b = &bounds[i];
            self.add_trait_places(&b.traits);
            match find_var(&known, b.type_var.as_str()) {
                None => {
                    let message = concat4(
                        "where clause references unknown type variable '",
                        b.type_var.as_str(),
                        "'",
                        whose,
                    );
                    proof {
                        declared_constraints_stop(
                            c0,
                            named,
                            span,
                            whose@,
                            vs,
                            more,
                            bounds@,
                            extras,
                            ks,
                            (i + 1) as nat,
                            bounds@.len(),
                        );
                    }
                    return Err(Diagnostic::error_at(span, message));
                },
                Some(id) => {
                    let r = self.push_bound_constraints(
                        id,
                        &b.traits,
                        &args[i],
                        &complaints[i],
                        &mut out,
                    );
                    if named {
                        self.trait_state.where_bound_var_names.insert(id, b.type_var.clone());
                    }
                    if let Err(d) = r {
                        proof {
                            declared_constraints_stop(
                                c0,
                                named,
                                span,
                                whose@,
                                vs,
                                more,
                                bounds@,
                                extras,
                                ks,
                                (i + 1) as nat,
                                bounds@.len(),
                            );
                        }
                        return Err(d);
                    }
                },
            }
            proof {
                assert(more[i as int] == introduced@[i as int].deep_view());
            }
            let mut arrived = introduced[i].dup();
            append_values(&mut known, &mut arrived);
            i = i + 1;
        }
        Ok(out)
    }
}

/// What is taken for granted of variables, with one more constraint.
pub open spec fn with_assumption(c: TraitStateModel, k: Constraint) -> TraitStateModel {
    TraitStateModel {
        where_bounds: with_known_trait(c.where_bounds, k.1, k.0),
        where_bound_trait_args: if k.2.len() == 0 {
            c.where_bound_trait_args
        } else {
            put(c.where_bound_trait_args, (k.1, k.0), k.2)
        },
        ..c
    }
}

pub open spec fn with_assumptions(acc: TraitStateModel, items: Seq<Constraint>) -> TraitStateModel
    decreases items.len(),
{
    if items.len() == 0 {
        acc
    } else {
        with_assumption(with_assumptions(acc, items.drop_last()), items.last())
    }
}

/// Takes constraints for granted.
pub fn take_for_granted(acc: &mut TraitState, items: &Vec<(String, u32, Vec<Type>)>)
    ensures
        final(acc).deep_view() == with_assumptions(old(acc).deep_view(), items.deep_view()),
{
    let ghost a0 = acc.deep_view();
    let ghost all = items.deep_view();
    let mut i: usize = 0;
    assert(all.take(0) =~= Seq::empty());
    while i < items.len()
        invariant
            i <= items.len(),
            all == items.deep_view(),
            acc.deep_view() == with_assumptions(a0, all.take(i as int)),
        decreases items.len() - i,
    {
        proof {
            assert(all.take(i + 1).drop_last() =~= all.take(i as int));
            assert(all.take(i + 1).last() == all[i as int]);
        }
        let k = &items[i];
        assert(all[i as int].2 == k.2.deep_view());
        assert(k.2.deep_view().len() == k.2.len());
        know_trait(&mut acc.where_bounds, k.1, k.0.clone());
        if k.2.len() != 0 {
            acc.where_bound_trait_args.insert((k.1, k.0.clone()), k.2.dup());
        }
        i = i + 1;
    }
    assert(all.take(i as int) =~= all);
}

proof fn bounds_make_constraints(
    c: CheckerModel,
    id: u32,
    traits: Seq<TraitRef>,
    args: Seq<Seq<Ty>>,
    complaints: Seq<Option<Diag>>,
    acc: Seq<Constraint>,
    n: nat,
)
    requires
        n <= traits.len(),
    ensures
        ({
            let r = bound_constraints(c, id, traits, args, complaints, acc, n);
            &&& r is Ok <==> forall|j: int| 0 <= j < n ==> #[trigger] complaints[j] is None
            &&& r matches Ok(after) ==> forall|k: Constraint| #[trigger]
                after.contains(k) <==> acc.contains(k) || is_constraint_of(c, id, traits, args, n, k)
        }),
    decreases n,
{
    if n > 0 {
        let n1 = (n - 1) as nat;
        bounds_make_constraints(c, id, traits, args, complaints, acc, n1);
        if let Ok(before) = bound_constraints(c, id, traits, args, complaints, acc, n1) {
            let next = (trait_at(c, traits[n - 1]), id, args[n - 1]);
            if complaints[n - 1] is None {
                assert forall|k: Constraint| #[trigger]
                    before.push(next).contains(k) <==> acc.contains(k) || is_constraint_of(
                        c,
                        id,
                        traits,
                        args,
                        n,
                        k,
                    ) by {
                    push_contains(before, next, k);
                    assert(before.contains(k) <==> acc.contains(k) || is_constraint_of(
                        c,
                        id,
                        traits,
                        args,
                        n1,
                        k,
                    ));
                    if k == next {
                        assert(trait_at(c, traits[n - 1]) == k.0);
                    }
                }
            }
        }
    }
}

/// Whether a constraint is one of the first `n` traits of a bound on a variable.
pub open spec fn is_constraint_of(
    c: CheckerModel,
    id: u32,
    traits: Seq<TraitRef>,
    args: Seq<Seq<Ty>>,
    n: nat,
    k: Constraint,
) -> bool {
    &&& k.1 == id
    &&& exists|j: int| 0 <= j < n && trait_at(c, #[trigger] traits[j]) == k.0 && args[j] == k.2
}

/// The bounds of a signature become its constraints: just the traits that they name are
/// demanded, with their arguments, of the variables that they are on. They are refused
/// just where a bound is on a variable that nothing introduces, or where there is a
/// complaint about a kind.
pub proof fn signatures_have_the_constraints_of_their_bounds(
    c: CheckerModel,
    named: bool,
    span: Span,
    whose: Seq<char>,
    vars: Seq<(Seq<char>, u32)>,
    introduced: Introduced,
    bounds: Seq<TraitBound>,
    args: Seq<Seq<Seq<Ty>>>,
    complaints: Seq<Seq<Option<Diag>>>,
    n: nat,
)
    requires
        n <= bounds.len(),
    ensures
        ({
            let r = declared_constraints(
                c,
                named,
                span,
                whose,
                vars,
                introduced,
                bounds,
                args,
                complaints,
                n,
            ).1;
            &&& r is Ok <==> forall|i: int|
                0 <= i < n ==> {
                    &&& first_at(
                        known_vars(vars, introduced, i as nat),
                        (#[trigger] bounds[i]).type_var@,
                    ) is Some
                    &&& forall|j: int|
                        0 <= j < bounds[i].traits@.len() ==> #[trigger] complaints[i][j] is None
                }
            &&& r matches Ok(after) ==> forall|k: Constraint| #[trigger]
                after.contains(k) <==> exists|i: int|
                    0 <= i < n && first_at(
                        known_vars(vars, introduced, i as nat),
                        (#[trigger] bounds[i]).type_var@,
                    ) == Some(k.1) && is_constraint_of(
                        c,
                        k.1,
                        bounds[i].traits@,
                        args[i],
                        bounds[i].traits@.len(),
                        k,
                    )
        }),
    decreases n,
{
    if n > 0 {
        let n1 = (n - 1) as nat;
        signatures_have_the_constraints_of_their_bounds(
            c,
            named,
            span,
            whose,
            vars,
            introduced,
            bounds,
            args,
            complaints,
            n1,
        );
        declaring_keeps(c, named, span, whose, vars, introduced, bounds, args, complaints, n1);
        let before = declared_constraints(
            c,
            named,
            span,
            whose,
            vars,
            introduced,
            bounds,
            args,
            complaints,
            n1,
        );
        let b = bounds[n - 1];
        if let Ok(acc) = before.1 {
            if let Some(id) = first_at(known_vars(vars, introduced, n1), b.type_var@) {
                let c1 = with_trait_places(before.0, b.traits@);
                assert(forall|t: TraitRef| #[trigger] trait_at(c1, t) == trait_at(c, t));
                bounds_make_constraints(
                    c1,
                    id,
                    b.traits@,
                    args[n - 1],
                    complaints[n - 1],
                    acc,
                    b.traits@.len(),
                );
                assert forall|k: Constraint| #[trigger]
                    is_constraint_of(
                        c1,
                        id,
                        b.traits@,
                        args[n - 1],
                        b.traits@.len(),
                        k,
                    ) == is_constraint_of(
                        c,
                        id,
                        b.traits@,
                        args[n - 1],
                        b.traits@.len(),
                        k,
                    ) by {}
            } else {
                assert(first_at(known_vars(vars, introduced, n1), bounds[n - 1].type_var@) is None);
            }
        }
    }
}

/// What is taken for granted is known: after it, a variable has just the traits that it
/// had and those of the constraints on it.
pub proof fn assumptions_are_known(acc: TraitStateModel, items: Seq<Constraint>, id: u32)
    requires
        distinct_keys(acc.where_bounds),
    ensures
        ({
            let after = with_assumptions(acc, items);
            &&& distinct_keys(after.where_bounds)
            &&& forall|name: Seq<char>| #[trigger]
                known_traits(after.where_bounds, id).contains(name) <==> known_traits(
                    acc.where_bounds,
                    id,
                ).contains(name) || exists|i: int|
                    0 <= i < items.len() && (#[trigger] items[i]).0 == name && items[i].1 == id
            &&& after.traits == acc.traits
            &&& after.impls == acc.impls
            &&& after.pending_constraints == acc.pending_constraints
        }),
    decreases items.len(),
{
    if items.len() > 0 {
        let init = items.drop_last();
        assumptions_are_known(acc, init, id);
        let before = with_assumptions(acc, init).where_bounds;
        let k = items.last();
        let own = add_new(known_traits(before, k.1), seq![k.0]);
        put_then_get(before, k.1, own, id);
        put_then_get(before, k.1, own, k.1);
        assert(forall|i: int| 0 <= i < init.len() ==> #[trigger] items[i] == init[i]);
        assert(forall|i: int| 0 <= i < init.len() ==> items[i] == #[trigger] init[i]);
        assert(items[items.len() - 1] == k);
        let after = with_assumptions(acc, items).where_bounds;
        assert forall|name: Seq<char>| #[trigger]
            known_traits(after, id).contains(name) <==> known_traits(
                acc.where_bounds,
                id,
            ).contains(name) || exists|i: int|
                0 <= i < items.len() && (#[trigger] items[i]).0 == name && items[i].1 == id by {
            add_new_contains(known_traits(before, k.1), seq![k.0], name);
            assert(seq![k.0].contains(name) <==> name == k.0) by {
                assert(seq![k.0][0] == k.0);
            }
            assert(known_traits(before, id).contains(name) <==> known_traits(
                acc.where_bounds,
                id,
            ).contains(name) || exists|i: int|
                0 <= i < init.len() && (#[trigger] init[i]).0 == name && init[i].1 == id);
        }
    }
}

} // verus!
