//! What an impl must give each method of its trait.

use vstd::prelude::*;
use crate::checker::{Checker, CheckerModel};
use crate::diagnostics::{an_error_at, Diag, Diagnostic};
use crate::impls::{impl_of, ImplHead, ImplHeadModel};
use crate::infos::{MethodModel, TraitMethodInfo};
use crate::subst::{acyclic, applied};
use crate::table::Table;
use crate::text::{concat5, decimal, number_text, text_eq};
use crate::type_vars::{replace_vars, replace_vars_in_all, replaced, replaced_all};
use crate::types::{Ty, Type, group_type_models};
use crate::values::{outcome, Dup};

verus! {

/// Fresh variables for the variables of a scheme but one, and the next variable.
pub open spec fn freshened(vars: Seq<u32>, but: Option<u32>, next: int) -> (Map<u32, Ty>, int)
    decreases vars.len(),
{
    if vars.len() == 0 {
        (Map::empty(), next)
    } else {
        let before = freshened(vars.drop_last(), but, next);
        if but == Some(vars.last()) {
            before
        } else {
            (before.0.insert(vars.last(), Ty::Var(before.1 as u32)), before.1 + 1)
        }
    }
}

proof fn freshened_bounds(vars: Seq<u32>, but: Option<u32>, next: int)
    ensures
        next <= freshened(vars, but, next).1 <= next + vars.len(),
    decreases vars.len(),
{
    if vars.len() > 0 {
        freshened_bounds(vars.drop_last(), but, next);
    }
}

/// The further arguments of the first constraint on a trait.
pub open spec fn constraint_args(
    constraints: Seq<(Seq<char>, u32, Seq<Ty>)>,
    name: Seq<char>,
) -> Option<Seq<Ty>>
    decreases constraints.len(),
{
    if constraints.len() == 0 {
        None
    } else {
        match constraint_args(constraints.drop_last(), name) {
            Some(args) => Some(args),
            None => if constraints.last().0 == name {
                Some(constraints.last().2)
            } else {
                None
            },
        }
    }
}

proof fn constraint_args_stay(
    constraints: Seq<(Seq<char>, u32, Seq<Ty>)>,
    name: Seq<char>,
    n: int,
)
    requires
        0 <= n <= constraints.len(),
        constraint_args(constraints.take(n), name) is Some,
    ensures
        constraint_args(constraints, name) == constraint_args(constraints.take(n), name),
    decreases constraints.len(),
{
    if n < constraints.len() {
        assert(constraints.drop_last().take(n) =~= constraints.take(n));
        constraint_args_stay(constraints.drop_last(), name, n);
    } else {
        assert(constraints.take(n) =~= constraints);
    }
}

fn find_constraint_args<'a>(constraints: &'a Vec<(String, u32, Vec<Type>)>, name: &str) -> (r:
    Option<&'a Vec<Type>>)
    ensures
        r.deep_view() == constraint_args(constraints.deep_view(), name@),
{
    let ghost all = constraints.deep_view();
    let mut i: usize = 0;
    assert(all.take(0) =~= Seq::empty());
    while i < constraints.len()
        invariant
            i <= constraints.len(),
            all == constraints.deep_view(),
            constraint_args(all.take(i as int), name@) is None,
        decreases constraints.len() - i,
    {
        proof {
            assert(all.take(i + 1).drop_last() =~= all.take(i as int));
            assert(all.take(i + 1).last() == all[i as int]);
        }
        if text_eq(constraints[i].0.as_str(), name) {
            proof {
                constraint_args_stay(all, name@, i + 1);
            }
            return Some(&constraints[i].2);
        }
        i = i + 1;
    }
    assert(all.take(i as int) =~= all);
    None
}

/// The variables of the further parameters of a trait, bound to the arguments of
/// the impl: the first `n` of them.
pub open spec fn with_impl_args(
    m: Map<u32, Ty>,
    fresh: Map<u32, Ty>,
    extras: Seq<Ty>,
    args: Seq<Ty>,
    n: nat,
) -> Map<u32, Ty>
    decreases n,
{
    if n == 0 {
        m
    } else {
        let before = with_impl_args(m, fresh, extras, args, (n - 1) as nat);
        match replaced(extras[n - 1], fresh) {
            Ty::Var(id) => before.insert(id, args[n - 1]),
            _ => before,
        }
    }
}

pub open spec fn shorter(a: nat, b: nat) -> nat {
    if a < b {
        a
    } else {
        b
    }
}

/// What the variables of a trait stand for in an impl: the self parameter for the
/// target, the others for the further arguments.
pub open spec fn impl_vars(
    method: MethodModel,
    trait_name: Seq<char>,
    target: Ty,
    args: Seq<Ty>,
    fresh: Map<u32, Ty>,
) -> Map<u32, Ty> {
    let own = match method.trait_param_id {
        Some(id) => Map::empty().insert(id, target),
        None => Map::empty(),
    };
    match constraint_args(method.scheme.constraints, trait_name) {
        Some(extras) => with_impl_args(
            own,
            fresh,
            extras,
            args,
            shorter(extras.len(), args.len()),
        ),
        None => own,
    }
}

/// The types that a method has in an impl: of its parameters, and of its result.
pub open spec fn method_in_impl(
    method: MethodModel,
    trait_name: Seq<char>,
    target: Ty,
    args: Seq<Ty>,
    next: int,
) -> (Seq<Ty>, Ty) {
    let fresh = freshened(method.scheme.forall, method.trait_param_id, next).0;
    let m = impl_vars(method, trait_name, target, args, fresh);
    (
        replaced_all(replaced_all(method.param_types, fresh), m),
        replaced(replaced(method.return_type, fresh), m),
    )
}

impl Checker {
    fn freshen_but(&mut self, vars: &Vec<u32>, but: Option<u32>) -> (r: Table<u32, Type>)
        requires
            old(self).next_var + vars.len() <= u32::MAX,
        ensures
            r.deep_view() == freshened(vars@, but, old(self).next_var as int).0,
            final(self).deep_view() == (CheckerModel {
                next_var: freshened(vars@, but, old(self).next_var as int).1 as u32,
                ..old(self).deep_view()
            }),
    {
        let ghost c0 = self.deep_view();
        let mut out: Table<u32, Type> = Table::new();
        let mut i: usize = 0;
        assert(vars@.take(0) =~= Seq::empty());
        while i < vars.len()
            invariant
                i <= vars.len(),
                c0.next_var + vars.len() <= u32::MAX,
                out.deep_view() == freshened(vars@.take(i as int), but, c0.next_var as int).0,
                self.next_var == freshened(vars@.take(i as int), but, c0.next_var as int).1,
                self.deep_view() == (CheckerModel { next_var: self.next_var, ..c0 }),
            decreases vars.len() - i,
        {
            broadcast use group_type_models;

            proof {
                assert(vars@.take(i + 1).drop_last() =~= vars@.take(i as int));
                assert(vars@.take(i + 1).last() == vars@[i as int]);
                freshened_bounds(vars@.take(i as int), but, c0.next_var as int);
            }
            let id = vars[i];
            let skip = match but {
                Some(other) => other == id,
                None => false,
            };
            if !skip {
                let fresh = self.fresh_var();
                out.insert(id, Type::Var(fresh));
            }
            i = i + 1;
        }
        assert(vars@.take(i as int) =~= vars@);
        out
    }

    /// The types that a method has in an impl: of its parameters, and of its result.
    /// What the trait leaves open gets fresh variables, so that one impl does not
    /// settle it for another.
    pub fn expected_method(
        &mut self,
        method: &TraitMethodInfo,
        trait_name: &str,
        target: &Type,
        trait_type_args: &Vec<Type>,
    ) -> (r: (Vec<Type>, Type))
        requires
            old(self).next_var + method.scheme.forall.len() <= u32::MAX,
        ensures
            r.deep_view() == method_in_impl(
                method.deep_view(),
                trait_name@,
                target@,
                trait_type_args.deep_view(),
                old(self).next_var as int,
            ),
            final(self).deep_view() == (CheckerModel {
                next_var: freshened(
                    method.scheme.forall@,
                    method.trait_param_id,
                    old(self).next_var as int,
                ).1 as u32,
                ..old(self).deep_view()
            }),
    {
        let ghost next = self.next_var as int;
        let fresh = self.freshen_but(&method.scheme.forall, method.trait_param_id);
        assert(method.scheme.forall.deep_view() =~= method.scheme.forall@);
        let ghost m0 = fresh.deep_view();
        let mut own: Table<u32, Type> = Table::new();
        if let Some(id) = method.trait_param_id {
            own.insert(id, target.dup());
        }
        let ghost start = own.deep_view();
        let args = trait_type_args;
        let ghost all = args.deep_view();
        if let Some(extras) = find_constraint_args(&method.scheme.constraints, trait_name) {
            let ghost es = extras.deep_view();
            let mut i: usize = 0;
            while i < extras.len() && i < args.len()
                invariant
                    i <= extras.len(),
                    i <= args.len(),
                    es == extras.deep_view(),
                    all == args.deep_view(),
                    m0 == fresh.deep_view(),
                    own.deep_view() == with_impl_args(start, m0, es, all, i as nat),
                decreases extras.len() - i,
            {
                broadcast use group_type_models;

                assert(es[i as int] == extras@[i as int]@);
                assert(all[i as int] == args@[i as int]@);
                if let Type::Var(id) = replace_vars(&extras[i], &fresh) {
                    own.insert(id, args[i].dup());
                }
                i = i + 1;
            }
            assert(i == shorter(es.len(), all.len()));
        }
        let params = replace_vars_in_all(&method.param_types, &fresh);
        let params = replace_vars_in_all(&params, &own);
        let result = replace_vars(&method.return_type, &fresh);
        let result = replace_vars(&result, &own);
        (params, result)
    }
}

/// The type of a parameter of a method in an impl, with the type that is left for
/// the result. Parameters beyond those of the trait method take apart its result.
pub open spec fn next_param(
    c: CheckerModel,
    h: ImplHeadModel,
    method: Seq<char>,
    count: nat,
    expected: Seq<Ty>,
    at: int,
    remaining: Ty,
) -> Result<(Ty, Ty), Diag> {
    if at < expected.len() {
        Ok((expected[at], remaining))
    } else {
        match applied(c.sub, remaining) {
            Ty::Fun(arg, ret, _) => Ok((*arg, *ret)),
            _ => Err(
                an_error_at(
                    h.span,
                    "in "@ + impl_of(h) + ", method '"@ + method + "' binds "@ + decimal(count)
                        + " parameter(s) but the trait method's type does not accept that many"@,
                ),
            ),
        }
    }
}

impl Checker {
    /// The type of a parameter of a method in an impl, with the type that is left
    /// for the result.
    pub fn next_param_type(
        &self,
        head: &ImplHead,
        method: &str,
        count: usize,
        expected: &Vec<Type>,
        at: usize,
        remaining: &Type,
    ) -> (r: Result<(Type, Type), Diagnostic>)
        requires
            acyclic(self.sub@),
        ensures
            outcome(r) == next_param(
                self.deep_view(),
                head.deep_view(),
                method@,
                count as nat,
                expected.deep_view(),
                at as int,
                remaining@,
            ),
    {
        broadcast use group_type_models;

        assert(expected.deep_view().len() == expected.len());
        if at < expected.len() {
            return Ok((expected[at].dup(), remaining.dup()));
        }
        match self.sub.apply(remaining) {
            Type::Fun(arg, ret, _) => Ok((*arg, *ret)),
            _ => {
                let shown = crate::text::concat4(
                    "impl ",
                    head.trait_name.as_str(),
                    " for ",
                    head.target_type.as_str(),
                );
                let n = number_text(count as u64);
                let start = concat5("in ", shown.as_str(), ", method '", method, "' binds ");
                let message = crate::text::concat3(
                    start.as_str(),
                    n.as_str(),
                    " parameter(s) but the trait method's type does not accept that many",
                );
                Err(Diagnostic::error_at(head.span, message))
            },
        }
    }
}

proof fn freshened_leaves_out(vars: Seq<u32>, id: u32, next: int)
    ensures
        !freshened(vars, Some(id), next).0.dom().contains(id),
    decreases vars.len(),
{
    if vars.len() > 0 {
        freshened_leaves_out(vars.drop_last(), id, next);
    }
}

/// Where a method of a trait without further parameters gives back the self type,
/// it gives back the target in an impl.
pub proof fn self_type_is_target(method: MethodModel, trait_name: Seq<char>, target: Ty, next: int)
    requires
        method.trait_param_id is Some,
        method.return_type == Ty::Var(method.trait_param_id->0),
    ensures
        method_in_impl(method, trait_name, target, Seq::empty(), next).1 == target,
{
    let id = method.trait_param_id->0;
    let fresh = freshened(method.scheme.forall, Some(id), next).0;
    freshened_leaves_out(method.scheme.forall, id, next);
    let m = impl_vars(method, trait_name, target, Seq::empty(), fresh);
    assert(m.dom().contains(id) && m[id] == target);
    assert(replaced(Ty::Var(id), fresh) == Ty::Var(id));
}

/// What is left open by a trait becomes a variable of its own in each impl: each
/// quantified variable but the self parameter is replaced, and the self parameter is
/// not.
pub proof fn open_variables_are_freshened(vars: Seq<u32>, but: Option<u32>, next: int, id: u32)
    requires
        0 <= next,
        next + vars.len() <= u32::MAX,
    ensures
        ({
            let r = freshened(vars, but, next);
            &&& next <= r.1 <= next + vars.len()
            &&& r.0.dom().contains(id) <==> vars.contains(id) && but != Some(id)
            &&& r.0.dom().contains(id) ==> (r.0[id] matches Ty::Var(v) && next <= v < r.1)
        }),
    decreases vars.len(),
{
    if vars.len() > 0 {
        let init = vars.drop_last();
        open_variables_are_freshened(init, but, next, id);
        assert(vars =~= init.push(vars.last()));
        crate::seqs::push_contains(init, vars.last(), id);
    }
}

/// The types of a method in an impl are those of the trait, with what is left open
/// freshened and then the variables of the trait replaced by what the impl is for. There
/// is one for each parameter, in order.
pub proof fn methods_are_typed_by_their_impl(
    method: MethodModel,
    trait_name: Seq<char>,
    target: Ty,
    args: Seq<Ty>,
    next: int,
    i: int,
)
    requires
        0 <= i < method.param_types.len(),
        method.trait_param_id is Some,
        constraint_args(method.scheme.constraints, trait_name) matches Some(extras) ==> extras.len()
            == 0,
    ensures
        ({
            let typed = method_in_impl(method, trait_name, target, args, next);
            let id = method.trait_param_id->0;
            let fresh = freshened(method.scheme.forall, Some(id), next).0;
            let own = Map::<u32, Ty>::empty().insert(id, target);
            &&& typed.0.len() == method.param_types.len()
            &&& typed.0[i] == replaced(replaced(method.param_types[i], fresh), own)
            &&& typed.1 == replaced(replaced(method.return_type, fresh), own)
            &&& method.param_types[i] == Ty::Var(id) ==> typed.0[i] == target
        }),
{
    let id = method.trait_param_id->0;
    freshened_leaves_out(method.scheme.forall, id, next);
}

} // verus!
