//! Settling the trait constraints of a module.
//!
//! Settling takes turns with unification, which is not done here: a [`Solver`] takes
//! one step at a time and says what is to be unified.

use vstd::prelude::*;
use crate::ast::NodeId;
use crate::bounds::known_traits;
use crate::checker::{
    Checker, CheckerModel, EvidenceModel, PendingConstraint, PendingModel, TraitEvidence,
    TraitStateModel,
};
use crate::diagnostics::{an_error_at, Diag, Diagnostic};
use crate::exports::add_names;
use crate::infos::{ImplInfo, ImplModel, MethodModel, TraitMethodInfo, TraitModel};
use crate::names::{
    arity_keyed_target_name, canonical_type_name, canonicalize_type_name, keyed_target,
};
use crate::patterns::{
    filled, filled_all, match_type_pattern, matched, substitute_all, substitute_pattern_vars,
};
use crate::seqs::add_new;
use crate::subst::{acyclic, applied, Sub, Substitution};
use crate::supertraits::covering;
use crate::table::{at_key, put, Table};
use crate::text::{after_last_dot, concat3, concat5, last_segment, text_eq};
use crate::token::Span;
use crate::traits::trait_named;
use crate::type_vars::{free_vars_in_types, vars_of_all, with_free};
use crate::types::{Ty, Type, group_type_models};
use crate::values::{push_value, Dup};

verus! {

/// What is known of bound variables, by the variables that they stand for.
pub struct ResolvedBounds {
    /// The traits that a variable has.
    pub bounds: Table<u32, Vec<String>>,
    /// Its source name.
    pub names: Table<u32, String>,
    /// The further arguments of a trait that it has.
    pub args: Table<(u32, String), Vec<Type>>,
}

#[verifier::ext_equal]
pub struct ResolvedBoundsModel {
    pub bounds: Seq<(u32, Seq<Seq<char>>)>,
    pub names: Seq<(u32, Seq<char>)>,
    pub args: Seq<((u32, Seq<char>), Seq<Ty>)>,
}

impl DeepView for ResolvedBounds {
    type V = ResolvedBoundsModel;

    open spec fn deep_view(&self) -> ResolvedBoundsModel {
        ResolvedBoundsModel {
            bounds: self.bounds.order(),
            names: self.names.order(),
            args: self.args.order(),
        }
    }
}

impl Dup for ResolvedBounds {
    fn dup(&self) -> (r: Self) {
        ResolvedBounds {
            bounds: self.bounds.dup(),
            names: self.names.dup(),
            args: self.args.dup(),
        }
    }
}

/// Types as the substitution has them.
pub open spec fn all_applied(sub: Sub, ts: Seq<Ty>) -> Seq<Ty> {
    ts.map_values(|t: Ty| applied(sub, t))
}

/// Types as the substitution has them.
pub fn apply_to_all(sub: &Substitution, v: &Vec<Type>) -> (r: Vec<Type>)
    requires
        acyclic(sub@),
    ensures
        r.deep_view() == all_applied(sub@, v.deep_view()),
{
    let mut out: Vec<Type> = Vec::new();
    let mut i: usize = 0;
    while i < v.len()
        invariant
            i <= v.len(),
            acyclic(sub@),
            out.len() == i,
            forall|j: int| 0 <= j < i ==> #[trigger] out.deep_view()[j] == applied(
                sub@,
                v.deep_view()[j],
            ),
        decreases v.len() - i,
    {
        push_value(&mut out, sub.apply(&v[i]));
        i = i + 1;
    }
    assert(out.deep_view() =~= all_applied(sub@, v.deep_view()));
    out
}

/// The further arguments of a trait of a bound variable, under the variable that it
/// stands for.
pub open spec fn with_resolved_arg(
    c: CheckerModel,
    id: u32,
    resolved: u32,
    args: Seq<((u32, Seq<char>), Seq<Ty>)>,
    name: Seq<char>,
) -> Seq<((u32, Seq<char>), Seq<Ty>)> {
    match at_key(c.trait_state.where_bound_trait_args, (id, name)) {
        Some(extras) => put(args, (resolved, name), all_applied(c.sub, extras)),
        None => args,
    }
}

pub open spec fn with_resolved_args(
    c: CheckerModel,
    id: u32,
    resolved: u32,
    acc: Seq<((u32, Seq<char>), Seq<Ty>)>,
    items: Seq<Seq<char>>,
) -> Seq<((u32, Seq<char>), Seq<Ty>)>
    decreases items.len(),
{
    if items.len() == 0 {
        acc
    } else {
        with_resolved_arg(
            c,
            id,
            resolved,
            with_resolved_args(c, id, resolved, acc, items.drop_last()),
            items.last(),
        )
    }
}

/// A bound under the variable that its variable stands for. A variable that is
/// settled drops out.
pub open spec fn with_resolved_bound(
    c: CheckerModel,
    known: ResolvedBoundsModel,
    b: (u32, Seq<Seq<char>>),
) -> ResolvedBoundsModel {
    match applied(c.sub, Ty::Var(b.0)) {
        Ty::Var(resolved) => ResolvedBoundsModel {
            bounds: put(
                known.bounds,
                resolved,
                add_new(known_traits(known.bounds, resolved), b.1),
            ),
            names: match at_key(c.trait_state.where_bound_var_names, b.0) {
                Some(name) => put(known.names, resolved, name),
                None => known.names,
            },
            args: with_resolved_args(c, b.0, resolved, known.args, b.1),
        },
        _ => known,
    }
}

pub open spec fn with_all_resolved(
    c: CheckerModel,
    acc: ResolvedBoundsModel,
    items: Seq<(u32, Seq<Seq<char>>)>,
) -> ResolvedBoundsModel
    decreases items.len(),
{
    if items.len() == 0 {
        acc
    } else {
        with_resolved_bound(c, with_all_resolved(c, acc, items.drop_last()), items.last())
    }
}

pub open spec fn nothing_known() -> ResolvedBoundsModel {
    ResolvedBoundsModel { bounds: Seq::empty(), names: Seq::empty(), args: Seq::empty() }
}

/// What is known of bound variables, by the variables that they stand for.
pub open spec fn resolved_bounds(c: CheckerModel) -> ResolvedBoundsModel {
    with_all_resolved(c, nothing_known(), c.trait_state.where_bounds)
}

fn add_resolved_args(
    c: &Checker,
    id: u32,
    resolved: u32,
    acc: &mut Table<(u32, String), Vec<Type>>,
    items: &Vec<String>,
)
    requires
        acyclic(c.sub@),
    ensures
        final(acc).order() == with_resolved_args(
            c.deep_view(),
            id,
            resolved,
            old(acc).order(),
            items.deep_view(),
        ),
{
    let ghost a0 = acc.order();
    let ghost all = items.deep_view();
    let mut i: usize = 0;
    assert(all.take(0) =~= Seq::empty());
    while i < items.len()
        invariant
            i <= items.len(),
            all == items.deep_view(),
            acc.order() == with_resolved_args(c.deep_view(), id, resolved, a0, all.take(i as int)),
            acyclic(c.sub@),
        decreases items.len() - i,
    {
        proof {
            assert(all.take(i + 1).drop_last() =~= all.take(i as int));
            assert(all.take(i + 1).last() == all[i as int]);
        }
        let name = &items[i];
        if let Some(extras) = c.trait_state.where_bound_trait_args.get(&(id, name.clone())) {
            let extras = apply_to_all(&c.sub, extras);
            acc.insert((resolved, name.clone()), extras);
        }
        i = i + 1;
    }
    assert(all.take(i as int) =~= all);
}

fn add_resolved_bounds(c: &Checker, acc: &mut ResolvedBounds, items: &Table<u32, Vec<String>>)
    requires
        acyclic(c.sub@),
    ensures
        final(acc).deep_view() == with_all_resolved(
            c.deep_view(),
            old(acc).deep_view(),
            items.order(),
        ),
{
    let ghost a0 = acc.deep_view();
    let ghost all = items.order();
    let n = items.len();
    let mut i: usize = 0;
    assert(all.take(0) =~= Seq::empty());
    while i < n
        invariant
            i <= n,
            all == items.order(),
            n == all.len(),
            acc.deep_view() == with_all_resolved(c.deep_view(), a0, all.take(i as int)),
            acyclic(c.sub@),
        decreases n - i,
    {
        proof {
            assert(all.take(i + 1).drop_last() =~= all.take(i as int));
            assert(all.take(i + 1).last() == all[i as int]);
        }
        broadcast use group_type_models;

        let id = *items.key(i);
        let traits = items.value(i);
        if let Type::Var(resolved) = c.sub.apply(&Type::Var(id)) {
            let mut names = match acc.bounds.get(&resolved) {
                Some(names) => names.dup(),
                None => {
                    let none: Vec<String> = Vec::new();
                    assert(none.deep_view() =~= Seq::empty());
                    none
                },
            };
            add_names(&mut names, traits);
            acc.bounds.insert(resolved, names);
            if let Some(name) = c.trait_state.where_bound_var_names.get(&id) {
                acc.names.insert(resolved, name.clone());
            }
            add_resolved_args(c, id, resolved, &mut acc.args, traits);
        }
        i = i + 1;
    }
    assert(all.take(i as int) =~= all);
}

impl Checker {
    /// What is known of bound variables, by the variables that they stand for.
    pub fn resolve_bounds(&self) -> (r: ResolvedBounds)
        requires
            acyclic(self.sub@),
        ensures
            r.deep_view() == resolved_bounds(self.deep_view()),
    {
        let mut known = ResolvedBounds {
            bounds: Table::new(),
            names: Table::new(),
            args: Table::new(),
        };
        add_resolved_bounds(self, &mut known, &self.trait_state.where_bounds);
        known
    }
}

/// Whether the type of a constraint is still a variable.
pub open spec fn is_open(sub: Sub, p: PendingModel) -> bool {
    applied(sub, p.ty) is Var
}

/// The constraints whose types are still variables, or those whose types are not.
pub open spec fn only_open(sub: Sub, open: bool, ps: Seq<PendingModel>) -> Seq<PendingModel>
    decreases ps.len(),
{
    if ps.len() == 0 {
        Seq::empty()
    } else {
        let before = only_open(sub, open, ps.drop_last());
        if is_open(sub, ps.last()) == open {
            before.push(ps.last())
        } else {
            before
        }
    }
}

/// Constraints in the order in which they are settled: those whose types are known
/// come first.
pub open spec fn known_first(sub: Sub, ps: Seq<PendingModel>) -> Seq<PendingModel> {
    only_open(sub, false, ps) + only_open(sub, true, ps)
}

fn push_open(
    sub: &Substitution,
    open: bool,
    items: &Vec<PendingConstraint>,
    out: &mut Vec<PendingConstraint>,
)
    requires
        acyclic(sub@),
    ensures
        final(out).deep_view() == old(out).deep_view() + only_open(
            sub@,
            open,
            items.deep_view(),
        ),
{
    let ghost out0 = out.deep_view();
    let ghost all = items.deep_view();
    let mut i: usize = 0;
    assert(all.take(0) =~= Seq::empty());
    assert(out0 =~= out0 + only_open(sub@, open, all.take(0)));
    while i < items.len()
        invariant
            i <= items.len(),
            acyclic(sub@),
            all == items.deep_view(),
            out.deep_view() == out0 + only_open(sub@, open, all.take(i as int)),
        decreases items.len() - i,
    {
        broadcast use group_type_models;

        proof {
            assert(all.take(i + 1).drop_last() =~= all.take(i as int));
            assert(all.take(i + 1).last() == all[i as int]);
        }
        let is_var = match sub.apply(&items[i].ty) {
            Type::Var(_) => true,
            _ => false,
        };
        let ghost before = only_open(sub@, open, all.take(i as int));
        if is_var == open {
            push_value(out, items[i].dup());
            assert(out.deep_view() =~= out0 + before.push(all[i as int]));
        }
        i = i + 1;
    }
    assert(all.take(i as int) =~= all);
}

fn put_known_first(
    sub: &Substitution,
    items: &Vec<PendingConstraint>,
) -> (r: Vec<PendingConstraint>)
    requires
        acyclic(sub@),
    ensures
        r.deep_view() == known_first(sub@, items.deep_view()),
{
    let mut out: Vec<PendingConstraint> = Vec::new();
    assert(out.deep_view() =~= Seq::empty());
    push_open(sub, false, items, &mut out);
    push_open(sub, true, items, &mut out);
    assert(out.deep_view() =~= known_first(sub@, items.deep_view()));
    out
}

/// A complaint about a constraint. One that a deriving clause led to is about the
/// clause.
pub open spec fn routed(c: CheckerModel, id: NodeId, message: Seq<char>, span: Span) -> Diag {
    match at_key(c.trait_state.routed_constraint_origins, id) {
        Some(origin) => an_error_at(
            origin.deriving_span,
            "cannot derive `"@ + origin.trait_name + "` for `"@ + origin.target_type
                + "`: missing required instance ("@ + message
                + "). Make sure all field types implement `"@ + origin.trait_name
                + "`, or also derive `"@ + origin.trait_name + "` on them."@,
        ),
        None => an_error_at(span, message),
    }
}

impl Checker {
    fn routed_error(&self, id: NodeId, message: String, span: Span) -> (r: Diagnostic)
        ensures
            r@ == routed(self.deep_view(), id, message@, span),
    {
        match self.trait_state.routed_constraint_origins.get(&id) {
            Some(origin) => {
                let start = concat5(
                    "cannot derive `",
                    origin.trait_name.as_str(),
                    "` for `",
                    origin.target_type.as_str(),
                    "`: missing required instance (",
                );
                let start = concat5(
                    start.as_str(),
                    message.as_str(),
                    "). Make sure all field types implement `",
                    origin.trait_name.as_str(),
                    "`, or also derive `",
                );
                let message = concat3(start.as_str(), origin.trait_name.as_str(), "` on them.");
                Diagnostic::error_at(origin.deriving_span, message)
            },
            None => Diagnostic::error_at(span, message),
        }
    }
}

/// The names of the arguments that are settled.
pub open spec fn settled_names(sub: Sub, args: Seq<Ty>) -> Seq<Seq<char>>
    decreases args.len(),
{
    if args.len() == 0 {
        Seq::empty()
    } else {
        let before = settled_names(sub, args.drop_last());
        match applied(sub, args.last()) {
            Ty::Con(name, _) => before.push(name),
            _ => before,
        }
    }
}

fn find_settled_names(sub: &Substitution, args: &Vec<Type>) -> (r: Vec<String>)
    requires
        acyclic(sub@),
    ensures
        r.deep_view() == settled_names(sub@, args.deep_view()),
{
    let ghost all = args.deep_view();
    let mut out: Vec<String> = Vec::new();
    let mut i: usize = 0;
    assert(all.take(0) =~= Seq::empty());
    assert(out.deep_view() =~= Seq::empty());
    while i < args.len()
        invariant
            i <= args.len(),
            acyclic(sub@),
            all == args.deep_view(),
            out.deep_view() == settled_names(sub@, all.take(i as int)),
        decreases args.len() - i,
    {
        broadcast use group_type_models;

        proof {
            assert(all.take(i + 1).drop_last() =~= all.take(i as int));
            assert(all.take(i + 1).last() == all[i as int]);
        }
        if let Type::Con(name, _) = sub.apply(&args[i]) {
            push_value(&mut out, name);
        }
        i = i + 1;
    }
    assert(all.take(i as int) =~= all);
    out
}

/// Whether the first `n` arguments of a trait are instances of those of an impl,
/// and what the variables of the impl then stand for.
pub open spec fn args_matched(
    sub: Sub,
    actuals: Seq<Ty>,
    patterns: Seq<Ty>,
    m: Map<u32, Ty>,
    n: nat,
) -> (bool, Map<u32, Ty>)
    decreases n,
{
    if n == 0 {
        (true, m)
    } else {
        let before = args_matched(sub, actuals, patterns, m, (n - 1) as nat);
        if before.0 {
            matched(filled(patterns[n - 1], before.1), applied(sub, actuals[n - 1]), before.1)
        } else {
            before
        }
    }
}

proof fn args_matched_stop(
    sub: Sub,
    actuals: Seq<Ty>,
    patterns: Seq<Ty>,
    m: Map<u32, Ty>,
    n: nat,
    k: nat,
)
    requires
        n <= k,
        !args_matched(sub, actuals, patterns, m, n).0,
    ensures
        !args_matched(sub, actuals, patterns, m, k).0,
    decreases k,
{
    if n < k {
        args_matched_stop(sub, actuals, patterns, m, n, (k - 1) as nat);
    }
}

/// Whether an impl is one for a type and the arguments of a trait, by its patterns.
pub open spec fn impl_fits(sub: Sub, info: ImplModel, ty: Ty, args: Seq<Ty>) -> bool {
    match info.target_pattern {
        None => false,
        Some(pattern) => {
            let m = matched(pattern, ty, Map::empty());
            &&& m.0
            &&& args.len() == info.trait_type_args.len()
            &&& args_matched(sub, args, info.trait_type_args, m.1, args.len()).0
        },
    }
}

fn fits(sub: &Substitution, info: &ImplInfo, ty: &Type, args: &Vec<Type>) -> (r: bool)
    requires
        acyclic(sub@),
    ensures
        r == impl_fits(sub@, info.deep_view(), ty@, args.deep_view()),
{
    let ghost actuals = args.deep_view();
    let ghost patterns = info.trait_type_args.deep_view();
    assert(actuals.len() == args.len());
    assert(patterns.len() == info.trait_type_args.len());
    let pattern = match &info.target_pattern {
        None => {
            return false;
        },
        Some(pattern) => pattern,
    };
    let mut subst: Table<u32, Type> = Table::new();
    if !match_type_pattern(pattern, ty, &mut subst) {
        return false;
    }
    if args.len() != info.trait_type_args.len() {
        return false;
    }
    let ghost m = subst.deep_view();
    let mut i: usize = 0;
    while i < args.len()
        invariant
            i <= args.len(),
            acyclic(sub@),
            args.len() == info.trait_type_args.len(),
            actuals == args.deep_view(),
            patterns == info.trait_type_args.deep_view(),
            m == matched(pattern@, ty@, Map::empty()).1,
            impl_fits(sub@, info.deep_view(), ty@, args.deep_view()) == args_matched(
                sub@,
                actuals,
                patterns,
                m,
                actuals.len(),
            ).0,
            args_matched(sub@, actuals, patterns, m, i as nat) == (true, subst.deep_view()),
        decreases args.len() - i,
    {
        assert(actuals[i as int] == args@[i as int]@);
        assert(patterns[i as int] == info.trait_type_args@[i as int]@);
        let expected = substitute_pattern_vars(&info.trait_type_args[i], &subst);
        let actual = sub.apply(&args[i]);
        if !match_type_pattern(&expected, &actual, &mut subst) {
            proof {
                args_matched_stop(sub@, actuals, patterns, m, (i + 1) as nat, actuals.len());
            }
            return false;
        }
        i = i + 1;
    }
    true
}

/// The impls of a trait for a target.
pub open spec fn impls_for(
    impls: Seq<((Seq<char>, Seq<Seq<char>>, Seq<char>), ImplModel)>,
    trait_name: Seq<char>,
    target: Seq<char>,
) -> Seq<ImplModel>
    decreases impls.len(),
{
    if impls.len() == 0 {
        Seq::empty()
    } else {
        let before = impls_for(impls.drop_last(), trait_name, target);
        if impls.last().0.0 == trait_name && impls.last().0.2 == target {
            before.push(impls.last().1)
        } else {
            before
        }
    }
}

/// Those of some impls that are for a type and the arguments of a trait.
pub open spec fn fitting(sub: Sub, infos: Seq<ImplModel>, ty: Ty, args: Seq<Ty>) -> Seq<ImplModel>
    decreases infos.len(),
{
    if infos.len() == 0 {
        Seq::empty()
    } else {
        let before = fitting(sub, infos.drop_last(), ty, args);
        if impl_fits(sub, infos.last(), ty, args) {
            before.push(infos.last())
        } else {
            before
        }
    }
}

/// The one of some impls, where there is just one.
pub open spec fn only_one(infos: Seq<ImplModel>) -> Option<ImplModel> {
    if infos.len() == 1 {
        Some(infos[0])
    } else {
        None
    }
}

/// The impl of a trait for a type: by the key of the type and the names of the
/// arguments; for a tuple also by the key of all tuples; the only one for the
/// type, where some arguments are not settled; the only one that fits by its
/// patterns.
pub open spec fn impl_found(
    c: CheckerModel,
    trait_name: Seq<char>,
    trait_args: Seq<Ty>,
    head: Seq<char>,
    args: Seq<Ty>,
) -> Option<ImplModel> {
    let names = settled_names(c.sub, trait_args);
    let key = keyed_target(head, args.len());
    let impls = c.trait_state.impls;
    let own = impls_for(impls, trait_name, key);
    match at_key(impls, (trait_name, names, key)) {
        Some(info) => Some(info),
        None => match (if key != head {
            at_key(impls, (trait_name, names, head))
        } else {
            None
        }) {
            Some(info) => Some(info),
            None => match (if names.len() != trait_args.len() {
                only_one(own)
            } else {
                None
            }) {
                Some(info) => Some(info),
                None => only_one(fitting(c.sub, own, Ty::Con(head, args), trait_args)),
            },
        },
    }
}

impl Checker {
    fn find_impls_for(&self, trait_name: &str, target: &str) -> (r: Vec<ImplInfo>)
        ensures
            r.deep_view() == impls_for(
                self.deep_view().trait_state.impls,
                trait_name@,
                target@,
            ),
    {
        let impls = &self.trait_state.impls;
        let ghost all = impls.order();
        let n = impls.len();
        let mut out: Vec<ImplInfo> = Vec::new();
        let mut i: usize = 0;
        assert(all.take(0) =~= Seq::empty());
        assert(out.deep_view() =~= Seq::empty());
        while i < n
            invariant
                i <= n,
                n == all.len(),
                all == impls.order(),
                out.deep_view() == impls_for(all.take(i as int), trait_name@, target@),
            decreases n - i,
        {
            proof {
                assert(all.take(i + 1).drop_last() =~= all.take(i as int));
                assert(all.take(i + 1).last() == all[i as int]);
            }
            let key = impls.key(i);
            if text_eq(key.0.as_str(), trait_name) && text_eq(key.2.as_str(), target) {
                push_value(&mut out, impls.value(i).dup());
            }
            i = i + 1;
        }
        assert(all.take(i as int) =~= all);
        out
    }

    fn find_fitting(&self, infos: &Vec<ImplInfo>, ty: &Type, args: &Vec<Type>) -> (r: Vec<ImplInfo>)
        requires
            acyclic(self.sub@),
        ensures
            r.deep_view() == fitting(self.sub@, infos.deep_view(), ty@, args.deep_view()),
    {
        let ghost all = infos.deep_view();
        let mut out: Vec<ImplInfo> = Vec::new();
        let mut i: usize = 0;
        assert(all.take(0) =~= Seq::empty());
        assert(out.deep_view() =~= Seq::empty());
        while i < infos.len()
            invariant
                i <= infos.len(),
                acyclic(self.sub@),
                all == infos.deep_view(),
                out.deep_view() == fitting(
                    self.sub@,
                    all.take(i as int),
                    ty@,
                    args.deep_view(),
                ),
            decreases infos.len() - i,
        {
            proof {
                assert(all.take(i + 1).drop_last() =~= all.take(i as int));
                assert(all.take(i + 1).last() == all[i as int]);
            }
            if fits(&self.sub, &infos[i], ty, args) {
                push_value(&mut out, infos[i].dup());
            }
            i = i + 1;
        }
        assert(all.take(i as int) =~= all);
        out
    }

    /// The impl of a trait for a type.
    pub fn find_impl(
        &self,
        trait_name: &str,
        trait_args: &Vec<Type>,
        head: &str,
        args: &Vec<Type>,
    ) -> (r: Option<ImplInfo>)
        requires
            acyclic(self.sub@),
        ensures
            r.deep_view() == impl_found(
                self.deep_view(),
                trait_name@,
                trait_args.deep_view(),
                head@,
                args.deep_view(),
            ),
    {
        broadcast use group_type_models;

        assert(args.deep_view().len() == args.len());
        assert(trait_args.deep_view().len() == trait_args.len());
        let names = find_settled_names(&self.sub, trait_args);
        assert(names.deep_view().len() == names.len());
        let key = arity_keyed_target_name(head, args.len());
        let at = (trait_name.to_owned(), names.dup(), key.clone());
        if let Some(info) = self.trait_state.impls.get(&at) {
            return Some(info.dup());
        }
        if !text_eq(key.as_str(), head) {
            let at = (trait_name.to_owned(), names.dup(), head.to_owned());
            if let Some(info) = self.trait_state.impls.get(&at) {
                return Some(info.dup());
            }
        }
        let own = self.find_impls_for(trait_name, key.as_str());
        assert(own.deep_view().len() == own.len());
        if names.len() != trait_args.len() && own.len() == 1 {
            return Some(own[0].dup());
        }
        let ty = Type::Con(head.to_owned(), args.dup());
        let some = self.find_fitting(&own, &ty, trait_args);
        assert(some.deep_view().len() == some.len());
        if some.len() == 1 {
            Some(some[0].dup())
        } else {
            None
        }
    }
}

/// Whether a trait has an impl for a type, by its plain name.
pub open spec fn has_impl_for(
    impls: Seq<((Seq<char>, Seq<Seq<char>>, Seq<char>), ImplModel)>,
    trait_name: Seq<char>,
    target: Seq<char>,
) -> bool {
    impls_for(impls, trait_name, target).len() > 0
}

/// Whether one of some constraints is on a trait.
pub open spec fn constrains(constraints: Seq<(Seq<char>, u32, Seq<Ty>)>, name: Seq<char>) -> bool {
    exists|i: int| 0 <= i < constraints.len() && (#[trigger] constraints[i]).0 == name
}

fn has_constraint(constraints: &Vec<(String, u32, Vec<Type>)>, name: &str) -> (r: bool)
    ensures
        r == constrains(constraints.deep_view(), name@),
{
    let mut i: usize = 0;
    while i < constraints.len()
        invariant
            i <= constraints.len(),
            forall|j: int| 0 <= j < i ==> (#[trigger] constraints.deep_view()[j]).0 != name@,
        decreases constraints.len() - i,
    {
        if text_eq(constraints[i].0.as_str(), name) {
            assert(constraints.deep_view()[i as int].0 == name@);
            return true;
        }
        i = i + 1;
    }
    false
}

/// The hint that a function hides a method of a trait.
pub open spec fn with_method_hint(
    c: CheckerModel,
    trait_name: Seq<char>,
    hint: Seq<char>,
    m: MethodModel,
) -> Seq<char> {
    match at_key(c.env.bindings, m.name) {
        Some(scheme) => if constrains(scheme.constraints, trait_name) {
            hint
        } else {
            ". `"@ + m.name + "` shadows trait method `"@ + trait_name + "."@ + m.name
                + "`. rename it to use the trait method"@
        },
        None => hint,
    }
}

pub open spec fn with_method_hints(
    c: CheckerModel,
    trait_name: Seq<char>,
    acc: Seq<char>,
    items: Seq<MethodModel>,
) -> Seq<char>
    decreases items.len(),
{
    if items.len() == 0 {
        acc
    } else {
        with_method_hint(
            c,
            trait_name,
            with_method_hints(c, trait_name, acc, items.drop_last()),
            items.last(),
        )
    }
}

pub open spec fn with_trait_hint(
    c: CheckerModel,
    target: Seq<char>,
    hint: Seq<char>,
    t: (Seq<char>, TraitModel),
) -> Seq<char> {
    if has_impl_for(c.trait_state.impls, t.0, target) {
        with_method_hints(c, t.0, hint, t.1.methods)
    } else {
        hint
    }
}

pub open spec fn with_trait_hints(
    c: CheckerModel,
    target: Seq<char>,
    acc: Seq<char>,
    items: Seq<(Seq<char>, TraitModel)>,
) -> Seq<char>
    decreases items.len(),
{
    if items.len() == 0 {
        acc
    } else {
        with_trait_hint(
            c,
            target,
            with_trait_hints(c, target, acc, items.drop_last()),
            items.last(),
        )
    }
}

fn add_method_hints(c: &Checker, trait_name: &str, acc: &mut String, items: &Vec<TraitMethodInfo>)
    ensures
        final(acc)@ == with_method_hints(c.deep_view(), trait_name@, old(acc)@, items.deep_view()),
{
    let ghost a0 = acc@;
    let ghost all = items.deep_view();
    let mut i: usize = 0;
    assert(all.take(0) =~= Seq::empty());
    while i < items.len()
        invariant
            i <= items.len(),
            all == items.deep_view(),
            acc@ == with_method_hints(c.deep_view(), trait_name@, a0, all.take(i as int)),
        decreases items.len() - i,
    {
        proof {
            assert(all.take(i + 1).drop_last() =~= all.take(i as int));
            assert(all.take(i + 1).last() == all[i as int]);
        }
        let name = items[i].name.as_str();
        if let Some(scheme) = c.env.get(name) {
            if !has_constraint(&scheme.constraints, trait_name) {
                let start = concat5(". `", name, "` shadows trait method `", trait_name, ".");
                *acc = concat3(start.as_str(), name, "`. rename it to use the trait method");
            }
        }
        i = i + 1;
    }
    assert(all.take(i as int) =~= all);
}

fn add_trait_hints(
    c: &Checker,
    target: &str,
    acc: &mut String,
    items: &Table<String, crate::infos::TraitInfo>,
)
    ensures
        final(acc)@ == with_trait_hints(c.deep_view(), target@, old(acc)@, items.order()),
{
    let ghost a0 = acc@;
    let ghost all = items.order();
    let n = items.len();
    let mut i: usize = 0;
    assert(all.take(0) =~= Seq::empty());
    while i < n
        invariant
            i <= n,
            all == items.order(),
            n == all.len(),
            acc@ == with_trait_hints(c.deep_view(), target@, a0, all.take(i as int)),
        decreases n - i,
    {
        proof {
            assert(all.take(i + 1).drop_last() =~= all.take(i as int));
            assert(all.take(i + 1).last() == all[i as int]);
        }
        let name = items.key(i);
        let own = c.find_impls_for(name.as_str(), target);
        assert(own.deep_view().len() == own.len());
        if own.len() > 0 {
            add_method_hints(c, name.as_str(), acc, &items.value(i).methods);
        }
        i = i + 1;
    }
    assert(all.take(i as int) =~= all);
}

/// The complaint that a type has no impl of a trait.
pub open spec fn no_impl(
    c: CheckerModel,
    p: PendingModel,
    trait_name: Seq<char>,
    head: Seq<char>,
) -> Diag {
    routed(
        c,
        p.node_id,
        "no impl of "@ + last_segment(trait_name) + " for "@ + head + with_trait_hints(
            c,
            head,
            ""@,
            c.trait_state.traits,
        ),
        p.span,
    )
}

/// The canonical name of the trait of a constraint.
pub open spec fn constraint_trait(c: CheckerModel, p: PendingModel) -> Seq<char> {
    match trait_named(c, p.trait_name) {
        Some(name) => name,
        None => p.trait_name,
    }
}

impl Checker {
    fn no_impl_error(&self, p: &PendingConstraint, head: &str) -> (r: Diagnostic)
        ensures
            r@ == no_impl(
                self.deep_view(),
                p.deep_view(),
                constraint_trait(self.deep_view(), p.deep_view()),
                head@,
            ),
    {
        let name = self.trait_of(p);
        let mut hint = "".to_owned();
        add_trait_hints(self, head, &mut hint, &self.trait_state.traits);
        let message = concat5(
            "no impl of ",
            after_last_dot(name.as_str()),
            " for ",
            head,
            hint.as_str(),
        );
        self.routed_error(p.node_id, message, p.span)
    }

    fn trait_of(&self, p: &PendingConstraint) -> (r: String)
        ensures
            r@ == constraint_trait(self.deep_view(), p.deep_view()),
    {
        match self.resolve_trait_name(p.trait_name.as_str()) {
            Some(name) => name,
            None => p.trait_name.clone(),
        }
    }
}

/// Fresh variables for those of some variables that do not stand for anything yet.
pub open spec fn with_fresh(m: Map<u32, Ty>, vars: Seq<u32>, next: int) -> (Map<u32, Ty>, int)
    decreases vars.len(),
{
    if vars.len() == 0 {
        (m, next)
    } else {
        let before = with_fresh(m, vars.drop_last(), next);
        if before.0.dom().contains(vars.last()) {
            before
        } else {
            (before.0.insert(vars.last(), Ty::Var(before.1 as u32)), before.1 + 1)
        }
    }
}

proof fn with_fresh_bounds(m: Map<u32, Ty>, vars: Seq<u32>, next: int)
    ensures
        next <= with_fresh(m, vars, next).1 <= next + vars.len(),
    decreases vars.len(),
{
    if vars.len() > 0 {
        with_fresh_bounds(m, vars.drop_last(), next);
    }
}

/// The variables of the arguments of constraints.
pub open spec fn with_constraint_vars(vars: Seq<u32>, k: (Seq<char>, u32, Seq<Ty>)) -> Seq<u32> {
    with_free(Seq::empty(), vars, vars_of_all(k.2))
}

pub open spec fn with_all_constraint_vars(
    acc: Seq<u32>,
    items: Seq<(Seq<char>, u32, Seq<Ty>)>,
) -> Seq<u32>
    decreases items.len(),
{
    if items.len() == 0 {
        acc
    } else {
        with_constraint_vars(with_all_constraint_vars(acc, items.drop_last()), items.last())
    }
}

/// The variables that the arguments of an impl and of its constraints speak of.
pub open spec fn impl_open_vars(info: ImplModel) -> Seq<u32> {
    with_all_constraint_vars(
        with_free(Seq::empty(), Seq::empty(), vars_of_all(info.trait_type_args)),
        info.param_constraints_by_var_with_args,
    )
}

fn add_constraint_vars(acc: &mut Vec<u32>, items: &Vec<(String, u32, Vec<Type>)>)
    ensures
        final(acc)@ == with_all_constraint_vars(old(acc)@, items.deep_view()),
{
    let ghost a0 = acc@;
    let ghost all = items.deep_view();
    let mut i: usize = 0;
    assert(all.take(0) =~= Seq::empty());
    while i < items.len()
        invariant
            i <= items.len(),
            all == items.deep_view(),
            acc@ == with_all_constraint_vars(a0, all.take(i as int)),
        decreases items.len() - i,
    {
        proof {
            assert(all.take(i + 1).drop_last() =~= all.take(i as int));
            assert(all.take(i + 1).last() == all[i as int]);
        }
        let none: Vec<u32> = Vec::new();
        assert(none@ =~= Seq::empty());
        assert(all[i as int].2 == items@[i as int].2.deep_view());
        free_vars_in_types(&items[i].2, &none, acc);
        i = i + 1;
    }
    assert(all.take(i as int) =~= all);
}

/// An impl that a constraint is being held against.
pub struct OpenImpl {
    pub constraint: PendingConstraint,
    /// The type that the constraint is on.
    pub head: String,
    /// Its arguments.
    pub args: Vec<Type>,
    pub info: ImplInfo,
    /// What the variables of the impl stand for.
    pub subst: Table<u32, Type>,
    /// How many arguments of the trait are done.
    pub at: usize,
}

#[verifier::ext_equal]
pub struct OpenImplModel {
    pub constraint: PendingModel,
    pub head: Seq<char>,
    pub args: Seq<Ty>,
    pub info: ImplModel,
    pub subst: Map<u32, Ty>,
    pub at: usize,
}

impl DeepView for OpenImpl {
    type V = OpenImplModel;

    open spec fn deep_view(&self) -> OpenImplModel {
        OpenImplModel {
            constraint: self.constraint.deep_view(),
            head: self.head.deep_view(),
            args: self.args.deep_view(),
            info: self.info.deep_view(),
            subst: self.subst.deep_view(),
            at: self.at.deep_view(),
        }
    }
}

impl Dup for OpenImpl {
    fn dup(&self) -> (r: Self) {
        OpenImpl {
            constraint: self.constraint.dup(),
            head: self.head.dup(),
            args: self.args.dup(),
            info: self.info.dup(),
            subst: self.subst.dup(),
            at: self.at.dup(),
        }
    }
}

/// A bound that a constraint is being held against.
pub struct OpenBound {
    pub constraint: PendingConstraint,
    /// The variable that the constraint is on.
    pub id: u32,
    /// The further arguments of the bound.
    pub extras: Vec<Type>,
    /// How many of them are done.
    pub at: usize,
}

#[verifier::ext_equal]
pub struct OpenBoundModel {
    pub constraint: PendingModel,
    pub id: u32,
    pub extras: Seq<Ty>,
    pub at: usize,
}

impl DeepView for OpenBound {
    type V = OpenBoundModel;

    open spec fn deep_view(&self) -> OpenBoundModel {
        OpenBoundModel {
            constraint: self.constraint.deep_view(),
            id: self.id.deep_view(),
            extras: self.extras.deep_view(),
            at: self.at.deep_view(),
        }
    }
}

impl Dup for OpenBound {
    fn dup(&self) -> (r: Self) {
        OpenBound {
            constraint: self.constraint.dup(),
            id: self.id.dup(),
            extras: self.extras.dup(),
            at: self.at.dup(),
        }
    }
}

/// What a solver is at.
pub enum Phase {
    /// Between two rounds.
    Start,
    /// Between two constraints of a round.
    Next,
    /// At the arguments of an impl.
    Impl(OpenImpl),
    /// At the arguments of a bound.
    Bound(OpenBound),
}

#[verifier::ext_equal]
pub enum PhaseModel {
    Start,
    Next,
    Impl(OpenImplModel),
    Bound(OpenBoundModel),
}

impl DeepView for Phase {
    type V = PhaseModel;

    open spec fn deep_view(&self) -> PhaseModel {
        match self {
            Phase::Start => PhaseModel::Start,
            Phase::Next => PhaseModel::Next,
            Phase::Impl(open) => PhaseModel::Impl(open.deep_view()),
            Phase::Bound(open) => PhaseModel::Bound(open.deep_view()),
        }
    }
}

impl Dup for Phase {
    fn dup(&self) -> (r: Self) {
        match self {
            Phase::Start => Phase::Start,
            Phase::Next => Phase::Next,
            Phase::Impl(open) => Phase::Impl(open.dup()),
            Phase::Bound(open) => Phase::Bound(open.dup()),
        }
    }
}

/// What comes after a step of a solver.
pub enum Action {
    /// Another step.
    Step,
    /// Two types are to be unified; the outcome goes to [`Solver::unified`].
    Unify(Type, Type, Span),
    /// All constraints hold.
    Done,
    /// A constraint does not hold.
    Failed(Diagnostic),
}

#[verifier::ext_equal]
pub enum ActionModel {
    Step,
    Unify(Ty, Ty, Span),
    Done,
    Failed(Diag),
}

impl DeepView for Action {
    type V = ActionModel;

    open spec fn deep_view(&self) -> ActionModel {
        match self {
            Action::Step => ActionModel::Step,
            Action::Unify(a, b, span) => ActionModel::Unify(a@, b@, *span),
            Action::Done => ActionModel::Done,
            Action::Failed(d) => ActionModel::Failed(d@),
        }
    }
}

/// How far settling the constraints of a module has come.
pub struct Solver {
    /// What is known of bound variables.
    pub known: ResolvedBounds,
    pub phase: Phase,
    /// The constraints of this round, in order.
    pub round: Vec<PendingConstraint>,
    /// How many of them are done.
    pub at: usize,
    /// Those that could not be settled yet, with the complaints if nothing settles
    /// them.
    pub deferred: Vec<(PendingConstraint, Diagnostic)>,
    /// How many variables were solved before the round.
    pub solved_before: usize,
}

#[verifier::ext_equal]
pub struct SolverModel {
    pub known: ResolvedBoundsModel,
    pub phase: PhaseModel,
    pub round: Seq<PendingModel>,
    pub at: usize,
    pub deferred: Seq<(PendingModel, Diag)>,
    pub solved_before: usize,
}

impl DeepView for Solver {
    type V = SolverModel;

    open spec fn deep_view(&self) -> SolverModel {
        SolverModel {
            known: self.known.deep_view(),
            phase: self.phase.deep_view(),
            round: self.round.deep_view(),
            at: self.at.deep_view(),
            deferred: self.deferred.deep_view(),
            solved_before: self.solved_before.deep_view(),
        }
    }
}

/// The start of a round: takes the pending constraints, those with known types
/// first. Where there are none, all constraints hold.
pub open spec fn round_started(c: CheckerModel, s: SolverModel) -> (
    CheckerModel,
    SolverModel,
    ActionModel,
) {
    let pending = c.trait_state.pending_constraints;
    if pending.len() == 0 {
        (c, s, ActionModel::Done)
    } else {
        (
            with_pending(c, Seq::empty()),
            SolverModel {
                phase: PhaseModel::Next,
                round: known_first(c.sub, pending),
                at: 0,
                deferred: Seq::empty(),
                solved_before: c.sub.map.dom().len() as usize,
                ..s
            },
            ActionModel::Step,
        )
    }
}

pub open spec fn with_pending(c: CheckerModel, pending: Seq<PendingModel>) -> CheckerModel {
    CheckerModel {
        trait_state: TraitStateModel { pending_constraints: pending, ..c.trait_state },
        ..c
    }
}

/// The end of a round. Constraints that could not be settled are tried again if
/// the round solved a variable or led to further constraints; otherwise nothing
/// will settle them.
pub open spec fn round_ended(c: CheckerModel, s: SolverModel) -> (
    CheckerModel,
    SolverModel,
    ActionModel,
) {
    let next = SolverModel { phase: PhaseModel::Start, ..s };
    if s.deferred.len() == 0 {
        (c, next, ActionModel::Step)
    } else if c.sub.map.dom().len() > s.solved_before || c.trait_state.pending_constraints.len()
        > 0 {
        (
            with_pending(
                c,
                c.trait_state.pending_constraints + s.deferred.map_values(
                    |d: (PendingModel, Diag)| d.0,
                ),
            ),
            next,
            ActionModel::Step,
        )
    } else {
        (c, s, ActionModel::Failed(s.deferred[0].1))
    }
}

/// A constraint on a named type: looks for the impl and opens it.
pub open spec fn named_started(
    c: CheckerModel,
    s: SolverModel,
    p: PendingModel,
    head: Seq<char>,
    args: Seq<Ty>,
) -> (CheckerModel, SolverModel, ActionModel) {
    let name = constraint_trait(c, p);
    let failed = ActionModel::Failed(no_impl(c, p, name, head));
    match impl_found(c, name, p.trait_type_args, head, args) {
        None => (c, s, failed),
        Some(info) => {
            let m = match info.target_pattern {
                Some(pattern) => matched(pattern, Ty::Con(head, args), Map::empty()),
                None => (true, Map::empty()),
            };
            if m.0 {
                let fresh = with_fresh(m.1, impl_open_vars(info), c.next_var as int);
                (
                    CheckerModel { next_var: fresh.1 as u32, ..c },
                    SolverModel {
                        phase: PhaseModel::Impl(
                            OpenImplModel {
                                constraint: p,
                                head,
                                args,
                                info,
                                subst: fresh.0,
                                at: 0,
                            },
                        ),
                        ..s
                    },
                    ActionModel::Step,
                )
            } else {
                (c, s, failed)
            }
        },
    }
}

/// A constraint on a variable: looks for a bound that covers it, and puts it off
/// where there is none.
pub open spec fn variable_started(c: CheckerModel, s: SolverModel, p: PendingModel, id: u32) -> (
    CheckerModel,
    SolverModel,
    ActionModel,
) {
    match covering(c, known_traits(s.known.bounds, id), p.trait_name) {
        None => (
            c,
            SolverModel {
                deferred: s.deferred.push(
                    (
                        PendingModel { ty: Ty::Var(id), ..p },
                        routed(
                            c,
                            p.node_id,
                            "ambiguous type variable requires "@ + last_segment(p.trait_name)
                                + ". Add a type annotation to pin the unconstrained type variable"@,
                            p.span,
                        ),
                    ),
                ),
                ..s
            },
            ActionModel::Step,
        ),
        Some(name) => (
            c,
            SolverModel {
                phase: PhaseModel::Bound(
                    OpenBoundModel {
                        constraint: p,
                        id,
                        extras: match at_key(s.known.args, (id, name)) {
                            Some(extras) => extras,
                            None => Seq::empty(),
                        },
                        at: 0,
                    },
                ),
                ..s
            },
            ActionModel::Step,
        ),
    }
}

/// The next constraint of a round.
pub open spec fn constraint_started(c: CheckerModel, s0: SolverModel) -> (
    CheckerModel,
    SolverModel,
    ActionModel,
) {
    let p = s0.round[s0.at as int];
    let s = SolverModel { at: (s0.at + 1) as usize, ..s0 };
    match applied(c.sub, p.ty) {
        Ty::Con(name, args) => named_started(c, s, p, name, args),
        Ty::Var(id) => variable_started(c, s, p, id),
        Ty::Fun(_, _, _) => (
            c,
            s,
            ActionModel::Failed(
                routed(
                    c,
                    p.node_id,
                    "no impl of "@ + last_segment(p.trait_name) + " for function type"@,
                    p.span,
                ),
            ),
        ),
        Ty::Record(_) => (
            c,
            s,
            ActionModel::Failed(
                routed(
                    c,
                    p.node_id,
                    "no impl of "@ + last_segment(p.trait_name) + " for anonymous record type"@,
                    p.span,
                ),
            ),
        ),
        _ => (c, s, ActionModel::Step),
    }
}

/// A constraint that follows from another one.
pub open spec fn following(
    p: PendingModel,
    name: Seq<char>,
    extras: Seq<Ty>,
    ty: Ty,
) -> PendingModel {
    PendingModel { trait_name: name, trait_type_args: extras, ty, ..p }
}

/// What the arguments of a tuple need.
pub open spec fn with_element(
    p: PendingModel,
    acc: Seq<PendingModel>,
    arg: Ty,
) -> Seq<PendingModel> {
    acc.push(following(p, p.trait_name, Seq::empty(), arg))
}

pub open spec fn with_elements(
    p: PendingModel,
    acc: Seq<PendingModel>,
    items: Seq<Ty>,
) -> Seq<PendingModel>
    decreases items.len(),
{
    if items.len() == 0 {
        acc
    } else {
        with_element(p, with_elements(p, acc, items.drop_last()), items.last())
    }
}

pub open spec fn with_extra_needed(
    p: PendingModel,
    m: Map<u32, Ty>,
    acc: Seq<PendingModel>,
    k: (Seq<char>, u32, Seq<Ty>),
) -> Seq<PendingModel> {
    if m.dom().contains(k.1) {
        acc.push(following(p, k.0, filled_all(k.2, m), m[k.1]))
    } else {
        acc
    }
}

pub open spec fn with_extras_needed(
    p: PendingModel,
    m: Map<u32, Ty>,
    acc: Seq<PendingModel>,
    items: Seq<(Seq<char>, u32, Seq<Ty>)>,
) -> Seq<PendingModel>
    decreases items.len(),
{
    if items.len() == 0 {
        acc
    } else {
        with_extra_needed(p, m, with_extras_needed(p, m, acc, items.drop_last()), items.last())
    }
}

pub open spec fn with_var_needed(
    p: PendingModel,
    m: Map<u32, Ty>,
    acc: Seq<PendingModel>,
    k: (Seq<char>, u32),
) -> Seq<PendingModel> {
    if m.dom().contains(k.1) {
        acc.push(following(p, k.0, Seq::empty(), m[k.1]))
    } else {
        acc
    }
}

pub open spec fn with_vars_needed(
    p: PendingModel,
    m: Map<u32, Ty>,
    acc: Seq<PendingModel>,
    items: Seq<(Seq<char>, u32)>,
) -> Seq<PendingModel>
    decreases items.len(),
{
    if items.len() == 0 {
        acc
    } else {
        with_var_needed(p, m, with_vars_needed(p, m, acc, items.drop_last()), items.last())
    }
}

pub open spec fn with_arg_needed(
    p: PendingModel,
    args: Seq<Ty>,
    acc: Seq<PendingModel>,
    k: (Seq<char>, usize),
) -> Seq<PendingModel> {
    if k.1 < args.len() {
        acc.push(following(p, k.0, Seq::empty(), args[k.1 as int]))
    } else {
        acc
    }
}

pub open spec fn with_args_needed(
    p: PendingModel,
    args: Seq<Ty>,
    acc: Seq<PendingModel>,
    items: Seq<(Seq<char>, usize)>,
) -> Seq<PendingModel>
    decreases items.len(),
{
    if items.len() == 0 {
        acc
    } else {
        with_arg_needed(p, args, with_args_needed(p, args, acc, items.drop_last()), items.last())
    }
}

/// The pending constraints with those that an impl leads to.
pub open spec fn with_needed(acc: Seq<PendingModel>, open: OpenImplModel) -> Seq<PendingModel> {
    let p = open.constraint;
    let info = open.info;
    if open.head == canonical_type_name("Tuple"@) && info.target_pattern is None {
        with_elements(p, acc, open.args)
    } else {
        let a = with_extras_needed(p, open.subst, acc, info.param_constraints_by_var_with_args);
        let b = with_vars_needed(p, open.subst, a, info.param_constraints_by_var);
        if info.param_constraints_by_var_with_args.len() == 0
            && info.param_constraints_by_var.len() == 0 {
            with_args_needed(p, open.args, b, info.param_constraints)
        } else {
            b
        }
    }
}

/// The end of a constraint that an impl settles.
pub open spec fn impl_ended(c: CheckerModel, s: SolverModel, open: OpenImplModel) -> (
    CheckerModel,
    SolverModel,
    ActionModel,
) {
    let p = open.constraint;
    (
        CheckerModel {
            evidence: c.evidence.push(
                EvidenceModel {
                    node_id: p.node_id,
                    trait_name: p.trait_name,
                    resolved_type: Some((open.head, open.args)),
                    type_var_name: None,
                    trait_type_args: all_applied(c.sub, p.trait_type_args),
                },
            ),
            ..with_pending(c, with_needed(c.trait_state.pending_constraints, open))
        },
        SolverModel { phase: PhaseModel::Next, ..s },
        ActionModel::Step,
    )
}

/// The next argument of an impl: where it is not an instance of the pattern, it is
/// to be unified with it.
pub open spec fn impl_stepped(c: CheckerModel, s: SolverModel, open: OpenImplModel) -> (
    CheckerModel,
    SolverModel,
    ActionModel,
) {
    let actuals = open.constraint.trait_type_args;
    let patterns = open.info.trait_type_args;
    if open.at < actuals.len() && open.at < patterns.len() {
        let expected = filled(patterns[open.at as int], open.subst);
        let m = matched(expected, applied(c.sub, actuals[open.at as int]), open.subst);
        (
            c,
            SolverModel {
                phase: PhaseModel::Impl(
                    OpenImplModel { subst: m.1, at: (open.at + 1) as usize, ..open },
                ),
                ..s
            },
            if m.0 {
                ActionModel::Step
            } else {
                ActionModel::Unify(actuals[open.at as int], expected, open.constraint.span)
            },
        )
    } else {
        impl_ended(c, s, open)
    }
}

/// The next argument of a bound, or the end of a constraint that a bound covers.
pub open spec fn bound_stepped(c: CheckerModel, s: SolverModel, open: OpenBoundModel) -> (
    CheckerModel,
    SolverModel,
    ActionModel,
) {
    let p = open.constraint;
    if open.at < p.trait_type_args.len() && open.at < open.extras.len() {
        (
            c,
            SolverModel {
                phase: PhaseModel::Bound(
                    OpenBoundModel { at: (open.at + 1) as usize, ..open },
                ),
                ..s
            },
            ActionModel::Unify(
                p.trait_type_args[open.at as int],
                open.extras[open.at as int],
                p.span,
            ),
        )
    } else {
        (
            CheckerModel {
                evidence: c.evidence.push(
                    EvidenceModel {
                        node_id: p.node_id,
                        trait_name: p.trait_name,
                        resolved_type: None,
                        type_var_name: at_key(s.known.names, open.id),
                        trait_type_args: all_applied(c.sub, p.trait_type_args),
                    },
                ),
                ..c
            },
            SolverModel { phase: PhaseModel::Next, ..s },
            ActionModel::Step,
        )
    }
}

/// A step of a solver.
pub open spec fn stepped(c: CheckerModel, s: SolverModel) -> (
    CheckerModel,
    SolverModel,
    ActionModel,
) {
    match s.phase {
        PhaseModel::Start => round_started(c, s),
        PhaseModel::Next => if s.at < s.round.len() {
            constraint_started(c, s)
        } else {
            round_ended(c, s)
        },
        PhaseModel::Impl(open) => impl_stepped(c, s, open),
        PhaseModel::Bound(open) => bound_stepped(c, s, open),
    }
}

/// What comes after a unification: another step where it succeeded. Where it did
/// not, an impl is not the one that was looked for, and a bound does not hold.
pub open spec fn after_unifying(
    c: CheckerModel,
    s: SolverModel,
    outcome: Option<Diag>,
) -> ActionModel {
    match outcome {
        None => ActionModel::Step,
        Some(d) => match s.phase {
            PhaseModel::Impl(open) => ActionModel::Failed(
                no_impl(
                    c,
                    open.constraint,
                    constraint_trait(c, open.constraint),
                    open.head,
                ),
            ),
            _ => ActionModel::Failed(d),
        },
    }
}

/// A bound on the fresh variables that a step takes.
pub open spec fn fresh_fit(c: CheckerModel, s: SolverModel) -> bool {
    s.phase is Next && s.at < s.round.len() ==> match applied(c.sub, s.round[s.at as int].ty) {
        Ty::Con(name, args) => {
            let p = s.round[s.at as int];
            match impl_found(c, constraint_trait(c, p), p.trait_type_args, name, args) {
                Some(info) => c.next_var + impl_open_vars(info).len() <= u32::MAX,
                None => true,
            }
        },
        _ => true,
    }
}

fn add_elements(p: &PendingConstraint, acc: &mut Vec<PendingConstraint>, items: &Vec<Type>)
    ensures
        final(acc).deep_view() == with_elements(
            p.deep_view(),
            old(acc).deep_view(),
            items.deep_view(),
        ),
{
    let ghost a0 = acc.deep_view();
    let ghost all = items.deep_view();
    let mut i: usize = 0;
    assert(all.take(0) =~= Seq::empty());
    while i < items.len()
        invariant
            i <= items.len(),
            all == items.deep_view(),
            acc.deep_view() == with_elements(p.deep_view(), a0, all.take(i as int)),
        decreases items.len() - i,
    {
        proof {
            assert(all.take(i + 1).drop_last() =~= all.take(i as int));
            assert(all.take(i + 1).last() == all[i as int]);
        }
        let none: Vec<Type> = Vec::new();
        assert(none.deep_view() =~= Seq::empty());
        let next = PendingConstraint {
            trait_name: p.trait_name.clone(),
            trait_type_args: none,
            ty: items[i].dup(),
            span: p.span,
            node_id: p.node_id,
        };
        push_value(acc, next);
        i = i + 1;
    }
    assert(all.take(i as int) =~= all);
}

fn add_extras_needed(
    p: &PendingConstraint,
    m: &Table<u32, Type>,
    acc: &mut Vec<PendingConstraint>,
    items: &Vec<(String, u32, Vec<Type>)>,
)
    ensures
        final(acc).deep_view() == with_extras_needed(
            p.deep_view(),
            m.deep_view(),
            old(acc).deep_view(),
            items.deep_view(),
        ),
{
    let ghost a0 = acc.deep_view();
    let ghost all = items.deep_view();
    let mut i: usize = 0;
    assert(all.take(0) =~= Seq::empty());
    while i < items.len()
        invariant
            i <= items.len(),
            all == items.deep_view(),
            acc.deep_view() == with_extras_needed(
                p.deep_view(),
                m.deep_view(),
                a0,
                all.take(i as int),
            ),
        decreases items.len() - i,
    {
        proof {
            assert(all.take(i + 1).drop_last() =~= all.take(i as int));
            assert(all.take(i + 1).last() == all[i as int]);
        }
        let k = &items[i];
        if let Some(ty) = m.get(&k.1) {
            let next = PendingConstraint {
                trait_name: k.0.clone(),
                trait_type_args: substitute_all(&k.2, m),
                ty: ty.dup(),
                span: p.span,
                node_id: p.node_id,
            };
            push_value(acc, next);
        }
        i = i + 1;
    }
    assert(all.take(i as int) =~= all);
}

fn add_vars_needed(
    p: &PendingConstraint,
    m: &Table<u32, Type>,
    acc: &mut Vec<PendingConstraint>,
    items: &Vec<(String, u32)>,
)
    ensures
        final(acc).deep_view() == with_vars_needed(
            p.deep_view(),
            m.deep_view(),
            old(acc).deep_view(),
            items.deep_view(),
        ),
{
    let ghost a0 = acc.deep_view();
    let ghost all = items.deep_view();
    let mut i: usize = 0;
    assert(all.take(0) =~= Seq::empty());
    while i < items.len()
        invariant
            i <= items.len(),
            all == items.deep_view(),
            acc.deep_view() == with_vars_needed(
                p.deep_view(),
                m.deep_view(),
                a0,
                all.take(i as int),
            ),
        decreases items.len() - i,
    {
        proof {
            assert(all.take(i + 1).drop_last() =~= all.take(i as int));
            assert(all.take(i + 1).last() == all[i as int]);
        }
        let none: Vec<Type> = Vec::new();
        assert(none.deep_view() =~= Seq::empty());
        let k = &items[i];
        if let Some(ty) = m.get(&k.1) {
            let next = PendingConstraint {
                trait_name: k.0.clone(),
                trait_type_args: none,
                ty: ty.dup(),
                span: p.span,
                node_id: p.node_id,
            };
            push_value(acc, next);
        }
        i = i + 1;
    }
    assert(all.take(i as int) =~= all);
}

fn add_args_needed(
    p: &PendingConstraint,
    args: &Vec<Type>,
    acc: &mut Vec<PendingConstraint>,
    items: &Vec<(String, usize)>,
)
    ensures
        final(acc).deep_view() == with_args_needed(
            p.deep_view(),
            args.deep_view(),
            old(acc).deep_view(),
            items.deep_view(),
        ),
{
    let ghost a0 = acc.deep_view();
    let ghost all = items.deep_view();
    let mut i: usize = 0;
    assert(all.take(0) =~= Seq::empty());
    while i < items.len()
        invariant
            i <= items.len(),
            all == items.deep_view(),
            acc.deep_view() == with_args_needed(
                p.deep_view(),
                args.deep_view(),
                a0,
                all.take(i as int),
            ),
        decreases items.len() - i,
    {
        proof {
            assert(all.take(i + 1).drop_last() =~= all.take(i as int));
            assert(all.take(i + 1).last() == all[i as int]);
        }
        let none: Vec<Type> = Vec::new();
        assert(none.deep_view() =~= Seq::empty());
        let k = &items[i];
        assert(args.deep_view().len() == args.len());
        if k.1 < args.len() {
            let next = PendingConstraint {
                trait_name: k.0.clone(),
                trait_type_args: none,
                ty: args[k.1].dup(),
                span: p.span,
                node_id: p.node_id,
            };
            push_value(acc, next);
        }
        i = i + 1;
    }
    assert(all.take(i as int) =~= all);
}

fn add_needed(acc: &mut Vec<PendingConstraint>, open: &OpenImpl)
    ensures
        final(acc).deep_view() == with_needed(old(acc).deep_view(), open.deep_view()),
{
    let info = &open.info;
    let p = &open.constraint;
    assert(info.param_constraints_by_var_with_args.deep_view().len()
        == info.param_constraints_by_var_with_args.len());
    assert(info.param_constraints_by_var.deep_view().len() == info.param_constraints_by_var.len());
    if text_eq(open.head.as_str(), canonicalize_type_name("Tuple"))
        && info.target_pattern.is_none() {
        add_elements(p, acc, &open.args);
        return;
    }
    add_extras_needed(p, &open.subst, acc, &info.param_constraints_by_var_with_args);
    add_vars_needed(p, &open.subst, acc, &info.param_constraints_by_var);
    if info.param_constraints_by_var_with_args.len() == 0 && info.param_constraints_by_var.len()
        == 0 {
        add_args_needed(p, &open.args, acc, &info.param_constraints);
    }
}

impl Checker {
    /// Opens an impl: what its variables stand for, those that are left open by
    /// fresh variables.
    fn open_impl(&mut self, info: &ImplInfo, subst: &mut Table<u32, Type>)
        requires
            old(self).next_var + impl_open_vars(info.deep_view()).len() <= u32::MAX,
        ensures
            final(subst).deep_view() == with_fresh(
                old(subst).deep_view(),
                impl_open_vars(info.deep_view()),
                old(self).next_var as int,
            ).0,
            final(self).deep_view() == (CheckerModel {
                next_var: with_fresh(
                    old(subst).deep_view(),
                    impl_open_vars(info.deep_view()),
                    old(self).next_var as int,
                ).1 as u32,
                ..old(self).deep_view()
            }),
    {
        let ghost c0 = self.deep_view();
        let ghost m0 = subst.deep_view();
        let mut vars: Vec<u32> = Vec::new();
        let none: Vec<u32> = Vec::new();
        assert(none@ =~= Seq::empty());
        assert(vars@ =~= Seq::empty());
        free_vars_in_types(&info.trait_type_args, &none, &mut vars);
        add_constraint_vars(&mut vars, &info.param_constraints_by_var_with_args);
        assert(vars@ == impl_open_vars(info.deep_view()));
        let mut i: usize = 0;
        assert(vars@.take(0) =~= Seq::empty());
        while i < vars.len()
            invariant
                i <= vars.len(),
                c0.next_var + vars.len() <= u32::MAX,
                subst.deep_view() == with_fresh(m0, vars@.take(i as int), c0.next_var as int).0,
                self.next_var == with_fresh(m0, vars@.take(i as int), c0.next_var as int).1,
                self.deep_view() == (CheckerModel { next_var: self.next_var, ..c0 }),
            decreases vars.len() - i,
        {
            broadcast use group_type_models;

            proof {
                assert(vars@.take(i + 1).drop_last() =~= vars@.take(i as int));
                assert(vars@.take(i + 1).last() == vars@[i as int]);
                with_fresh_bounds(m0, vars@.take(i as int), c0.next_var as int);
            }
            let id = vars[i];
            if !subst.contains_key(&id) {
                let fresh = self.fresh_var();
                subst.insert(id, Type::Var(fresh));
            }
            i = i + 1;
        }
        assert(vars@.take(i as int) =~= vars@);
    }
}

impl Solver {
    /// A solver at its start.
    pub fn new(c: &Checker) -> (r: Self)
        requires
            acyclic(c.sub@),
        ensures
            r.deep_view() == (SolverModel {
                known: resolved_bounds(c.deep_view()),
                phase: PhaseModel::Start,
                round: Seq::empty(),
                at: 0,
                deferred: Seq::empty(),
                solved_before: 0,
            }),
    {
        let round: Vec<PendingConstraint> = Vec::new();
        let deferred: Vec<(PendingConstraint, Diagnostic)> = Vec::new();
        assert(round.deep_view() =~= Seq::empty());
        assert(deferred.deep_view() =~= Seq::empty());
        Solver {
            known: c.resolve_bounds(),
            phase: Phase::Start,
            round,
            at: 0,
            deferred,
            solved_before: 0,
        }
    }

    fn start_round(&mut self, c: &mut Checker) -> (r: Action)
        requires
            acyclic(old(c).sub@),
        ensures
            (final(c).deep_view(), final(self).deep_view(), r.deep_view()) == round_started(
                old(c).deep_view(),
                old(self).deep_view(),
            ),
    {
        assert(c.trait_state.pending_constraints.deep_view().len()
            == c.trait_state.pending_constraints.len());
        if c.trait_state.pending_constraints.len() == 0 {
            return Action::Done;
        }
        self.round = put_known_first(&c.sub, &c.trait_state.pending_constraints);
        let none: Vec<PendingConstraint> = Vec::new();
        assert(none.deep_view() =~= Seq::empty());
        c.trait_state.pending_constraints = none;
        self.at = 0;
        let deferred: Vec<(PendingConstraint, Diagnostic)> = Vec::new();
        assert(deferred.deep_view() =~= Seq::empty());
        self.deferred = deferred;
        self.solved_before = c.sub.solved_count();
        self.phase = Phase::Next;
        Action::Step
    }

    fn end_round(&mut self, c: &mut Checker) -> (r: Action)
        ensures
            (final(c).deep_view(), final(self).deep_view(), r.deep_view()) == round_ended(
                old(c).deep_view(),
                old(self).deep_view(),
            ),
    {
        let ghost c0 = c.deep_view();
        let ghost s0 = self.deep_view();
        assert(self.deferred.deep_view().len() == self.deferred.len());
        assert(c.trait_state.pending_constraints.deep_view().len()
            == c.trait_state.pending_constraints.len());
        if self.deferred.len() == 0 {
            self.phase = Phase::Start;
            return Action::Step;
        }
        if c.sub.solved_count() > self.solved_before || c.trait_state.pending_constraints.len()
            > 0 {
            let ghost all = s0.deferred.map_values(|d: (PendingModel, Diag)| d.0);
            let ghost p0 = c0.trait_state.pending_constraints;
            let mut i: usize = 0;
            assert(all.take(0) =~= Seq::empty());
            assert(p0 =~= p0 + all.take(0));
            while i < self.deferred.len()
                invariant
                    i <= self.deferred.len(),
                    s0 == self.deep_view(),
                    all == s0.deferred.map_values(|d: (PendingModel, Diag)| d.0),
                    p0 == c0.trait_state.pending_constraints,
                    c.deep_view() == with_pending(c0, p0 + all.take(i as int)),
                decreases self.deferred.len() - i,
            {
                push_value(&mut c.trait_state.pending_constraints, self.deferred[i].0.dup());
                i = i + 1;
                proof {
                    assert(all[i - 1] == self.deferred@[i - 1].0.deep_view());
                    assert(all.take(i as int) =~= all.take(i - 1).push(all[i - 1]));
                    assert(c.trait_state.pending_constraints.deep_view() =~= p0 + all.take(
                        i as int,
                    ));
                }
            }
            assert(all.take(i as int) =~= all);
            self.phase = Phase::Start;
            Action::Step
        } else {
            Action::Failed(self.deferred[0].1.dup())
        }
    }

    fn start_named(
        &mut self,
        c: &mut Checker,
        p: PendingConstraint,
        head: String,
        args: Vec<Type>,
    ) -> (r: Action)
        requires
            acyclic(old(c).sub@),
            match impl_found(
                old(c).deep_view(),
                constraint_trait(old(c).deep_view(), p.deep_view()),
                p.deep_view().trait_type_args,
                head@,
                args.deep_view(),
            ) {
                Some(info) => old(c).next_var + impl_open_vars(info).len() <= u32::MAX,
                None => true,
            },
        ensures
            (final(c).deep_view(), final(self).deep_view(), r.deep_view()) == named_started(
                old(c).deep_view(),
                old(self).deep_view(),
                p.deep_view(),
                head@,
                args.deep_view(),
            ),
    {
        broadcast use group_type_models;

        let name = c.trait_of(&p);
        match c.find_impl(name.as_str(), &p.trait_type_args, head.as_str(), &args) {
            None => Action::Failed(c.no_impl_error(&p, head.as_str())),
            Some(info) => {
                let mut subst: Table<u32, Type> = Table::new();
                let fits = match &info.target_pattern {
                    Some(pattern) => {
                        let ty = Type::Con(head.clone(), args.dup());
                        match_type_pattern(pattern, &ty, &mut subst)
                    },
                    None => true,
                };
                if fits {
                    c.open_impl(&info, &mut subst);
                    self.phase = Phase::Impl(
                        OpenImpl { constraint: p, head, args, info, subst, at: 0 },
                    );
                    Action::Step
                } else {
                    Action::Failed(c.no_impl_error(&p, head.as_str()))
                }
            },
        }
    }

    fn start_variable(&mut self, c: &Checker, p: PendingConstraint, id: u32) -> (r: Action)
        ensures
            (c.deep_view(), final(self).deep_view(), r.deep_view()) == variable_started(
                c.deep_view(),
                old(self).deep_view(),
                p.deep_view(),
                id,
            ),
    {
        broadcast use group_type_models;

        let covering = match self.known.bounds.get(&id) {
            Some(bounds) => c.covering_trait(bounds, p.trait_name.as_str()),
            None => None,
        };
        match covering {
            None => {
                let message = concat3(
                    "ambiguous type variable requires ",
                    after_last_dot(p.trait_name.as_str()),
                    ". Add a type annotation to pin the unconstrained type variable",
                );
                let d = c.routed_error(p.node_id, message, p.span);
                let p = PendingConstraint { ty: Type::Var(id), ..p };
                push_value(&mut self.deferred, (p, d));
            },
            Some(name) => {
                let extras = match self.known.args.get(&(id, name)) {
                    Some(extras) => extras.dup(),
                    None => {
                        let none: Vec<Type> = Vec::new();
                        assert(none.deep_view() =~= Seq::empty());
                        none
                    },
                };
                self.phase = Phase::Bound(OpenBound { constraint: p, id, extras, at: 0 });
            },
        }
        Action::Step
    }

    fn start_constraint(&mut self, c: &mut Checker) -> (r: Action)
        requires
            acyclic(old(c).sub@),
            old(self).at < old(self).round.len(),
            old(self).phase is Next,
            fresh_fit(old(c).deep_view(), old(self).deep_view()),
        ensures
            (final(c).deep_view(), final(self).deep_view(), r.deep_view()) == constraint_started(
                old(c).deep_view(),
                old(self).deep_view(),
            ),
    {
        broadcast use group_type_models;

        let ghost s0 = self.deep_view();
        assert(s0.round.len() == self.round.len());
        assert(s0.round[self.at as int] == self.round@[self.at as int].deep_view());
        let p = self.round[self.at].dup();
        self.at = self.at + 1;
        match c.sub.apply(&p.ty) {
            Type::Con(name, args) => self.start_named(c, p, name, args),
            Type::Var(id) => self.start_variable(c, p, id),
            Type::Fun(_, _, _) => {
                let message = concat3(
                    "no impl of ",
                    after_last_dot(p.trait_name.as_str()),
                    " for function type",
                );
                Action::Failed(c.routed_error(p.node_id, message, p.span))
            },
            Type::Record(_) => {
                let message = concat3(
                    "no impl of ",
                    after_last_dot(p.trait_name.as_str()),
                    " for anonymous record type",
                );
                Action::Failed(c.routed_error(p.node_id, message, p.span))
            },
            _ => Action::Step,
        }
    }

    fn step_impl(&mut self, c: &mut Checker, open: OpenImpl) -> (r: Action)
        requires
            acyclic(old(c).sub@),
        ensures
            (final(c).deep_view(), final(self).deep_view(), r.deep_view()) == impl_stepped(
                old(c).deep_view(),
                old(self).deep_view(),
                open.deep_view(),
            ),
    {
        let mut open = open;
        assert(open.constraint.trait_type_args.deep_view().len()
            == open.constraint.trait_type_args.len());
        assert(open.info.trait_type_args.deep_view().len() == open.info.trait_type_args.len());
        if open.at < open.constraint.trait_type_args.len() && open.at
            < open.info.trait_type_args.len() {
            assert(open.deep_view().constraint.trait_type_args[open.at as int]
                == open.constraint.trait_type_args@[open.at as int]@);
            assert(open.deep_view().info.trait_type_args[open.at as int]
                == open.info.trait_type_args@[open.at as int]@);
            let actual = open.constraint.trait_type_args[open.at].dup();
            let expected = substitute_pattern_vars(
                &open.info.trait_type_args[open.at],
                &open.subst,
            );
            let resolved = c.sub.apply(&actual);
            let fits = match_type_pattern(&expected, &resolved, &mut open.subst);
            open.at = open.at + 1;
            let span = open.constraint.span;
            self.phase = Phase::Impl(open);
            if fits {
                Action::Step
            } else {
                Action::Unify(actual, expected, span)
            }
        } else {
            let p = &open.constraint;
            let evidence = TraitEvidence {
                node_id: p.node_id,
                trait_name: p.trait_name.clone(),
                resolved_type: Some((open.head.clone(), open.args.dup())),
                type_var_name: None,
                trait_type_args: apply_to_all(&c.sub, &p.trait_type_args),
            };
            push_value(&mut c.evidence, evidence);
            add_needed(&mut c.trait_state.pending_constraints, &open);
            self.phase = Phase::Next;
            Action::Step
        }
    }

    fn step_bound(&mut self, c: &mut Checker, open: OpenBound) -> (r: Action)
        requires
            acyclic(old(c).sub@),
        ensures
            (final(c).deep_view(), final(self).deep_view(), r.deep_view()) == bound_stepped(
                old(c).deep_view(),
                old(self).deep_view(),
                open.deep_view(),
            ),
    {
        let mut open = open;
        assert(open.constraint.trait_type_args.deep_view().len()
            == open.constraint.trait_type_args.len());
        assert(open.extras.deep_view().len() == open.extras.len());
        if open.at < open.constraint.trait_type_args.len() && open.at < open.extras.len() {
            let required = open.constraint.trait_type_args[open.at].dup();
            let bound = open.extras[open.at].dup();
            let span = open.constraint.span;
            open.at = open.at + 1;
            self.phase = Phase::Bound(open);
            Action::Unify(required, bound, span)
        } else {
            let p = &open.constraint;
            let name = match self.known.names.get(&open.id) {
                Some(name) => Some(name.clone()),
                None => None,
            };
            let evidence = TraitEvidence {
                node_id: p.node_id,
                trait_name: p.trait_name.clone(),
                resolved_type: None,
                type_var_name: name,
                trait_type_args: apply_to_all(&c.sub, &p.trait_type_args),
            };
            push_value(&mut c.evidence, evidence);
            self.phase = Phase::Next;
            Action::Step
        }
    }

    /// Takes a step.
    pub fn step(&mut self, c: &mut Checker) -> (r: Action)
        requires
            acyclic(old(c).sub@),
            fresh_fit(old(c).deep_view(), old(self).deep_view()),
        ensures
            (final(c).deep_view(), final(self).deep_view(), r.deep_view()) == stepped(
                old(c).deep_view(),
                old(self).deep_view(),
            ),
    {
        assert(self.round.deep_view().len() == self.round.len());
        match self.phase.dup() {
            Phase::Start => self.start_round(c),
            Phase::Next => {
                if self.at < self.round.len() {
                    self.start_constraint(c)
                } else {
                    self.end_round(c)
                }
            },
            Phase::Impl(open) => self.step_impl(c, open),
            Phase::Bound(open) => self.step_bound(c, open),
        }
    }

    /// Takes the outcome of a unification that a step asked for.
    pub fn unified(&self, c: &Checker, outcome: Option<Diagnostic>) -> (r: Action)
        ensures
            r.deep_view() == after_unifying(
                c.deep_view(),
                self.deep_view(),
                outcome.deep_view(),
            ),
    {
        match outcome {
            None => Action::Step,
            Some(d) => match &self.phase {
                Phase::Impl(open) => Action::Failed(
                    c.no_impl_error(&open.constraint, open.head.as_str()),
                ),
                _ => Action::Failed(d),
            },
        }
    }
}

/// No constraint is lost when a round starts: the round holds just the pending
/// ones, in some order.
pub proof fn rounds_keep_constraints(sub: Sub, ps: Seq<PendingModel>, p: PendingModel)
    ensures
        known_first(sub, ps).len() == ps.len(),
        known_first(sub, ps).contains(p) <==> ps.contains(p),
{
    open_split(sub, ps, p);
    let a = only_open(sub, false, ps);
    let b = only_open(sub, true, ps);
    if known_first(sub, ps).contains(p) {
        let i = choose|i: int| 0 <= i < (a + b).len() && (a + b)[i] == p;
        if i < a.len() {
            assert(a[i] == p);
        } else {
            assert(b[i - a.len()] == p);
        }
    }
    if a.contains(p) {
        let i = choose|i: int| 0 <= i < a.len() && a[i] == p;
        assert((a + b)[i] == p);
    }
    if b.contains(p) {
        let i = choose|i: int| 0 <= i < b.len() && b[i] == p;
        assert((a + b)[a.len() + i] == p);
    }
}

proof fn open_split(sub: Sub, ps: Seq<PendingModel>, p: PendingModel)
    ensures
        only_open(sub, false, ps).len() + only_open(sub, true, ps).len() == ps.len(),
        ps.contains(p) <==> only_open(sub, false, ps).contains(p) || only_open(
            sub,
            true,
            ps,
        ).contains(p),
    decreases ps.len(),
{
    if ps.len() > 0 {
        open_split(sub, ps.drop_last(), p);
        let a = only_open(sub, false, ps.drop_last());
        let b = only_open(sub, true, ps.drop_last());
        crate::seqs::push_contains(a, ps.last(), p);
        crate::seqs::push_contains(b, ps.last(), p);
        crate::seqs::push_contains(ps.drop_last(), ps.last(), p);
        assert(ps =~= ps.drop_last().push(ps.last()));
    }
}

/// A constraint on a variable that no bound covers is never taken to hold: it is
/// put off, and it fails at the end of a round that solved no variable and led to
/// no constraint.
pub proof fn ambiguity_is_reported(c: CheckerModel, s: SolverModel, p: PendingModel, id: u32)
    requires
        covering(c, known_traits(s.known.bounds, id), p.trait_name) is None,
    ensures
        ({
            let after = variable_started(c, s, p, id).1;
            &&& after.deferred.len() == s.deferred.len() + 1
            &&& c.sub.map.dom().len() <= s.solved_before
                && c.trait_state.pending_constraints.len() == 0 ==> round_ended(
                c,
                after,
            ).2 is Failed
        }),
{
}

} // verus!
