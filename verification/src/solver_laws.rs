//! What settling constraints comes to as a whole: over a run of a [`Solver`] and the
//! unifications that it asks for.
//!
//! [`Solver`]: crate::constraints::Solver

use vstd::prelude::*;
use crate::checker::{CheckerModel, EvidenceModel, PendingModel};
use crate::bounds::known_traits;
use crate::constraints::{
    constraint_trait, fitting, impl_found, impl_fits, impls_for, resolved_bounds,
    rounds_keep_constraints, settled_names, stepped, with_all_resolved, with_args_needed, with_elements, with_extras_needed, with_fresh,
    with_needed, with_vars_needed, ActionModel, OpenBoundModel, OpenImplModel, PhaseModel,
    ResolvedBoundsModel, SolverModel,
};
use crate::diagnostics::Diag;
use crate::infos::ImplModel;
use crate::names::{canonical_type_name, keyed_target};
use crate::patterns::{filled, filled_all, matched, matched_pattern_is_type, matching_extends};
use crate::seqs::{add_new, add_new_contains, push_contains};
use crate::subst::{applied, Sub};
use crate::supertraits::{covering, implies_trait};
use crate::table::{at_key, distinct_keys, has_key, put_then_get};
use crate::types::Ty;

verus! {

/// The state before each step of a run.
pub type Run = Seq<(CheckerModel, SolverModel)>;

/// Whether a state comes after another: by a step, and where that asks for it by a
/// unification, which leaves constraints and evidence alone.
pub open spec fn comes_after(
    before: (CheckerModel, SolverModel),
    after: (CheckerModel, SolverModel),
) -> bool {
    let taken = stepped(before.0, before.1);
    &&& after.1 == taken.1
    &&& match taken.2 {
        ActionModel::Step => after.0 == taken.0,
        ActionModel::Unify(_, _, _) => after.0.trait_state == taken.0.trait_state
            && after.0.evidence == taken.0.evidence,
        ActionModel::Done => false,
        ActionModel::Failed(_) => false,
    }
}

/// Whether states are a run: each comes after the one before it, and no round is
/// longer than a list can be.
pub open spec fn is_run(run: Run) -> bool {
    &&& forall|k: int| 0 <= k < run.len() - 1 ==> comes_after(#[trigger] run[k], run[k + 1])
    &&& forall|k: int| 0 <= k < run.len() ==> (#[trigger] run[k]).1.round.len() <= usize::MAX
}

/// Whether two constraints ask for the same: they differ at most in how far their
/// type is solved.
pub open spec fn same_goal(p: PendingModel, q: PendingModel) -> bool {
    p == PendingModel { ty: p.ty, ..q }
}

/// Whether a constraint is still to be settled.
pub open spec fn waits(c: CheckerModel, s: SolverModel, q: PendingModel) -> bool {
    c.trait_state.pending_constraints.contains(q) || match s.phase {
        PhaseModel::Start => false,
        PhaseModel::Next => is_queued(s, q),
        PhaseModel::Impl(open) => is_queued(s, q) || open.constraint == q,
        PhaseModel::Bound(open) => is_queued(s, q) || open.constraint == q,
    }
}

/// Whether a constraint comes later in the round, or was put off in it.
pub open spec fn is_queued(s: SolverModel, q: PendingModel) -> bool {
    ||| exists|i: int| s.at <= i < s.round.len() && #[trigger] s.round[i] == q
    ||| exists|i: int| 0 <= i < s.deferred.len() && (#[trigger] s.deferred[i]).0 == q
}

/// Whether what a constraint asks for is still to be settled.
pub open spec fn goal_waits(c: CheckerModel, s: SolverModel, p: PendingModel) -> bool {
    exists|q: PendingModel| same_goal(p, q) && #[trigger] waits(c, s, q)
}

/// Whether there is evidence of a constraint.
pub open spec fn has_evidence(evidence: Seq<EvidenceModel>, p: PendingModel) -> bool {
    exists|i: int|
        0 <= i < evidence.len() && (#[trigger] evidence[i]).node_id == p.node_id
            && evidence[i].trait_name == p.trait_name
}

/// Whether a step passes over a constraint: its type is no type that could have
/// impls, which is complained of elsewhere.
pub open spec fn passes_over(c: CheckerModel, s: SolverModel, p: PendingModel) -> bool {
    &&& s.phase is Next
    &&& s.at < s.round.len()
    &&& same_goal(p, s.round[s.at as int])
    &&& applied(c.sub, s.round[s.at as int].ty) is Error || applied(
        c.sub,
        s.round[s.at as int].ty,
    ) is Symbol
}

/// Whether evidence has only been added to.
pub open spec fn extends(after: Seq<EvidenceModel>, before: Seq<EvidenceModel>) -> bool {
    before.len() <= after.len() && after.take(before.len() as int) == before
}

proof fn elements_extend(p: PendingModel, acc: Seq<PendingModel>, items: Seq<Ty>, q: PendingModel)
    requires
        acc.contains(q),
    ensures
        with_elements(p, acc, items).contains(q),
    decreases items.len(),
{
    if items.len() > 0 {
        elements_extend(p, acc, items.drop_last(), q);
        let before = with_elements(p, acc, items.drop_last());
        let after = with_elements(p, acc, items);
        assert(after.take(before.len() as int) =~= before);
        pushed_keeps(before, after, q);
    }
}

/// What one push leads to holds what was there.
proof fn pushed_keeps(before: Seq<PendingModel>, after: Seq<PendingModel>, q: PendingModel)
    requires
        before.contains(q),
        before.len() <= after.len(),
        after.take(before.len() as int) == before,
    ensures
        after.contains(q),
{
    let i = choose|i: int| 0 <= i < before.len() && before[i] == q;
    assert(after[i] == after.take(before.len() as int)[i]);
}

proof fn extras_needed_extend(
    p: PendingModel,
    m: Map<u32, Ty>,
    acc: Seq<PendingModel>,
    items: Seq<(Seq<char>, u32, Seq<Ty>)>,
    q: PendingModel,
)
    requires
        acc.contains(q),
    ensures
        with_extras_needed(p, m, acc, items).contains(q),
    decreases items.len(),
{
    if items.len() > 0 {
        extras_needed_extend(p, m, acc, items.drop_last(), q);
        let before = with_extras_needed(p, m, acc, items.drop_last());
        let after = with_extras_needed(p, m, acc, items);
        assert(after.take(before.len() as int) =~= before);
        pushed_keeps(before, after, q);
    }
}

proof fn vars_needed_extend(
    p: PendingModel,
    m: Map<u32, Ty>,
    acc: Seq<PendingModel>,
    items: Seq<(Seq<char>, u32)>,
    q: PendingModel,
)
    requires
        acc.contains(q),
    ensures
        with_vars_needed(p, m, acc, items).contains(q),
    decreases items.len(),
{
    if items.len() > 0 {
        vars_needed_extend(p, m, acc, items.drop_last(), q);
        let before = with_vars_needed(p, m, acc, items.drop_last());
        let after = with_vars_needed(p, m, acc, items);
        assert(after.take(before.len() as int) =~= before);
        pushed_keeps(before, after, q);
    }
}

proof fn args_needed_extend(
    p: PendingModel,
    args: Seq<Ty>,
    acc: Seq<PendingModel>,
    items: Seq<(Seq<char>, usize)>,
    q: PendingModel,
)
    requires
        acc.contains(q),
    ensures
        with_args_needed(p, args, acc, items).contains(q),
    decreases items.len(),
{
    if items.len() > 0 {
        args_needed_extend(p, args, acc, items.drop_last(), q);
        let before = with_args_needed(p, args, acc, items.drop_last());
        let after = with_args_needed(p, args, acc, items);
        assert(after.take(before.len() as int) =~= before);
        pushed_keeps(before, after, q);
    }
}

/// What an impl leads to takes no pending constraint away.
proof fn needed_extends(acc: Seq<PendingModel>, open: OpenImplModel, q: PendingModel)
    requires
        acc.contains(q),
    ensures
        with_needed(acc, open).contains(q),
{
    let p = open.constraint;
    let info = open.info;
    elements_extend(p, acc, open.args, q);
    let a = with_extras_needed(p, open.subst, acc, info.param_constraints_by_var_with_args);
    extras_needed_extend(p, open.subst, acc, info.param_constraints_by_var_with_args, q);
    let b = with_vars_needed(p, open.subst, a, info.param_constraints_by_var);
    vars_needed_extend(p, open.subst, a, info.param_constraints_by_var, q);
    args_needed_extend(p, open.args, b, info.param_constraints, q);
}

/// A step adds at most to the evidence.
proof fn step_extends_evidence(c: CheckerModel, s: SolverModel)
    ensures
        extends(stepped(c, s).0.evidence, c.evidence),
{
    let after = stepped(c, s).0.evidence;
    assert(after.take(c.evidence.len() as int) =~= c.evidence);
}

/// A step that neither fails nor ends the run loses no constraint: one that waited
/// waits still, or there is new evidence of it, or it was passed over.
proof fn step_loses_nothing(c: CheckerModel, s: SolverModel, p: PendingModel)
    requires
        goal_waits(c, s, p),
        s.round.len() <= usize::MAX,
        stepped(c, s).2 is Step || stepped(c, s).2 is Unify,
    ensures
        ({
            let after = stepped(c, s);
            goal_waits(after.0, after.1, p) || passes_over(c, s, p) || (after.0.evidence.len()
                > c.evidence.len() && after.0.evidence.last().node_id == p.node_id
                && after.0.evidence.last().trait_name == p.trait_name)
        }),
{
    let q = choose|q: PendingModel| same_goal(p, q) && #[trigger] waits(c, s, q);
    let after = stepped(c, s);
    let pending = c.trait_state.pending_constraints;
    match s.phase {
        PhaseModel::Start => {
            rounds_keep_constraints(c.sub, pending, q);
            assert(after.1.round.contains(q));
            let i = choose|i: int| 0 <= i < after.1.round.len() && after.1.round[i] == q;
            assert(after.1.round[i] == q);
            assert(waits(after.0, after.1, q));
        },
        PhaseModel::Next => {
            if s.at < s.round.len() {
                next_loses_nothing(c, s, p, q);
            } else {
                round_end_loses_nothing(c, s, q);
                assert(waits(after.0, after.1, q));
            }
        },
        PhaseModel::Impl(open) => {
            if pending.contains(q) {
                needed_extends(pending, open, q);
            }
            if open.constraint != q {
                assert(is_queued(after.1, q) || after.0.trait_state.pending_constraints.contains(
                    q,
                )) by {
                    if !pending.contains(q) {
                        queue_stays(s, after.1, q);
                    }
                }
                assert(waits(after.0, after.1, q));
            } else if after.1.phase is Impl {
                assert(waits(after.0, after.1, q));
            }
        },
        PhaseModel::Bound(open) => {
            if open.constraint != q {
                if !pending.contains(q) {
                    queue_stays(s, after.1, q);
                }
                assert(waits(after.0, after.1, q));
            } else if after.1.phase is Bound {
                assert(waits(after.0, after.1, q));
            }
        },
    }
}

/// A queue that is not touched keeps what it holds.
proof fn queue_stays(s: SolverModel, after: SolverModel, q: PendingModel)
    requires
        is_queued(s, q),
        after.round == s.round,
        after.at == s.at,
        after.deferred == s.deferred,
    ensures
        is_queued(after, q),
{
    if exists|i: int| s.at <= i < s.round.len() && #[trigger] s.round[i] == q {
        let i = choose|i: int| s.at <= i < s.round.len() && #[trigger] s.round[i] == q;
        assert(after.round[i] == q);
    } else {
        let i = choose|i: int| 0 <= i < s.deferred.len() && (#[trigger] s.deferred[i]).0 == q;
        assert(after.deferred[i].0 == q);
    }
}

proof fn round_end_loses_nothing(c: CheckerModel, s: SolverModel, q: PendingModel)
    requires
        s.phase is Next,
        s.at >= s.round.len(),
        waits(c, s, q),
        stepped(c, s).2 is Step,
    ensures
        waits(stepped(c, s).0, stepped(c, s).1, q),
{
    let pending = c.trait_state.pending_constraints;
    if s.deferred.len() > 0 {
        let put_off = s.deferred.map_values(|d: (PendingModel, Diag)| d.0);
        if pending.contains(q) {
            let i = choose|i: int| 0 <= i < pending.len() && pending[i] == q;
            assert((pending + put_off)[i] == q);
        } else {
            let i = choose|i: int| 0 <= i < s.deferred.len() && (#[trigger] s.deferred[i]).0 == q;
            assert(put_off[i] == q);
            assert((pending + put_off)[pending.len() + i] == q);
        }
    }
}

proof fn next_loses_nothing(c: CheckerModel, s: SolverModel, p: PendingModel, q: PendingModel)
    requires
        s.phase is Next,
        s.at < s.round.len() <= usize::MAX,
        same_goal(p, q),
        waits(c, s, q),
        stepped(c, s).2 is Step,
    ensures
        goal_waits(stepped(c, s).0, stepped(c, s).1, p) || passes_over(c, s, p),
{
    let after = stepped(c, s);
    let pending = c.trait_state.pending_constraints;
    let tried = s.round[s.at as int];
    assert(after.0.trait_state.pending_constraints == pending);
    assert(after.1.round == s.round);
    assert(after.1.at == s.at + 1);
    if pending.contains(q) {
        assert(waits(after.0, after.1, q));
    } else if exists|i: int| s.at < i < s.round.len() && #[trigger] s.round[i] == q {
        let i = choose|i: int| s.at < i < s.round.len() && #[trigger] s.round[i] == q;
        assert(after.1.round[i] == q);
        assert(is_queued(after.1, q));
        assert(waits(after.0, after.1, q));
    } else if exists|i: int| 0 <= i < s.deferred.len() && (#[trigger] s.deferred[i]).0 == q {
        let i = choose|i: int| 0 <= i < s.deferred.len() && (#[trigger] s.deferred[i]).0 == q;
        assert(after.1.deferred[i].0 == q);
        assert(is_queued(after.1, q));
        assert(waits(after.0, after.1, q));
    } else {
        assert(tried == q);
        match applied(c.sub, tried.ty) {
            Ty::Con(name, args) => {
                assert(waits(after.0, after.1, q));
            },
            Ty::Var(id) => {
                if after.1.phase is Bound {
                    assert(waits(after.0, after.1, q));
                } else {
                    let put_off = PendingModel { ty: Ty::Var(id), ..q };
                    assert(after.1.deferred[s.deferred.len() as int].0 == put_off);
                    assert(same_goal(p, put_off));
                    assert(is_queued(after.1, put_off));
                    assert(waits(after.0, after.1, put_off));
                }
            },
            _ => {},
        }
    }
}

/// Whether a constraint is accounted for: it waits still, or there is evidence of it
/// behind the first `n`, or a step from `i` on has passed over it.
spec fn accounted(run: Run, i: int, k: int, n: nat, p: PendingModel) -> bool {
    ||| goal_waits(run[k].0, run[k].1, p)
    ||| has_evidence(run[k].0.evidence.skip(n as int), p)
    ||| passed_over_in(run, i, p)
}

/// Whether some step from `i` on passes over a constraint.
pub open spec fn passed_over_in(run: Run, i: int, p: PendingModel) -> bool {
    exists|k: int| i <= k < run.len() && passes_over((#[trigger] run[k]).0, run[k].1, p)
}

proof fn run_loses_nothing(run: Run, i: int, k: int, p: PendingModel)
    requires
        is_run(run),
        0 <= i <= k < run.len(),
    ensures
        goal_waits(run[i].0, run[i].1, p) ==> accounted(run, i, k, run[i].0.evidence.len(), p),
        extends(run[k].0.evidence, run[i].0.evidence),
    decreases k - i,
{
    let first = run[i].0.evidence;
    if k == i {
        assert(first.take(first.len() as int) =~= first);
    } else {
        run_loses_nothing(run, i, k - 1, p);
        let c = run[k - 1].0;
        let s = run[k - 1].1;
        assert(comes_after(run[k - 1], run[k]));
        let taken = stepped(c, s);
        let now = run[k].0.evidence;
        step_extends_evidence(c, s);
        assert(now == taken.0.evidence);
        assert(now.take(first.len() as int) =~= now.take(c.evidence.len() as int).take(
            first.len() as int,
        ));
        if has_evidence(c.evidence.skip(first.len() as int), p) {
            let old_part = c.evidence.skip(first.len() as int);
            let x = choose|x: int|
                0 <= x < old_part.len() && (#[trigger] old_part[x]).node_id == p.node_id
                    && old_part[x].trait_name == p.trait_name;
            assert(now.take(c.evidence.len() as int)[first.len() + x] == c.evidence[first.len()
                + x]);
            assert(now.skip(first.len() as int)[x] == old_part[x]);
        } else if goal_waits(c, s, p) {
            step_loses_nothing(c, s, p);
            if goal_waits(taken.0, taken.1, p) {
                let q = choose|q: PendingModel| same_goal(p, q) && #[trigger] waits(
                    taken.0,
                    taken.1,
                    q,
                );
                assert(waits(run[k].0, run[k].1, q));
            } else if !passes_over(c, s, p) {
                let new_part = now.skip(first.len() as int);
                assert(new_part[now.len() - 1 - first.len()] == now.last());
            }
        }
    }
}

/// A run that ends leaves nothing pending, and has only added to the evidence. Of
/// every constraint that waited at any time there is then new evidence, unless it
/// was passed over. What waits at the start of a run is what is pending.
pub proof fn settled_constraints_have_evidence(run: Run, i: int, p: PendingModel)
    requires
        is_run(run),
        0 <= i < run.len(),
        stepped(run.last().0, run.last().1).2 is Done,
    ensures
        ({
            let end = stepped(run.last().0, run.last().1).0;
            &&& end.trait_state.pending_constraints.len() == 0
            &&& extends(end.evidence, run[i].0.evidence)
            &&& waits(run[i].0, run[i].1, p) ==> has_evidence(
                end.evidence.skip(run[i].0.evidence.len() as int),
                p,
            ) || passed_over_in(run, i, p)
        }),
{
    if waits(run[i].0, run[i].1, p) {
        assert(same_goal(p, p));
        assert(goal_waits(run[i].0, run[i].1, p));
    }
    run_loses_nothing(run, i, run.len() - 1, p);
    let c = run.last().0;
    let s = run.last().1;
    assert(run[run.len() - 1] == run.last());
    if goal_waits(c, s, p) {
        let q = choose|q: PendingModel| same_goal(p, q) && #[trigger] waits(c, s, q);
        assert(c.trait_state.pending_constraints.contains(q));
    }
}

/// Whether a constraint is on a trait with some arguments and a type, and comes from
/// the same place of the program as another one.
pub open spec fn asks_for(
    q: PendingModel,
    p: PendingModel,
    name: Seq<char>,
    extras: Seq<Ty>,
    ty: Ty,
) -> bool {
    &&& q.trait_name == name
    &&& q.trait_type_args == extras
    &&& q.ty == ty
    &&& q.span == p.span
    &&& q.node_id == p.node_id
}

/// Whether an impl is the one for all tuples.
pub open spec fn is_of_tuples(open: OpenImplModel) -> bool {
    open.head == canonical_type_name("Tuple"@) && open.info.target_pattern is None
}

/// Whether an impl asks for a constraint: each element of a tuple needs the trait; else
/// each bound of the impl on a variable needs its trait of what the variable stands for,
/// with its arguments filled in. Bounds on positions count where there are no others.
pub open spec fn impl_asks(open: OpenImplModel, q: PendingModel) -> bool {
    let p = open.constraint;
    let info = open.info;
    if is_of_tuples(open) {
        exists|i: int|
            0 <= i < open.args.len() && asks_for(
                q,
                p,
                p.trait_name,
                Seq::empty(),
                #[trigger] open.args[i],
            )
    } else {
        ||| exists|i: int|
            {
                let k = #[trigger] info.param_constraints_by_var_with_args[i];
                &&& 0 <= i < info.param_constraints_by_var_with_args.len()
                &&& open.subst.dom().contains(k.1)
                &&& asks_for(q, p, k.0, filled_all(k.2, open.subst), open.subst[k.1])
            }
        ||| exists|i: int|
            {
                let k = #[trigger] info.param_constraints_by_var[i];
                &&& 0 <= i < info.param_constraints_by_var.len()
                &&& open.subst.dom().contains(k.1)
                &&& asks_for(q, p, k.0, Seq::empty(), open.subst[k.1])
            }
        ||| exists|i: int|
            {
                let k = #[trigger] info.param_constraints[i];
                &&& info.param_constraints_by_var_with_args.len() == 0
                &&& info.param_constraints_by_var.len() == 0
                &&& 0 <= i < info.param_constraints.len()
                &&& k.1 < open.args.len()
                &&& asks_for(q, p, k.0, Seq::empty(), open.args[k.1 as int])
            }
    }
}

proof fn elements_are_added(p: PendingModel, acc: Seq<PendingModel>, items: Seq<Ty>, q: PendingModel)
    ensures
        with_elements(p, acc, items).contains(q) <==> acc.contains(q) || exists|i: int|
            0 <= i < items.len() && asks_for(
                q,
                p,
                p.trait_name,
                Seq::empty(),
                #[trigger] items[i],
            ),
    decreases items.len(),
{
    if items.len() > 0 {
        let init = items.drop_last();
        elements_are_added(p, acc, init, q);
        let next = PendingModel { trait_type_args: Seq::empty(), ty: items.last(), ..p };
        push_contains(with_elements(p, acc, init), next, q);
        if exists|i: int|
            0 <= i < init.len() && asks_for(q, p, p.trait_name, Seq::empty(), #[trigger] init[i]) {
            let i = choose|i: int|
                0 <= i < init.len() && asks_for(
                    q,
                    p,
                    p.trait_name,
                    Seq::empty(),
                    #[trigger] init[i],
                );
            assert(items[i] == init[i]);
        }
        if exists|i: int|
            0 <= i < items.len() && asks_for(
                q,
                p,
                p.trait_name,
                Seq::empty(),
                #[trigger] items[i],
            ) {
            let i = choose|i: int|
                0 <= i < items.len() && asks_for(
                    q,
                    p,
                    p.trait_name,
                    Seq::empty(),
                    #[trigger] items[i],
                );
            if i < init.len() {
                assert(items[i] == init[i]);
            } else {
                assert(q == next);
            }
        }
        if q == next {
            assert(asks_for(q, p, p.trait_name, Seq::empty(), items[items.len() - 1]));
        }
    }
}

proof fn extras_are_added(
    p: PendingModel,
    m: Map<u32, Ty>,
    acc: Seq<PendingModel>,
    items: Seq<(Seq<char>, u32, Seq<Ty>)>,
    q: PendingModel,
)
    ensures
        with_extras_needed(p, m, acc, items).contains(q) <==> acc.contains(q) || exists|i: int|
            {
                let k = #[trigger] items[i];
                &&& 0 <= i < items.len()
                &&& m.dom().contains(k.1)
                &&& asks_for(q, p, k.0, filled_all(k.2, m), m[k.1])
            },
    decreases items.len(),
{
    if items.len() > 0 {
        let init = items.drop_last();
        extras_are_added(p, m, acc, init, q);
        let last = items.last();
        assert(items[items.len() - 1] == last);
        let next = PendingModel {
            trait_name: last.0,
            trait_type_args: filled_all(last.2, m),
            ty: m[last.1],
            ..p
        };
        push_contains(with_extras_needed(p, m, acc, init), next, q);
        assert(q == next <==> asks_for(q, p, last.0, filled_all(last.2, m), m[last.1]));
        assert(forall|i: int| 0 <= i < init.len() ==> #[trigger] items[i] == init[i]);
        assert(forall|i: int| 0 <= i < init.len() ==> items[i] == #[trigger] init[i]);
    }
}

proof fn vars_are_added(
    p: PendingModel,
    m: Map<u32, Ty>,
    acc: Seq<PendingModel>,
    items: Seq<(Seq<char>, u32)>,
    q: PendingModel,
)
    ensures
        with_vars_needed(p, m, acc, items).contains(q) <==> acc.contains(q) || exists|i: int|
            {
                let k = #[trigger] items[i];
                &&& 0 <= i < items.len()
                &&& m.dom().contains(k.1)
                &&& asks_for(q, p, k.0, Seq::empty(), m[k.1])
            },
    decreases items.len(),
{
    if items.len() > 0 {
        let init = items.drop_last();
        vars_are_added(p, m, acc, init, q);
        let last = items.last();
        assert(items[items.len() - 1] == last);
        let next = PendingModel {
            trait_name: last.0,
            trait_type_args: Seq::empty(),
            ty: m[last.1],
            ..p
        };
        push_contains(with_vars_needed(p, m, acc, init), next, q);
        assert(q == next <==> asks_for(q, p, last.0, Seq::empty(), m[last.1]));
        assert(forall|i: int| 0 <= i < init.len() ==> #[trigger] items[i] == init[i]);
        assert(forall|i: int| 0 <= i < init.len() ==> items[i] == #[trigger] init[i]);
    }
}

proof fn args_are_added(
    p: PendingModel,
    args: Seq<Ty>,
    acc: Seq<PendingModel>,
    items: Seq<(Seq<char>, usize)>,
    q: PendingModel,
)
    ensures
        with_args_needed(p, args, acc, items).contains(q) <==> acc.contains(q) || exists|i: int|
            {
                let k = #[trigger] items[i];
                &&& 0 <= i < items.len()
                &&& k.1 < args.len()
                &&& asks_for(q, p, k.0, Seq::empty(), args[k.1 as int])
            },
    decreases items.len(),
{
    if items.len() > 0 {
        let init = items.drop_last();
        args_are_added(p, args, acc, init, q);
        let last = items.last();
        assert(items[items.len() - 1] == last);
        let next = PendingModel {
            trait_name: last.0,
            trait_type_args: Seq::empty(),
            ty: args[last.1 as int],
            ..p
        };
        push_contains(with_args_needed(p, args, acc, init), next, q);
        assert(q == next <==> asks_for(q, p, last.0, Seq::empty(), args[last.1 as int]));
        assert(forall|i: int| 0 <= i < init.len() ==> #[trigger] items[i] == init[i]);
        assert(forall|i: int| 0 <= i < init.len() ==> items[i] == #[trigger] init[i]);
    }
}

/// Settling a constraint by an impl makes pending just what the impl asks for, beside
/// what was pending, and leaves evidence of the impl.
pub proof fn impls_raise_their_constraints(
    c: CheckerModel,
    s: SolverModel,
    open: OpenImplModel,
    q: PendingModel,
)
    requires
        s.phase == PhaseModel::Impl(open),
        stepped(c, s).1.phase is Next,
    ensures
        ({
            let after = stepped(c, s).0;
            let e = after.evidence.last();
            &&& after.trait_state.pending_constraints.contains(q)
                <==> c.trait_state.pending_constraints.contains(q) || impl_asks(open, q)
            &&& after.evidence.len() == c.evidence.len() + 1
            &&& extends(after.evidence, c.evidence)
            &&& e.node_id == open.constraint.node_id
            &&& e.trait_name == open.constraint.trait_name
            &&& e.resolved_type == Some((open.head, open.args))
            &&& e.trait_type_args.len() == open.constraint.trait_type_args.len()
            &&& forall|i: int|
                0 <= i < e.trait_type_args.len() ==> #[trigger] e.trait_type_args[i] == applied(
                    c.sub,
                    open.constraint.trait_type_args[i],
                )
        }),
{
    let p = open.constraint;
    let info = open.info;
    let acc = c.trait_state.pending_constraints;
    elements_are_added(p, acc, open.args, q);
    let a = with_extras_needed(p, open.subst, acc, info.param_constraints_by_var_with_args);
    extras_are_added(p, open.subst, acc, info.param_constraints_by_var_with_args, q);
    let b = with_vars_needed(p, open.subst, a, info.param_constraints_by_var);
    vars_are_added(p, open.subst, a, info.param_constraints_by_var, q);
    args_are_added(p, open.args, b, info.param_constraints, q);
    step_extends_evidence(c, s);
}

/// A run that ends has settled what each impl asked for that settled a constraint in it:
/// there is later evidence of that, unless it was passed over.
pub proof fn impls_have_what_they_ask_for(run: Run, i: int, open: OpenImplModel, q: PendingModel)
    requires
        is_run(run),
        0 <= i < run.len() - 1,
        run[i].1.phase == PhaseModel::Impl(open),
        run[i + 1].1.phase is Next,
        stepped(run.last().0, run.last().1).2 is Done,
        impl_asks(open, q),
    ensures
        ({
            let end = stepped(run.last().0, run.last().1).0;
            has_evidence(end.evidence.skip(run[i + 1].0.evidence.len() as int), q)
                || passed_over_in(run, i + 1, q)
        }),
{
    assert(comes_after(run[i], run[i + 1]));
    impls_raise_their_constraints(run[i].0, run[i].1, open, q);
    assert(waits(run[i + 1].0, run[i + 1].1, q));
    settled_constraints_have_evidence(run, i + 1, q);
}

proof fn fresh_extends(m: Map<u32, Ty>, vars: Seq<u32>, next: int)
    ensures
        m.submap_of(with_fresh(m, vars, next).0),
        forall|v: u32| vars.contains(v) ==> #[trigger] with_fresh(m, vars, next).0.dom().contains(v),
    decreases vars.len(),
{
    if vars.len() > 0 {
        let init = vars.drop_last();
        fresh_extends(m, init, next);
        assert forall|v: u32| vars.contains(v) implies #[trigger] with_fresh(
            m,
            vars,
            next,
        ).0.dom().contains(v) by {
            assert(vars =~= init.push(vars.last()));
            push_contains(init, vars.last(), v);
            if init.contains(v) {
                assert(with_fresh(m, init, next).0.dom().contains(v));
            }
        }
    }
}

/// A constraint on a named type is held against the impl that is found for it; where
/// that has a pattern, the type is what the pattern becomes once its variables are
/// filled in. Where no impl is found, it fails.
pub proof fn constraints_open_their_impl(
    c: CheckerModel,
    s: SolverModel,
    head: Seq<char>,
    args: Seq<Ty>,
)
    requires
        s.phase is Next,
        s.at < s.round.len() <= usize::MAX,
        applied(c.sub, s.round[s.at as int].ty) == Ty::Con(head, args),
    ensures
        ({
            let after = stepped(c, s);
            let p = s.round[s.at as int];
            let found = impl_found(c, constraint_trait(c, p), p.trait_type_args, head, args);
            &&& after.2 is Step || after.2 is Failed
            &&& found is None ==> after.2 is Failed
            &&& found is Some && found->0.target_pattern is None ==> after.2 is Step
            &&& after.2 is Step ==> {
                &&& after.1.phase matches PhaseModel::Impl(open)
                &&& open.constraint == p
                &&& open.head == head
                &&& open.args == args
                &&& open.at == 0
                &&& found == Some(open.info)
                &&& open.info.target_pattern matches Some(pattern) ==> filled(pattern, open.subst)
                    == Ty::Con(head, args)
            }
        }),
{
    let p = s.round[s.at as int];
    if let Some(info) = impl_found(c, constraint_trait(c, p), p.trait_type_args, head, args) {
        let vars = crate::constraints::impl_open_vars(info);
        if let Some(pattern) = info.target_pattern {
            let m = matched(pattern, Ty::Con(head, args), Map::empty());
            if m.0 {
                fresh_extends(m.1, vars, c.next_var as int);
                matched_pattern_is_type(
                    pattern,
                    Ty::Con(head, args),
                    Map::empty(),
                    with_fresh(m.1, vars, c.next_var as int).0,
                );
            }
        }
    }
}

/// Each argument of the trait of a constraint is an instance of that of the impl, or is
/// to be unified with it.
pub proof fn impl_arguments_are_held(c: CheckerModel, s: SolverModel, open: OpenImplModel)
    requires
        s.phase == PhaseModel::Impl(open),
        open.at < open.constraint.trait_type_args.len() <= usize::MAX,
        open.at < open.info.trait_type_args.len(),
    ensures
        ({
            let after = stepped(c, s);
            let actual = open.constraint.trait_type_args[open.at as int];
            let expected = filled(open.info.trait_type_args[open.at as int], open.subst);
            &&& after.0 == c
            &&& after.1.phase matches PhaseModel::Impl(later)
            &&& later.at == open.at + 1
            &&& open.subst.submap_of(later.subst)
            &&& after.2 == ActionModel::Unify(actual, expected, open.constraint.span) || filled(
                expected,
                later.subst,
            ) == applied(c.sub, actual)
        }),
{
    let actual = applied(c.sub, open.constraint.trait_type_args[open.at as int]);
    let expected = filled(open.info.trait_type_args[open.at as int], open.subst);
    matching_extends(expected, actual, open.subst);
    let m = matched(expected, actual, open.subst);
    if m.0 {
        matched_pattern_is_type(expected, actual, open.subst, m.1);
    }
}

/// A constraint on a variable is covered by a bound of the variable from which its trait
/// follows. Where there is none, it is put off.
pub proof fn bounds_cover_constraints(c: CheckerModel, s: SolverModel, id: u32)
    requires
        s.phase is Next,
        s.at < s.round.len() <= usize::MAX,
        applied(c.sub, s.round[s.at as int].ty) == Ty::Var(id),
    ensures
        ({
            let after = stepped(c, s);
            let p = s.round[s.at as int];
            let traits = known_traits(s.known.bounds, id);
            &&& after.0 == c
            &&& after.2 is Step
            &&& match after.1.phase {
                PhaseModel::Bound(open) => {
                    &&& open.constraint == p
                    &&& open.id == id
                    &&& open.at == 0
                    &&& exists|i: int|
                        0 <= i < traits.len() && implies_trait(
                            c,
                            #[trigger] traits[i],
                            p.trait_name,
                        ) && open.extras == (match at_key(s.known.args, (id, traits[i])) {
                            Some(extras) => extras,
                            None => Seq::empty(),
                        })
                },
                _ => {
                    &&& forall|i: int|
                        0 <= i < traits.len() ==> !implies_trait(
                            c,
                            #[trigger] traits[i],
                            p.trait_name,
                        )
                    &&& after.1.deferred.len() == s.deferred.len() + 1
                    &&& same_goal(after.1.deferred.last().0, p)
                    &&& after.1.deferred.last().0.ty == Ty::Var(id)
                },
            }
        }),
{
    let p = s.round[s.at as int];
    covering_is_first(c, known_traits(s.known.bounds, id), p.trait_name);
}

proof fn covering_is_first(c: CheckerModel, bounds: Seq<Seq<char>>, required: Seq<char>)
    ensures
        match covering(c, bounds, required) {
            Some(name) => exists|i: int|
                0 <= i < bounds.len() && #[trigger] bounds[i] == name && implies_trait(
                    c,
                    name,
                    required,
                ),
            None => forall|i: int|
                0 <= i < bounds.len() ==> !implies_trait(c, #[trigger] bounds[i], required),
        },
    decreases bounds.len(),
{
    if bounds.len() > 0 {
        let init = bounds.drop_last();
        covering_is_first(c, init, required);
        assert(forall|i: int| 0 <= i < init.len() ==> #[trigger] bounds[i] == init[i]);
        assert(bounds[bounds.len() - 1] == bounds.last());
        if let Some(name) = covering(c, init, required) {
            let i = choose|i: int|
                0 <= i < init.len() && #[trigger] init[i] == name && implies_trait(
                    c,
                    name,
                    required,
                );
            assert(bounds[i] == name);
        }
    }
}

/// Each argument of a constraint is to be unified with that of the bound that covers it;
/// after that there is evidence of the constraint, under the name of the variable.
pub proof fn bounds_settle_constraints(c: CheckerModel, s: SolverModel, open: OpenBoundModel)
    requires
        s.phase == PhaseModel::Bound(open),
        open.constraint.trait_type_args.len() <= usize::MAX,
    ensures
        ({
            let after = stepped(c, s);
            let p = open.constraint;
            let e = after.0.evidence.last();
            if open.at < p.trait_type_args.len() && open.at < open.extras.len() {
                &&& after.0 == c
                &&& after.2 == ActionModel::Unify(
                    p.trait_type_args[open.at as int],
                    open.extras[open.at as int],
                    p.span,
                )
                &&& after.1.phase matches PhaseModel::Bound(later)
                &&& later.at == open.at + 1
                &&& later.constraint == p
                &&& later.extras == open.extras
            } else {
                &&& after.1.phase is Next
                &&& after.0.trait_state == c.trait_state
                &&& after.0.evidence.len() == c.evidence.len() + 1
                &&& extends(after.0.evidence, c.evidence)
                &&& e.node_id == p.node_id
                &&& e.trait_name == p.trait_name
                &&& e.resolved_type is None
                &&& e.type_var_name == at_key(s.known.names, open.id)
                &&& e.trait_type_args.len() == p.trait_type_args.len()
                &&& forall|i: int|
                    0 <= i < e.trait_type_args.len() ==> #[trigger] e.trait_type_args[i]
                        == applied(c.sub, p.trait_type_args[i])
            }
        }),
{
    step_extends_evidence(c, s);
}

/// Constraints on functions and on records never hold.
pub proof fn functions_and_records_have_no_impls(c: CheckerModel, s: SolverModel)
    requires
        s.phase is Next,
        s.at < s.round.len(),
        applied(c.sub, s.round[s.at as int].ty) is Fun || applied(
            c.sub,
            s.round[s.at as int].ty,
        ) is Record,
    ensures
        stepped(c, s).2 is Failed,
{
}

/// Whether an entry is an impl of a trait for a type of some name and arity.
pub open spec fn is_impl_for(
    e: ((Seq<char>, Seq<Seq<char>>, Seq<char>), ImplModel),
    trait_name: Seq<char>,
    head: Seq<char>,
    arity: nat,
) -> bool {
    e.0.0 == trait_name && (e.0.2 == head || e.0.2 == keyed_target(head, arity))
}

proof fn impls_for_are_entries(
    impls: Seq<((Seq<char>, Seq<Seq<char>>, Seq<char>), ImplModel)>,
    trait_name: Seq<char>,
    target: Seq<char>,
    info: ImplModel,
)
    ensures
        impls_for(impls, trait_name, target).contains(info) <==> exists|i: int|
            0 <= i < impls.len() && (#[trigger] impls[i]).0.0 == trait_name && impls[i].0.2
                == target && impls[i].1 == info,
    decreases impls.len(),
{
    if impls.len() > 0 {
        let init = impls.drop_last();
        impls_for_are_entries(init, trait_name, target, info);
        push_contains(impls_for(init, trait_name, target), impls.last().1, info);
        assert(forall|i: int| 0 <= i < init.len() ==> #[trigger] impls[i] == init[i]);
        assert(forall|i: int| 0 <= i < init.len() ==> impls[i] == #[trigger] init[i]);
        assert(impls[impls.len() - 1] == impls.last());
    }
}

proof fn fitting_are_some(sub: Sub, infos: Seq<ImplModel>, ty: Ty, args: Seq<Ty>, info: ImplModel)
    ensures
        fitting(sub, infos, ty, args).contains(info) <==> infos.contains(info) && impl_fits(
            sub,
            info,
            ty,
            args,
        ),
    decreases infos.len(),
{
    if infos.len() > 0 {
        let init = infos.drop_last();
        fitting_are_some(sub, init, ty, args, info);
        push_contains(fitting(sub, init, ty, args), infos.last(), info);
        push_contains(init, infos.last(), info);
        assert(infos =~= init.push(infos.last()));
    }
}

/// An impl that is found is one of the trait for the type. One under the names of all
/// arguments and the key of the type is always found. Where none is, there is none
/// under these names, and no single one whose patterns fit.
pub proof fn found_impls_are_registered(
    c: CheckerModel,
    trait_name: Seq<char>,
    trait_args: Seq<Ty>,
    head: Seq<char>,
    args: Seq<Ty>,
)
    ensures
        ({
            let impls = c.trait_state.impls;
            let names = settled_names(c.sub, trait_args);
            let key = (trait_name, names, keyed_target(head, args.len()));
            let found = impl_found(c, trait_name, trait_args, head, args);
            &&& has_key(impls, key) ==> found == at_key(impls, key)
            &&& has_key(impls, (trait_name, names, head)) ==> found is Some
            &&& match found {
                Some(info) => exists|i: int|
                    0 <= i < impls.len() && is_impl_for(
                        #[trigger] impls[i],
                        trait_name,
                        head,
                        args.len(),
                    ) && impls[i].1 == info,
                None => true,
            }
        }),
{
    let impls = c.trait_state.impls;
    let names = settled_names(c.sub, trait_args);
    let target = keyed_target(head, args.len());
    let own = impls_for(impls, trait_name, target);
    let some = fitting(c.sub, own, Ty::Con(head, args), trait_args);
    match impl_found(c, trait_name, trait_args, head, args) {
        Some(info) => {
            if has_key(impls, (trait_name, names, target)) {
                let i = crate::table::key_index(impls, (trait_name, names, target));
                assert(is_impl_for(impls[i], trait_name, head, args.len()));
            } else if target != head && has_key(impls, (trait_name, names, head)) {
                let i = crate::table::key_index(impls, (trait_name, names, head));
                assert(is_impl_for(impls[i], trait_name, head, args.len()));
            } else {
                if names.len() != trait_args.len() && own.len() == 1 {
                    assert(own[0] == info);
                } else {
                    assert(some[0] == info);
                    fitting_are_some(c.sub, own, Ty::Con(head, args), trait_args, info);
                }
                assert(own.contains(info));
                impls_for_are_entries(impls, trait_name, target, info);
                let i = choose|i: int|
                    0 <= i < impls.len() && (#[trigger] impls[i]).0.0 == trait_name && impls[i].0.2
                        == target && impls[i].1 == info;
                assert(is_impl_for(impls[i], trait_name, head, args.len()));
            }
        },
        None => {},
    }
}

/// The names of arguments that are all settled are those of their types, in order.
pub proof fn settled_arguments_are_named(sub: Sub, args: Seq<Ty>)
    requires
        forall|i: int| 0 <= i < args.len() ==> applied(sub, #[trigger] args[i]) is Con,
    ensures
        settled_names(sub, args).len() == args.len(),
        forall|i: int|
            0 <= i < args.len() ==> applied(sub, #[trigger] args[i])->Con_0 == settled_names(
                sub,
                args,
            )[i],
    decreases args.len(),
{
    if args.len() > 0 {
        let init = args.drop_last();
        assert(forall|i: int| 0 <= i < init.len() ==> #[trigger] init[i] == args[i]);
        assert(args[args.len() - 1] == args.last());
        settled_arguments_are_named(sub, init);
        assert forall|i: int| 0 <= i < args.len() implies applied(sub, #[trigger] args[i])->Con_0
            == settled_names(sub, args)[i] by {
            if i < init.len() {
                assert(init[i] == args[i]);
            }
        }
    }
}

/// Whether a bound of the module is on a variable that stands for another one.
pub open spec fn stands_for(c: CheckerModel, b: (u32, Seq<Seq<char>>), id: u32) -> bool {
    applied(c.sub, Ty::Var(b.0)) == Ty::Var(id)
}

proof fn resolved_are_known(
    c: CheckerModel,
    acc: ResolvedBoundsModel,
    items: Seq<(u32, Seq<Seq<char>>)>,
    id: u32,
)
    requires
        distinct_keys(acc.bounds),
    ensures
        ({
            let after = with_all_resolved(c, acc, items);
            &&& distinct_keys(after.bounds)
            &&& forall|name: Seq<char>| #[trigger]
                known_traits(after.bounds, id).contains(name) <==> known_traits(
                    acc.bounds,
                    id,
                ).contains(name) || exists|i: int|
                    0 <= i < items.len() && stands_for(c, #[trigger] items[i], id)
                        && items[i].1.contains(name)
        }),
    decreases items.len(),
{
    if items.len() > 0 {
        let init = items.drop_last();
        resolved_are_known(c, acc, init, id);
        let before = with_all_resolved(c, acc, init);
        let after = with_all_resolved(c, acc, items);
        let b = items.last();
        assert(forall|i: int| 0 <= i < init.len() ==> #[trigger] items[i] == init[i]);
        assert(forall|i: int| 0 <= i < init.len() ==> items[i] == #[trigger] init[i]);
        assert(items[items.len() - 1] == b);
        if let Ty::Var(resolved) = applied(c.sub, Ty::Var(b.0)) {
            let own = add_new(known_traits(before.bounds, resolved), b.1);
            put_then_get(before.bounds, resolved, own, id);
            put_then_get(before.bounds, resolved, own, resolved);
            assert forall|name: Seq<char>| #[trigger]
                known_traits(after.bounds, id).contains(name) <==> known_traits(
                    acc.bounds,
                    id,
                ).contains(name) || exists|i: int|
                    0 <= i < items.len() && stands_for(c, #[trigger] items[i], id)
                        && items[i].1.contains(name) by {
                add_new_contains(known_traits(before.bounds, resolved), b.1, name);
                assert(known_traits(before.bounds, id).contains(name) <==> known_traits(
                    acc.bounds,
                    id,
                ).contains(name) || exists|i: int|
                    0 <= i < init.len() && stands_for(c, #[trigger] init[i], id)
                        && init[i].1.contains(name));
            }
        }
    }
}

/// A variable is known to have just the traits of the bounds on variables that stand for
/// it: a bound on a variable that is settled says nothing, and no bound is lost.
pub proof fn bounds_are_known_of_what_they_stand_for(c: CheckerModel, id: u32, name: Seq<char>)
    ensures
        known_traits(resolved_bounds(c).bounds, id).contains(name) <==> exists|i: int|
            0 <= i < c.trait_state.where_bounds.len() && stands_for(
                c,
                #[trigger] c.trait_state.where_bounds[i],
                id,
            ) && c.trait_state.where_bounds[i].1.contains(name),
{
    let none = crate::constraints::nothing_known();
    resolved_are_known(c, none, c.trait_state.where_bounds, id);
    assert(!known_traits(none.bounds, id).contains(name));
    assert(known_traits(resolved_bounds(c).bounds, id).contains(name) <==> known_traits(
        none.bounds,
        id,
    ).contains(name) || exists|i: int|
        0 <= i < c.trait_state.where_bounds.len() && stands_for(
            c,
            #[trigger] c.trait_state.where_bounds[i],
            id,
        ) && c.trait_state.where_bounds[i].1.contains(name));
}

} // verus!
