//! The constraints that the bodies of a function led to, one after the other.
//!
//! A run says what is to be found out or unified next; [`Checker::advance_scheme`]
//! takes what came of it. When it is done, the type of the function is generalized,
//! and [`Checker::finish_function`] binds the function to its scheme.

use vstd::prelude::*;
use crate::checker::{Checker, CheckerModel, PendingConstraint, PendingModel, TraitStateModel};
use crate::diagnostics::{Diag, Diagnostic};
use crate::fun_schemes::{
    fun_scheme, placed, with_all_declared, with_all_declared_vars, with_all_inferred, with_kept, with_var_evidence, FunContext, FunContextModel, GenericUse,
    GenericUseModel, Placement, PlacementModel,
};
use crate::schemes::{EnvModel, Scheme, SchemeModel};
use crate::signatures::Constraint;
use crate::subst::{acyclic, applied, Sub};
use crate::table::{at_key, distinct_keys, put, put_then_get, without, Table};
use crate::token::Span;
use crate::types::{group_type_models, Ty, Type};
use crate::values::{outcome, push_value, Dup};

verus! {

/// What a run waits for.
pub enum SchemeStage {
    /// What is known of the next constraint.
    Place,
    /// The variable and the record are unified.
    Record(u32, Type),
    /// The types are unified, in order.
    Declared(u32, Vec<(Type, Type)>),
    Done,
    Failed(Diagnostic),
}

#[verifier::ext_equal]
pub enum SchemeStageModel {
    Place,
    Record(u32, Ty),
    Declared(u32, Seq<(Ty, Ty)>),
    Done,
    Failed(Diag),
}

impl DeepView for SchemeStage {
    type V = SchemeStageModel;

    open spec fn deep_view(&self) -> SchemeStageModel {
        match self {
            SchemeStage::Place => SchemeStageModel::Place,
            SchemeStage::Record(id, ty) => SchemeStageModel::Record(*id, ty@),
            SchemeStage::Declared(id, pairs) => SchemeStageModel::Declared(
                *id,
                pairs.deep_view(),
            ),
            SchemeStage::Done => SchemeStageModel::Done,
            SchemeStage::Failed(d) => SchemeStageModel::Failed(d@),
        }
    }
}

/// What came of a stage.
pub enum SchemeFinding {
    /// What is known of the constraint.
    Known(GenericUse),
    Unified,
    Failed(Diagnostic),
}

#[verifier::ext_equal]
pub enum SchemeFindingModel {
    Known(GenericUseModel),
    Unified,
    Failed(Diag),
}

impl DeepView for SchemeFinding {
    type V = SchemeFindingModel;

    open spec fn deep_view(&self) -> SchemeFindingModel {
        match self {
            SchemeFinding::Known(g) => SchemeFindingModel::Known(g.deep_view()),
            SchemeFinding::Unified => SchemeFindingModel::Unified,
            SchemeFinding::Failed(d) => SchemeFindingModel::Failed(d@),
        }
    }
}

/// How far the constraints of a function have come.
pub struct SchemeRun {
    pub context: FunContext,
    /// The constraints that its bodies led to.
    pub todo: Vec<PendingConstraint>,
    /// The one that is placed next.
    pub at: usize,
    /// Those that become part of the scheme.
    pub inferred: Vec<(String, u32, Vec<Type>, Span)>,
    pub stage: SchemeStage,
}

#[verifier::ext_equal]
pub struct SchemeRunModel {
    pub context: FunContextModel,
    pub todo: Seq<PendingModel>,
    pub at: usize,
    pub inferred: Seq<(Seq<char>, u32, Seq<Ty>, Span)>,
    pub stage: SchemeStageModel,
}

impl DeepView for SchemeRun {
    type V = SchemeRunModel;

    open spec fn deep_view(&self) -> SchemeRunModel {
        SchemeRunModel {
            context: self.context.deep_view(),
            todo: self.todo.deep_view(),
            at: self.at,
            inferred: self.inferred.deep_view(),
            stage: self.stage.deep_view(),
        }
    }
}

/// The state without the binding of a name.
pub open spec fn with_unbound(c: CheckerModel, name: Seq<char>) -> CheckerModel {
    CheckerModel {
        env: EnvModel { bindings: without(c.env.bindings, name), ..c.env },
        ..c
    }
}

/// A run at its next constraint. After the last one, the function is not bound any
/// more, so that its type can be generalized.
pub open spec fn next_constraint(c: CheckerModel, run: SchemeRunModel) -> (
    CheckerModel,
    SchemeRunModel,
) {
    if run.at < run.todo.len() {
        (c, SchemeRunModel { stage: SchemeStageModel::Place, ..run })
    } else {
        (
            with_unbound(c, run.context.name),
            SchemeRunModel { stage: SchemeStageModel::Done, ..run },
        )
    }
}

/// The run of the constraints that came after the first `before`.
pub open spec fn scheme_begun(c: CheckerModel, context: FunContextModel, before: nat) -> (
    CheckerModel,
    SchemeRunModel,
) {
    let pending = c.trait_state.pending_constraints;
    next_constraint(
        CheckerModel {
            trait_state: TraitStateModel {
                pending_constraints: pending.take(before as int),
                ..c.trait_state
            },
            ..c
        },
        SchemeRunModel {
            context,
            todo: pending.skip(before as int),
            at: 0,
            inferred: Seq::empty(),
            stage: SchemeStageModel::Done,
        },
    )
}

/// A run whose constraint is dealt with.
pub open spec fn constraint_done(c: CheckerModel, run: SchemeRunModel) -> (
    CheckerModel,
    SchemeRunModel,
) {
    next_constraint(c, SchemeRunModel { at: (run.at + 1) as usize, ..run })
}

/// The state and the run after a stage.
pub open spec fn scheme_advanced(
    c: CheckerModel,
    run: SchemeRunModel,
    found: SchemeFindingModel,
) -> (CheckerModel, SchemeRunModel) {
    let p = run.todo[run.at as int];
    match (run.stage, found) {
        (SchemeStageModel::Done, _) | (SchemeStageModel::Failed(_), _) => (c, run),
        (_, SchemeFindingModel::Failed(d)) => (
            c,
            SchemeRunModel { stage: SchemeStageModel::Failed(d), ..run },
        ),
        (SchemeStageModel::Place, SchemeFindingModel::Known(g)) => {
            let after = placed(c, run.context, p, g);
            match after.1 {
                PlacementModel::Done => constraint_done(after.0, run),
                PlacementModel::Inferred(k) => constraint_done(
                    after.0,
                    SchemeRunModel { inferred: run.inferred.push(k), ..run },
                ),
                PlacementModel::Record(id, ty) => (
                    after.0,
                    SchemeRunModel { stage: SchemeStageModel::Record(id, ty), ..run },
                ),
                PlacementModel::Declared(id, pairs) => (
                    after.0,
                    SchemeRunModel { stage: SchemeStageModel::Declared(id, pairs), ..run },
                ),
                PlacementModel::Failed(d) => (
                    after.0,
                    SchemeRunModel { stage: SchemeStageModel::Failed(d), ..run },
                ),
            }
        },
        (SchemeStageModel::Record(id, _), SchemeFindingModel::Unified) => constraint_done(
            with_kept(c, PendingModel { ty: Ty::Var(id), ..p }),
            run,
        ),
        (SchemeStageModel::Declared(id, _), SchemeFindingModel::Unified) => constraint_done(
            with_var_evidence(
                c,
                p,
                match applied(c.sub, Ty::Var(id)) {
                    Ty::Var(other) => other,
                    _ => id,
                },
            ),
            run,
        ),
        _ => (c, run),
    }
}

/// Whether a run waits for one of its constraints, or for none.
pub open spec fn scheme_run_fits(run: SchemeRunModel) -> bool {
    run.stage is Place || run.stage is Record || run.stage is Declared ==> run.at < run.todo.len()
}

/// The state with a function bound to its scheme, or the complaint about its
/// constraints. `outer` are the type variables that were in scope before.
pub open spec fn function_finished(
    c: CheckerModel,
    run: SchemeRunModel,
    generalized: SchemeModel,
    outer: Seq<(Seq<char>, u32)>,
) -> (CheckerModel, Result<(), Diag>) {
    match fun_scheme(c.sub, run.context, generalized, run.inferred) {
        Err(d) => (c, Err(d)),
        Ok(scheme) => (
            CheckerModel {
                env: EnvModel {
                    bindings: put(c.env.bindings, run.context.name, scheme),
                    ..c.env
                },
                outer_named_type_vars: outer,
                ..c
            },
            Ok(()),
        ),
    }
}

impl Checker {
    fn begin_constraint(&mut self, run: &mut SchemeRun)
        ensures
            (final(self).deep_view(), final(run).deep_view()) == next_constraint(
                old(self).deep_view(),
                old(run).deep_view(),
            ),
            scheme_run_fits(final(run).deep_view()),
    {
        assert(run.todo.deep_view().len() == run.todo.len());
        if run.at < run.todo.len() {
            run.stage = SchemeStage::Place;
        } else {
            self.env.remove(run.context.name.as_str());
            run.stage = SchemeStage::Done;
        }
    }

    /// The run of the constraints of a function that came after the first `before`.
    pub fn begin_scheme(&mut self, context: FunContext, before: usize) -> (r: SchemeRun)
        requires
            before <= old(self).trait_state.pending_constraints.len(),
        ensures
            (final(self).deep_view(), r.deep_view()) == scheme_begun(
                old(self).deep_view(),
                context.deep_view(),
                before as nat,
            ),
            scheme_run_fits(r.deep_view()),
    {
        let todo = self.take_new_constraints(before);
        let inferred: Vec<(String, u32, Vec<Type>, Span)> = Vec::new();
        assert(inferred.deep_view() =~= Seq::empty());
        let mut run = SchemeRun { context, todo, at: 0, inferred, stage: SchemeStage::Done };
        self.begin_constraint(&mut run);
        run
    }

    fn finish_constraint(&mut self, run: &mut SchemeRun)
        requires
            old(run).at < old(run).todo.len(),
        ensures
            (final(self).deep_view(), final(run).deep_view()) == constraint_done(
                old(self).deep_view(),
                old(run).deep_view(),
            ),
            scheme_run_fits(final(run).deep_view()),
    {
        run.at = run.at + 1;
        self.begin_constraint(run);
    }

    fn place_next(&mut self, run: &mut SchemeRun, g: &GenericUse)
        requires
            old(run).stage is Place,
            scheme_run_fits(old(run).deep_view()),
            acyclic(old(self).sub@),
        ensures
            (final(self).deep_view(), final(run).deep_view()) == scheme_advanced(
                old(self).deep_view(),
                old(run).deep_view(),
                SchemeFindingModel::Known(g.deep_view()),
            ),
            scheme_run_fits(final(run).deep_view()),
    {
        assert(run.todo.deep_view().len() == run.todo.len());
        assert(run.todo.deep_view()[run.at as int] == run.todo@[run.at as int].deep_view());
        match self.place_constraint(&run.context, &run.todo[run.at], g) {
            Placement::Done => {
                self.finish_constraint(run);
            },
            Placement::Inferred(k) => {
                push_value(&mut run.inferred, k);
                self.finish_constraint(run);
            },
            Placement::Record(id, ty) => {
                run.stage = SchemeStage::Record(id, ty);
            },
            Placement::Declared(id, pairs) => {
                run.stage = SchemeStage::Declared(id, pairs);
            },
            Placement::Failed(d) => {
                run.stage = SchemeStage::Failed(d);
            },
        }
    }

    fn settle_next(&mut self, run: &mut SchemeRun)
        requires
            scheme_run_fits(old(run).deep_view()),
            acyclic(old(self).sub@),
        ensures
            (final(self).deep_view(), final(run).deep_view()) == scheme_advanced(
                old(self).deep_view(),
                old(run).deep_view(),
                SchemeFindingModel::Unified,
            ),
            scheme_run_fits(final(run).deep_view()),
    {
        broadcast use group_type_models;

        assert(run.todo.deep_view().len() == run.todo.len());
        match &run.stage {
            SchemeStage::Record(id, _) => {
                assert(run.todo.deep_view()[run.at as int]
                    == run.todo@[run.at as int].deep_view());
                let mut p = run.todo[run.at].dup();
                p.ty = Type::Var(*id);
                self.keep_constraint(p);
                self.finish_constraint(run);
            },
            SchemeStage::Declared(id, _) => {
                assert(run.todo.deep_view()[run.at as int]
                    == run.todo@[run.at as int].deep_view());
                self.settle_declared(&run.todo[run.at], *id);
                self.finish_constraint(run);
            },
            _ => {},
        }
    }

    /// Takes what came of the stage of a run, and moves it on.
    pub fn advance_scheme(&mut self, run: &mut SchemeRun, found: SchemeFinding)
        requires
            scheme_run_fits(old(run).deep_view()),
            acyclic(old(self).sub@),
        ensures
            (final(self).deep_view(), final(run).deep_view()) == scheme_advanced(
                old(self).deep_view(),
                old(run).deep_view(),
                found.deep_view(),
            ),
            scheme_run_fits(final(run).deep_view()),
    {
        let over = match &run.stage {
            SchemeStage::Done => true,
            SchemeStage::Failed(_) => true,
            _ => false,
        };
        if over {
            return;
        }
        match found {
            SchemeFinding::Failed(d) => {
                run.stage = SchemeStage::Failed(d);
            },
            SchemeFinding::Known(g) => {
                let placing = match &run.stage {
                    SchemeStage::Place => true,
                    _ => false,
                };
                if placing {
                    self.place_next(run, &g);
                }
            },
            SchemeFinding::Unified => {
                self.settle_next(run);
            },
        }
    }

    /// Binds a function to its scheme. `generalized` is its type with the variables
    /// that nothing else speaks of quantified.
    pub fn finish_function(
        &mut self,
        run: &SchemeRun,
        generalized: Scheme,
        outer: Table<String, u32>,
    ) -> (r: Result<(), Diagnostic>)
        requires
            acyclic(old(self).sub@),
        ensures
            (final(self).deep_view(), outcome(r)) == function_finished(
                old(self).deep_view(),
                run.deep_view(),
                generalized.deep_view(),
                outer.order(),
            ),
    {
        match self.build_fun_scheme(&run.context, generalized, &run.inferred) {
            Err(d) => Err(d),
            Ok(scheme) => {
                self.env.insert(run.context.name.clone(), scheme);
                self.outer_named_type_vars = outer;
                Ok(())
            },
        }
    }
}

/// No constraint is lost: one that is dealt with is pending again, or there is
/// evidence for it.
pub proof fn every_constraint_is_placed(
    c: CheckerModel,
    run: SchemeRunModel,
    found: SchemeFindingModel,
)
    requires
        scheme_run_fits(run),
        run.todo.len() <= usize::MAX,
        scheme_advanced(c, run, found).1.at != run.at,
    ensures
        ({
            let p = run.todo[run.at as int];
            let pending = c.trait_state.pending_constraints;
            let after = scheme_advanced(c, run, found).0;
            ||| {
                &&& after.trait_state.pending_constraints.len() == pending.len() + 1
                &&& after.trait_state.pending_constraints.last().trait_name == p.trait_name
                &&& after.trait_state.pending_constraints.last().node_id == p.node_id
            }
            ||| {
                &&& after.evidence.len() == c.evidence.len() + 1
                &&& after.evidence.last().trait_name == p.trait_name
                &&& after.evidence.last().node_id == p.node_id
            }
        }),
{
}

/// When the constraints of a function are taken up, each that was pending is either still
/// pending or among those of the function.
pub proof fn new_constraints_are_taken_up(c: CheckerModel, context: FunContextModel, before: nat)
    requires
        before <= c.trait_state.pending_constraints.len() <= usize::MAX,
    ensures
        ({
            let begun = scheme_begun(c, context, before);
            let pending = c.trait_state.pending_constraints;
            &&& begun.0.trait_state.pending_constraints.len() == before
            &&& begun.0.trait_state.pending_constraints + begun.1.todo == pending
            &&& begun.1.inferred.len() == 0
            &&& begun.1.context == context
            &&& begun.1.stage is Done <==> pending.len() == before
            &&& begun.1.stage is Place ==> begun.1.at == 0
        }),
{
    let pending = c.trait_state.pending_constraints;
    assert(pending.take(before as int) + pending.skip(before as int) =~= pending);
}

/// A finished function is bound to a scheme of its generalized type, and other names keep
/// theirs.
pub proof fn finished_functions_are_bound(
    c: CheckerModel,
    run: SchemeRunModel,
    generalized: SchemeModel,
    outer: Seq<(Seq<char>, u32)>,
    other: Seq<char>,
)
    requires
        distinct_keys(c.env.bindings),
    ensures
        ({
            let done = function_finished(c, run, generalized, outer);
            match done.1 {
                Ok(_) => {
                    &&& at_key(done.0.env.bindings, run.context.name) is Some
                    &&& at_key(done.0.env.bindings, run.context.name)->0.ty == generalized.ty
                    &&& other != run.context.name ==> at_key(done.0.env.bindings, other) == at_key(
                        c.env.bindings,
                        other,
                    )
                    &&& done.0.outer_named_type_vars == outer
                },
                Err(_) => done.0 == c,
            }
        }),
{
    let f = run.context;
    if let Ok(scheme) = fun_scheme(c.sub, f, generalized, run.inferred) {
        put_then_get(c.env.bindings, f.name, scheme, other);
        declared_keep_the_type(c.sub, generalized, f.where_constraints);
        inferred_keep_the_type(
            f.name,
            f.type_vars,
            with_all_declared_vars(c.sub, Seq::empty(), f.where_constraints),
            with_all_declared(c.sub, generalized, f.where_constraints),
            run.inferred,
        );
    }
}

proof fn declared_keep_the_type(sub: Sub, s: SchemeModel, items: Seq<Constraint>)
    ensures
        with_all_declared(sub, s, items).ty == s.ty,
    decreases items.len(),
{
    if items.len() > 0 {
        declared_keep_the_type(sub, s, items.drop_last());
    }
}

proof fn inferred_keep_the_type(
    name: Seq<char>,
    type_vars: Seq<u32>,
    where_vars: Seq<u32>,
    s: SchemeModel,
    items: Seq<(Seq<char>, u32, Seq<Ty>, Span)>,
)
    ensures
        with_all_inferred(name, type_vars, where_vars, s, items) matches Ok(r) ==> r.ty == s.ty,
    decreases items.len(),
{
    if items.len() > 0 {
        inferred_keep_the_type(name, type_vars, where_vars, s, items.drop_last());
    }
}

} // verus!
