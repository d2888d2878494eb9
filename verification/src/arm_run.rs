//! The bodies of a handler: its arms, one after the other, and its return clause.
//!
//! A run says what is to be inferred next; [`Checker::advance_arms`] takes what came
//! of it. When it is done, [`ArmRun::finish`] gives what the handler is registered
//! with.

use vstd::prelude::*;
use crate::ast::{EffectRef, HandlerBody};
use crate::checker::{resolved_name, Checker, CheckerModel};
use crate::codegen_info::sig_named;
use crate::diagnostics::{Diag, Diagnostic};
use crate::effects::{check_effects_via_row, effects_covered};
use crate::handlers::{arm_entered, arm_entered_keeps, arm_op, HandlerRun, HandlerRunModel};
use crate::infos::{EffectOpSig, OpModel};
use crate::schemes::{EnvModel, TypeEnv};
use crate::signatures::with_assumptions;
use crate::subst::{acyclic, applied_row};
use crate::table::{at_key, has_key, put, Table};
use crate::text::concat3;
use crate::token::Span;
use crate::types::{group_type_models, EffectRow, Row, Ty, Type};
use crate::values::{push_value, Dup};

verus! {

/// What is inferred next of a handler.
#[derive(Debug, Clone, Copy, PartialEq, Eq, Structural)]
pub enum ArmStage {
    /// A parameter of an arm is bound to the expected type.
    Param(usize),
    /// The body of an arm.
    Body,
    /// What an arm does in the end.
    Finally,
    /// The parameter of the return clause is bound to the expected type.
    ReturnParam,
    /// The body of the return clause.
    ReturnBody,
    Done,
    Failed,
}

/// What came of a stage.
pub enum ArmFinding {
    Fine,
    /// The type of a body, and why it is not that of the answer, if it is not.
    Typed(Type, Option<Diagnostic>),
    /// The effects of what an arm does in the end.
    Effects(EffectRow),
    Failed(Diagnostic),
}

#[verifier::ext_equal]
pub enum ArmFindingModel {
    Fine,
    Typed(Ty, Option<Diag>),
    Effects(Row),
    Failed(Diag),
}

impl DeepView for ArmFinding {
    type V = ArmFindingModel;

    open spec fn deep_view(&self) -> ArmFindingModel {
        match self {
            ArmFinding::Fine => ArmFindingModel::Fine,
            ArmFinding::Typed(ty, mismatch) => ArmFindingModel::Typed(
                ty.deep_view(),
                mismatch.deep_view(),
            ),
            ArmFinding::Effects(row) => ArmFindingModel::Effects(row.deep_view()),
            ArmFinding::Failed(d) => ArmFindingModel::Failed(d.deep_view()),
        }
    }
}

/// How far the bodies of a handler have come.
pub struct ArmRun {
    /// What the parameters of the effects stand for.
    pub mapping: Table<u32, Type>,
    /// The variable of the answer of the handler.
    pub answer: u32,
    /// The effects that the handler declares.
    pub needs: EffectRow,
    /// The arm that is checked.
    pub at: usize,
    pub stage: ArmStage,
    /// The type of the parameter that is bound next.
    pub expected: Type,
    /// The operation that the arm handles.
    pub op: Option<EffectOpSig>,
    /// Where the arms stand.
    pub arm_spans: Table<String, Span>,
    /// The environment before the arm.
    pub env: TypeEnv,
    /// What was resumed before the arm.
    pub resume_type: Option<Type>,
    pub resume_return_type: Option<Type>,
    /// The variable of the parameter of the return clause, and the type of that
    /// clause.
    pub returned: Option<(u32, Type)>,
    /// Why the run failed.
    pub error: Option<Diagnostic>,
}

#[verifier::ext_equal]
pub struct ArmRunModel {
    pub mapping: Map<u32, Ty>,
    pub answer: u32,
    pub needs: Row,
    pub at: usize,
    pub stage: ArmStage,
    pub expected: Ty,
    pub op: Option<OpModel>,
    pub arm_spans: Seq<(Seq<char>, Span)>,
    pub env: EnvModel,
    pub resume_type: Option<Ty>,
    pub resume_return_type: Option<Ty>,
    pub returned: Option<(u32, Ty)>,
    pub error: Option<Diag>,
}

impl DeepView for ArmRun {
    type V = ArmRunModel;

    open spec fn deep_view(&self) -> ArmRunModel {
        ArmRunModel {
            mapping: self.mapping.deep_view(),
            answer: self.answer,
            needs: self.needs.deep_view(),
            at: self.at,
            stage: self.stage,
            expected: self.expected.deep_view(),
            op: self.op.deep_view(),
            arm_spans: self.arm_spans.order(),
            env: self.env.deep_view(),
            resume_type: self.resume_type.deep_view(),
            resume_return_type: self.resume_return_type.deep_view(),
            returned: self.returned.deep_view(),
            error: self.error.deep_view(),
        }
    }
}

pub open spec fn arms_failed(run: ArmRunModel, d: Diag) -> ArmRunModel {
    ArmRunModel { stage: ArmStage::Failed, error: Some(d), ..run }
}

/// A diagnostic that stands at a place unless it has one.
pub open spec fn placed(d: Diag, span: Span) -> Diag {
    Diag {
        span: if d.span is None {
            Some(span)
        } else {
            d.span
        },
        ..d
    }
}

/// The state with a mismatch complained about, if there is one.
pub open spec fn with_mismatch(
    c: CheckerModel,
    mismatch: Option<Diag>,
    span: Span,
) -> CheckerModel {
    match mismatch {
        Some(d) => CheckerModel {
            collected_diagnostics: c.collected_diagnostics.push(placed(d, span)),
            ..c
        },
        None => c,
    }
}

/// An arm after its first `n` parameters are bound. A parameter that the operation
/// does not have is bound to a fresh variable; when all are bound, the constraints of
/// the operation are taken for granted.
pub open spec fn after_params(c: CheckerModel, body: HandlerBody, run: ArmRunModel, n: nat) -> (
    CheckerModel,
    ArmRunModel,
) {
    let op = run.op->0;
    if n >= body.arms@[run.at as int].params@.len() {
        (
            CheckerModel {
                trait_state: with_assumptions(c.trait_state, op.constraints),
                ..c
            },
            ArmRunModel { stage: ArmStage::Body, ..run },
        )
    } else if n < op.params.len() {
        (
            c,
            ArmRunModel {
                stage: ArmStage::Param(n as usize),
                expected: op.params[n as int].1,
                ..run
            },
        )
    } else {
        (
            CheckerModel { next_var: (c.next_var + 1) as u32, ..c },
            ArmRunModel {
                stage: ArmStage::Param(n as usize),
                expected: Ty::Var(c.next_var),
                ..run
            },
        )
    }
}

/// A handler at its return clause, or at its end where it has none. Nothing is
/// resumed in a return clause.
pub open spec fn return_begun(c: CheckerModel, body: HandlerBody, run: ArmRunModel) -> (
    CheckerModel,
    ArmRunModel,
) {
    match body.return_clause {
        None => (c, ArmRunModel { stage: ArmStage::Done, ..run }),
        Some(clause) => (
            CheckerModel { resume_type: None, next_var: (c.next_var + 1) as u32, ..c },
            ArmRunModel {
                stage: if clause.params@.len() > 0 {
                    ArmStage::ReturnParam
                } else {
                    ArmStage::ReturnBody
                },
                expected: Ty::Var(c.next_var),
                env: c.env,
                resume_type: c.resume_type,
                ..run
            },
        ),
    }
}

/// A handler at its next arm. In the arm, resuming takes what the operation gives
/// back and gives the answer of the handler.
pub open spec fn arm_begun(c: CheckerModel, body: HandlerBody, run: ArmRunModel) -> (
    CheckerModel,
    ArmRunModel,
) {
    if run.at >= body.arms@.len() {
        return_begun(c, body, run)
    } else {
        let arm = body.arms@[run.at as int];
        let entered = arm_entered(
            c,
            run.mapping,
            run.arm_spans,
            body.effects@,
            arm.op_name@,
            arm.span,
        );
        let run1 = ArmRunModel { arm_spans: entered.1, ..run };
        match entered.2 {
            Err(d) => (entered.0, arms_failed(run1, d)),
            Ok(op) => after_params(
                CheckerModel {
                    resume_type: Some(op.return_type),
                    resume_return_type: Some(Ty::Var(run.answer)),
                    ..entered.0
                },
                body,
                ArmRunModel {
                    op: Some(op),
                    env: entered.0.env,
                    resume_type: entered.0.resume_type,
                    resume_return_type: entered.0.resume_return_type,
                    ..run1
                },
                0,
            ),
        }
    }
}

/// The bodies of a handler at their beginning.
pub open spec fn arms_begun(
    c: CheckerModel,
    body: HandlerBody,
    mapping: Map<u32, Ty>,
    answer: u32,
    needs: Row,
) -> (CheckerModel, ArmRunModel) {
    arm_begun(
        c,
        body,
        ArmRunModel {
            mapping,
            answer,
            needs,
            at: 0,
            stage: ArmStage::Done,
            expected: Ty::Var(answer),
            op: None,
            arm_spans: Seq::empty(),
            env: c.env,
            resume_type: c.resume_type,
            resume_return_type: c.resume_return_type,
            returned: None,
            error: None,
        },
    )
}

/// A handler after an arm: what the arm bound is gone, and the next arm begins.
pub open spec fn arm_done(c: CheckerModel, body: HandlerBody, run: ArmRunModel) -> (
    CheckerModel,
    ArmRunModel,
) {
    arm_begun(
        CheckerModel {
            env: run.env,
            resume_type: run.resume_type,
            resume_return_type: run.resume_return_type,
            ..c
        },
        body,
        ArmRunModel { at: (run.at + 1) as usize, ..run },
    )
}

/// A handler after the body of an arm.
pub open spec fn arm_body_done(
    c: CheckerModel,
    body: HandlerBody,
    run: ArmRunModel,
    mismatch: Option<Diag>,
) -> (CheckerModel, ArmRunModel) {
    let arm = body.arms@[run.at as int];
    let c1 = with_mismatch(c, mismatch, arm.span);
    if arm.finally_block is Some {
        (c1, ArmRunModel { stage: ArmStage::Finally, ..run })
    } else {
        arm_done(c1, body, run)
    }
}

/// A handler after what an arm does in the end, which may have the effects that the
/// handler declares and no others.
pub open spec fn finally_done(c: CheckerModel, body: HandlerBody, run: ArmRunModel, row: Row) -> (
    CheckerModel,
    ArmRunModel,
) {
    let arm = body.arms@[run.at as int];
    let covered = effects_covered(
        row,
        applied_row(c.sub, run.needs),
        "finally block for '"@ + arm.op_name@ + "'"@,
        arm.finally_block->0.span,
    );
    let c1 = match covered {
        Ok(_) => c,
        Err(d) => CheckerModel { collected_diagnostics: c.collected_diagnostics.push(d), ..c },
    };
    arm_done(c1, body, run)
}

/// A handler after its return clause.
pub open spec fn return_done(
    c: CheckerModel,
    body: HandlerBody,
    run: ArmRunModel,
    ty: Ty,
    mismatch: Option<Diag>,
) -> (CheckerModel, ArmRunModel) {
    let c1 = with_mismatch(c, mismatch, body.return_clause->0.body.span);
    (
        CheckerModel { env: run.env, resume_type: run.resume_type, ..c1 },
        ArmRunModel {
            stage: ArmStage::Done,
            returned: Some((run.expected->Var_0, ty)),
            ..run
        },
    )
}

/// The state and the run after a stage.
pub open spec fn arms_advanced(
    c: CheckerModel,
    body: HandlerBody,
    run: ArmRunModel,
    found: ArmFindingModel,
) -> (CheckerModel, ArmRunModel) {
    match (run.stage, found) {
        (ArmStage::Done, _) | (ArmStage::Failed, _) => (c, run),
        (_, ArmFindingModel::Failed(d)) => (c, arms_failed(run, d)),
        (ArmStage::Param(i), _) => after_params(c, body, run, (i + 1) as nat),
        (ArmStage::Body, ArmFindingModel::Typed(_, mismatch)) => arm_body_done(
            c,
            body,
            run,
            mismatch,
        ),
        (ArmStage::Body, _) => arm_body_done(c, body, run, None),
        (ArmStage::Finally, ArmFindingModel::Effects(row)) => finally_done(c, body, run, row),
        (ArmStage::Finally, _) => arm_done(c, body, run),
        (ArmStage::ReturnParam, _) => (c, ArmRunModel { stage: ArmStage::ReturnBody, ..run }),
        (ArmStage::ReturnBody, ArmFindingModel::Typed(ty, mismatch)) => return_done(
            c,
            body,
            run,
            ty,
            mismatch,
        ),
        (ArmStage::ReturnBody, _) => (c, run),
    }
}

/// Whether a run is one of the bodies of a handler.
pub open spec fn arm_run_fits(body: HandlerBody, run: ArmRunModel) -> bool {
    &&& run.stage is Param || run.stage is Body || run.stage is Finally ==> run.at
        < body.arms@.len() && run.op is Some
    &&& run.stage is Param ==> run.stage->Param_0 < body.arms@[run.at as int].params@.len()
    &&& run.stage is Finally ==> body.arms@[run.at as int].finally_block is Some
    &&& run.stage is ReturnParam || run.stage is ReturnBody ==> body.return_clause is Some
        && run.expected is Var
}

impl Checker {
    fn complain_of_mismatch(&mut self, mismatch: Option<Diagnostic>, span: Span)
        ensures
            final(self).deep_view() == with_mismatch(
                old(self).deep_view(),
                mismatch.deep_view(),
                span,
            ),
    {
        if let Some(d) = mismatch {
            push_value(&mut self.collected_diagnostics, d.with_span(span));
        }
    }

    fn bind_next_param(&mut self, run: &mut ArmRun, body: &HandlerBody, n: usize)
        requires
            old(run).at < body.arms.len(),
            old(run).op is Some,
            old(self).next_var < u32::MAX,
        ensures
            (final(self).deep_view(), final(run).deep_view()) == after_params(
                old(self).deep_view(),
                *body,
                old(run).deep_view(),
                n as nat,
            ),
            arm_run_fits(*body, final(run).deep_view()),
    {
        if let Some(op) = &run.op {
            assert(op.params.deep_view().len() == op.params.len());
            if n >= body.arms[run.at].params.len() {
                self.add_op_constraint_where_bounds(&op.constraints);
                run.stage = ArmStage::Body;
            } else {
                run.expected = self.arm_param_type(op, n);
                run.stage = ArmStage::Param(n);
            }
        }
    }

    fn begin_return(&mut self, run: &mut ArmRun, body: &HandlerBody)
        requires
            old(self).next_var < u32::MAX,
        ensures
            (final(self).deep_view(), final(run).deep_view()) == return_begun(
                old(self).deep_view(),
                *body,
                old(run).deep_view(),
            ),
            arm_run_fits(*body, final(run).deep_view()),
    {
        broadcast use group_type_models;

        match &body.return_clause {
            None => {
                run.stage = ArmStage::Done;
            },
            Some(clause) => {
                run.env = self.env.dup();
                run.resume_type = self.resume_type.dup();
                self.resume_type = None;
                let id = self.fresh_var();
                run.expected = Type::Var(id);
                run.stage = if clause.params.len() > 0 {
                    ArmStage::ReturnParam
                } else {
                    ArmStage::ReturnBody
                };
            },
        }
    }

    fn begin_arm(&mut self, run: &mut ArmRun, body: &HandlerBody)
        requires
            old(self).next_var < u32::MAX,
        ensures
            (final(self).deep_view(), final(run).deep_view()) == arm_begun(
                old(self).deep_view(),
                *body,
                old(run).deep_view(),
            ),
            arm_run_fits(*body, final(run).deep_view()),
    {
        broadcast use group_type_models;

        if run.at >= body.arms.len() {
            self.begin_return(run, body);
            return;
        }
        let arm = &body.arms[run.at];
        let ghost c0 = self.deep_view();
        let ghost run0 = run.deep_view();
        match self.enter_arm(
            &body.effects,
            &run.mapping,
            &mut run.arm_spans,
            arm.op_name.as_str(),
            arm.span,
        ) {
            Err(d) => {
                run.stage = ArmStage::Failed;
                run.error = Some(d);
            },
            Ok(op) => {
                proof {
                    arm_entered_keeps(
                        c0,
                        run0.mapping,
                        run0.arm_spans,
                        body.effects@,
                        arm.op_name@,
                        arm.span,
                    );
                }
                run.env = self.env.dup();
                run.resume_type = self.resume_type.dup();
                run.resume_return_type = self.resume_return_type.dup();
                self.resume_type = Some(op.return_type.dup());
                self.resume_return_type = Some(Type::Var(run.answer));
                run.op = Some(op);
                self.bind_next_param(run, body, 0);
            },
        }
    }

    /// The bodies of a handler at their beginning. `needs` are the effects that it
    /// declares.
    pub fn begin_arms(
        &mut self,
        body: &HandlerBody,
        mapping: Table<u32, Type>,
        answer: u32,
        needs: EffectRow,
    ) -> (r: ArmRun)
        requires
            old(self).next_var < u32::MAX,
        ensures
            (final(self).deep_view(), r.deep_view()) == arms_begun(
                old(self).deep_view(),
                *body,
                mapping.deep_view(),
                answer,
                needs@,
            ),
            arm_run_fits(*body, r.deep_view()),
    {
        broadcast use group_type_models;

        let mut run = ArmRun {
            mapping,
            answer,
            needs,
            at: 0,
            stage: ArmStage::Done,
            expected: Type::Var(answer),
            op: None,
            arm_spans: Table::new(),
            env: self.env.dup(),
            resume_type: self.resume_type.dup(),
            resume_return_type: self.resume_return_type.dup(),
            returned: None,
            error: None,
        };
        self.begin_arm(&mut run, body);
        run
    }

    fn finish_arm(&mut self, run: &mut ArmRun, body: &HandlerBody)
        requires
            old(run).at < body.arms.len(),
            old(self).next_var < u32::MAX,
        ensures
            (final(self).deep_view(), final(run).deep_view()) == arm_done(
                old(self).deep_view(),
                *body,
                old(run).deep_view(),
            ),
            arm_run_fits(*body, final(run).deep_view()),
    {
        self.env = run.env.dup();
        self.resume_type = run.resume_type.dup();
        self.resume_return_type = run.resume_return_type.dup();
        run.at = run.at + 1;
        self.begin_arm(run, body);
    }

    fn finish_arm_body(
        &mut self,
        run: &mut ArmRun,
        body: &HandlerBody,
        mismatch: Option<Diagnostic>,
    )
        requires
            arm_run_fits(*body, old(run).deep_view()),
            old(run).stage is Body,
            old(self).next_var < u32::MAX,
        ensures
            (final(self).deep_view(), final(run).deep_view()) == arm_body_done(
                old(self).deep_view(),
                *body,
                old(run).deep_view(),
                mismatch.deep_view(),
            ),
            arm_run_fits(*body, final(run).deep_view()),
    {
        let arm = &body.arms[run.at];
        self.complain_of_mismatch(mismatch, arm.span);
        if arm.finally_block.is_some() {
            run.stage = ArmStage::Finally;
        } else {
            self.finish_arm(run, body);
        }
    }

    fn finish_finally(&mut self, run: &mut ArmRun, body: &HandlerBody, row: &EffectRow)
        requires
            arm_run_fits(*body, old(run).deep_view()),
            old(run).stage is Finally,
            old(self).next_var < u32::MAX,
            acyclic(old(self).sub@),
        ensures
            (final(self).deep_view(), final(run).deep_view()) == finally_done(
                old(self).deep_view(),
                *body,
                old(run).deep_view(),
                row@,
            ),
            arm_run_fits(*body, final(run).deep_view()),
    {
        let arm = &body.arms[run.at];
        if let Some(finally_block) = &arm.finally_block {
            let label = concat3("finally block for '", arm.op_name.as_str(), "'");
            let covered = check_effects_via_row(
                &self.sub,
                row,
                &run.needs,
                label.as_str(),
                finally_block.span,
            );
            if let Err(d) = covered {
                push_value(&mut self.collected_diagnostics, d);
            }
        }
        self.finish_arm(run, body);
    }

    fn finish_return(
        &mut self,
        run: &mut ArmRun,
        body: &HandlerBody,
        ty: Type,
        mismatch: Option<Diagnostic>,
    )
        requires
            arm_run_fits(*body, old(run).deep_view()),
            old(run).stage is ReturnBody,
        ensures
            (final(self).deep_view(), final(run).deep_view()) == return_done(
                old(self).deep_view(),
                *body,
                old(run).deep_view(),
                ty@,
                mismatch.deep_view(),
            ),
            arm_run_fits(*body, final(run).deep_view()),
    {
        broadcast use group_type_models;

        if let Some(clause) = &body.return_clause {
            self.complain_of_mismatch(mismatch, clause.body.span);
        }
        self.env = run.env.dup();
        self.resume_type = run.resume_type.dup();
        if let Type::Var(id) = &run.expected {
            run.returned = Some((*id, ty));
        }
        run.stage = ArmStage::Done;
    }

    /// Takes what came of the stage of a run, and moves it on.
    pub fn advance_arms(&mut self, run: &mut ArmRun, body: &HandlerBody, found: ArmFinding)
        requires
            arm_run_fits(*body, old(run).deep_view()),
            old(self).next_var < u32::MAX,
            acyclic(old(self).sub@),
        ensures
            (final(self).deep_view(), final(run).deep_view()) == arms_advanced(
                old(self).deep_view(),
                *body,
                old(run).deep_view(),
                found.deep_view(),
            ),
            arm_run_fits(*body, final(run).deep_view()),
    {
        match run.stage {
            ArmStage::Done | ArmStage::Failed => {
                return;
            },
            _ => {},
        }
        match found {
            ArmFinding::Failed(d) => {
                run.stage = ArmStage::Failed;
                run.error = Some(d);
            },
            ArmFinding::Typed(ty, mismatch) => match run.stage {
                ArmStage::Body => {
                    self.finish_arm_body(run, body, mismatch);
                },
                ArmStage::ReturnBody => {
                    self.finish_return(run, body, ty, mismatch);
                },
                _ => {
                    self.move_on(run, body);
                },
            },
            ArmFinding::Effects(row) => match run.stage {
                ArmStage::Finally => {
                    self.finish_finally(run, body, &row);
                },
                _ => {
                    self.move_on(run, body);
                },
            },
            ArmFinding::Fine => {
                self.move_on(run, body);
            },
        }
    }

    fn move_on(&mut self, run: &mut ArmRun, body: &HandlerBody)
        requires
            arm_run_fits(*body, old(run).deep_view()),
            !(old(run).stage is Done),
            !(old(run).stage is Failed),
            old(self).next_var < u32::MAX,
        ensures
            (final(self).deep_view(), final(run).deep_view()) == arms_advanced(
                old(self).deep_view(),
                *body,
                old(run).deep_view(),
                ArmFindingModel::Fine,
            ),
            arm_run_fits(*body, final(run).deep_view()),
    {
        match run.stage {
            ArmStage::Param(i) => {
                assert(i < body.arms@[run.at as int].params.len());
                self.bind_next_param(run, body, i + 1);
            },
            ArmStage::Body => {
                self.finish_arm_body(run, body, None);
            },
            ArmStage::Finally => {
                self.finish_arm(run, body);
            },
            ArmStage::ReturnParam => {
                run.stage = ArmStage::ReturnBody;
            },
            _ => {},
        }
    }
}

impl ArmRun {
    /// What the handler is registered with. `effects` are the effects of its bodies,
    /// `outer` the type variables that were in scope by their names before.
    pub fn finish(self, effects: EffectRow, outer: Table<String, u32>) -> (r: HandlerRun)
        ensures
            r.deep_view() == (HandlerRunModel {
                mapping: self.deep_view().mapping,
                answer: self.answer,
                arm_spans: self.deep_view().arm_spans,
                returned: self.deep_view().returned,
                effects: effects@,
                outer: outer.order(),
            }),
    {
        HandlerRun {
            mapping: self.mapping,
            answer: self.answer,
            arm_spans: self.arm_spans,
            returned: self.returned,
            effects,
            outer,
        }
    }
}

/// Every arm, and the return clause, is checked in the environment in which the first
/// arm is, and nothing is resumed in it but its own operation. What was resumed before
/// is resumed again after the last one.
pub proof fn arms_leave_no_bindings(
    c: CheckerModel,
    body: HandlerBody,
    run: ArmRunModel,
    found: ArmFindingModel,
)
    requires
        arm_run_fits(body, run),
        !(run.stage is Done),
        !(arms_advanced(c, body, run, found).1.stage is Failed),
    ensures
        ({
            let after = arms_advanced(c, body, run, found);
            &&& after.1.env == run.env
            &&& after.1.resume_type == run.resume_type
            &&& after.1.stage is Done ==> after.0.env == run.env && after.0.resume_type
                == run.resume_type
        }),
{
    assert(body.arms@.len() == body.arms.len());
    let arm = body.arms@[run.at + 1];
    assert forall|c1: CheckerModel| true implies #[trigger] arm_entered(
        c1,
        run.mapping,
        run.arm_spans,
        body.effects@,
        arm.op_name@,
        arm.span,
    ).0 == (CheckerModel {
        lsp: arm_entered(
            c1,
            run.mapping,
            run.arm_spans,
            body.effects@,
            arm.op_name@,
            arm.span,
        ).0.lsp,
        ..c1
    }) by {
        arm_entered_keeps(
            c1,
            run.mapping,
            run.arm_spans,
            body.effects@,
            arm.op_name@,
            arm.span,
        );
    }
}

/// Whether an effect of a handler has an operation.
pub open spec fn has_op(c: CheckerModel, e: EffectRef, name: Seq<char>) -> bool {
    match at_key(c.effects, resolved_name(c.resolution.effect_refs, e.id, e.name@)) {
        Some(info) => sig_named(info.ops, name) is Some,
        None => false,
    }
}

/// Whether just one of some effects has an operation.
pub open spec fn one_has_op(c: CheckerModel, refs: Seq<EffectRef>, name: Seq<char>) -> bool {
    exists|j: int|
        0 <= j < refs.len() && #[trigger] has_op(c, refs[j], name) && forall|k: int|
            0 <= k < refs.len() && #[trigger] has_op(c, refs[k], name) ==> k == j
}

/// What an operation that was found among the first `n` effects says.
proof fn found_op_is_of_one(
    c: CheckerModel,
    m: Map<u32, Ty>,
    spans: Seq<(Seq<char>, Span)>,
    refs: Seq<EffectRef>,
    name: Seq<char>,
    span: Span,
    n: nat,
)
    requires
        n <= refs.len(),
        arm_op(c, m, spans, refs, name, span, n).2 is Ok,
    ensures
        ({
            let found = arm_op(c, m, spans, refs, name, span, n);
            match found.2->Ok_0 {
                Some(_) => found.1 == put(spans, name, span) && one_has_op(
                    c,
                    refs.take(n as int),
                    name,
                ),
                None => found.1 == spans && forall|k: int|
                    0 <= k < n ==> !#[trigger] has_op(c, refs[k], name),
            }
        }),
    decreases n,
{
    if n > 0 {
        let m1 = (n - 1) as nat;
        found_op_is_of_one(c, m, spans, refs, name, span, m1);
        let now = refs.take(n as int);
        let before = refs.take(m1 as int);
        assert forall|k: int| 0 <= k < m1 implies #[trigger] now[k] == before[k] by {}
        let found = arm_op(c, m, spans, refs, name, span, m1).2->Ok_0;
        if found is Some {
            let j = choose|j: int|
                0 <= j < before.len() && #[trigger] has_op(c, before[j], name) && forall|k: int|
                    0 <= k < before.len() && #[trigger] has_op(c, before[k], name) ==> k == j;
            assert(has_op(c, now[j], name));
            assert(!has_op(c, refs[n - 1], name));
            assert forall|k: int|
                0 <= k < now.len() && #[trigger] has_op(c, now[k], name) implies k == j by {
                if k < m1 {
                    assert(has_op(c, before[k], name));
                }
            }
        } else if has_op(c, refs[n - 1], name) {
            let j = n - 1;
            assert(has_op(c, now[j], name));
            assert forall|k: int|
                0 <= k < now.len() && #[trigger] has_op(c, now[k], name) implies k == j by {
                if k < m1 {
                    assert(has_op(c, refs[k], name));
                }
            }
        }
    }
}

/// The turns of a run: the state before each stage is taken, the run, and what came of
/// the stage.
pub type ArmTurns = Seq<(CheckerModel, ArmRunModel, ArmFindingModel)>;

/// Whether turns are those of the bodies of a handler that begin in a state. Inference
/// changes the state between two turns, but not which effects there are.
pub open spec fn are_arm_turns(
    c: CheckerModel,
    body: HandlerBody,
    mapping: Map<u32, Ty>,
    answer: u32,
    needs: Row,
    turns: ArmTurns,
) -> bool {
    &&& turns.len() > 0
    &&& turns[0].1 == arms_begun(c, body, mapping, answer, needs).1
    &&& forall|k: int| 0 <= k < turns.len() ==> same_effects(c, (#[trigger] turns[k]).0)
    &&& forall|k: int|
        0 <= k < turns.len() - 1 ==> #[trigger] turns[k + 1].1 == arms_advanced(
            turns[k].0,
            body,
            turns[k].1,
            turns[k].2,
        ).1
}

/// Two states with the same effects, in which names of effects stand for the same.
pub open spec fn same_effects(c: CheckerModel, other: CheckerModel) -> bool {
    c.effects == other.effects && c.resolution == other.resolution
}

/// Whether the first `n` arms are of different operations, each of just one effect of
/// the handler.
pub open spec fn arms_are_apart(c: CheckerModel, body: HandlerBody, n: int) -> bool {
    &&& forall|i: int, j: int|
        0 <= i < j < n ==> (#[trigger] body.arms@[i]).op_name@ != (
        #[trigger] body.arms@[j]).op_name@
    &&& forall|i: int|
        0 <= i < n ==> one_has_op(c, body.effects@, (#[trigger] body.arms@[i]).op_name@)
}

/// Whether the places of arms are those of the first `n`.
spec fn spans_are_of(body: HandlerBody, spans: Seq<(Seq<char>, Span)>, n: int) -> bool {
    forall|i: int| 0 <= i < n ==> has_key(spans, (#[trigger] body.arms@[i]).op_name@)
}

/// What holds of the arms that were entered.
spec fn arms_hold(c: CheckerModel, body: HandlerBody, run: ArmRunModel) -> bool {
    if run.stage is Failed {
        true
    } else if run.stage is Param || run.stage is Body || run.stage is Finally {
        run.at < body.arms@.len() && arms_are_apart(c, body, run.at + 1) && spans_are_of(
            body,
            run.arm_spans,
            run.at + 1,
        )
    } else {
        arms_are_apart(c, body, body.arms@.len() as int)
    }
}

proof fn begun_arms_hold(
    c: CheckerModel,
    now: CheckerModel,
    body: HandlerBody,
    run: ArmRunModel,
)
    requires
        same_effects(c, now),
        run.at <= body.arms@.len(),
        arms_are_apart(c, body, run.at as int),
        spans_are_of(body, run.arm_spans, run.at as int),
    ensures
        arms_hold(c, body, arm_begun(now, body, run).1),
{
    if run.at < body.arms@.len() {
        let arm = body.arms@[run.at as int];
        let refs = body.effects@;
        let name = arm.op_name@;
        let entered = arm_entered(now, run.mapping, run.arm_spans, refs, name, arm.span);
        if entered.2 is Ok {
            found_op_is_of_one(
                now,
                run.mapping,
                run.arm_spans,
                refs,
                name,
                arm.span,
                refs.len(),
            );
            assert(refs.take(refs.len() as int) =~= refs);
            let j = choose|j: int|
                0 <= j < refs.len() && #[trigger] has_op(now, refs[j], name) && forall|k: int|
                    0 <= k < refs.len() && #[trigger] has_op(now, refs[k], name) ==> k == j;
            assert(has_op(c, refs[j], name));
            assert forall|k: int|
                0 <= k < refs.len() && #[trigger] has_op(c, refs[k], name) implies k == j by {
                assert(has_op(now, refs[k], name));
            }
            assert(one_has_op(c, refs, name));
            let spans = entered.1;
            assert(spans == run.arm_spans.push((name, arm.span)));
            assert forall|i: int| 0 <= i < run.at + 1 implies has_key(
                spans,
                (#[trigger] body.arms@[i]).op_name@,
            ) by {
                if i < run.at {
                    let x = body.arms@[i].op_name@;
                    let k = choose|k: int|
                        0 <= k < run.arm_spans.len() && (#[trigger] run.arm_spans[k]).0 == x;
                    assert(spans[k].0 == x);
                } else {
                    assert(spans[run.arm_spans.len() as int].0 == name);
                }
            }
            assert forall|i: int, j: int| 0 <= i < j < run.at + 1 implies (
            #[trigger] body.arms@[i]).op_name@ != (#[trigger] body.arms@[j]).op_name@ by {
                if j == run.at {
                    assert(has_key(run.arm_spans, body.arms@[i].op_name@));
                }
            }
            assert(arms_are_apart(c, body, run.at + 1));
            assert(spans_are_of(body, spans, run.at + 1));
        }
    }
}

proof fn turns_keep_arms_apart(
    c: CheckerModel,
    body: HandlerBody,
    mapping: Map<u32, Ty>,
    answer: u32,
    needs: Row,
    turns: ArmTurns,
    k: int,
)
    requires
        are_arm_turns(c, body, mapping, answer, needs, turns),
        0 <= k < turns.len(),
    ensures
        arms_hold(c, body, turns[k].1),
    decreases k,
{
    if k == 0 {
        begun_arms_hold(
            c,
            c,
            body,
            ArmRunModel {
                mapping,
                answer,
                needs,
                at: 0,
                stage: ArmStage::Done,
                expected: Ty::Var(answer),
                op: None,
                arm_spans: Seq::empty(),
                env: c.env,
                resume_type: c.resume_type,
                resume_return_type: c.resume_return_type,
                returned: None,
                error: None,
            },
        );
    } else {
        turns_keep_arms_apart(c, body, mapping, answer, needs, turns, k - 1);
        let turn = turns[k - 1];
        let run = turn.1;
        assert(turns[(k - 1) + 1].1 == arms_advanced(turn.0, body, run, turn.2).1);
        assert(same_effects(c, turn.0));
        assert(body.arms@.len() == body.arms.len());
        if run.stage is Body || run.stage is Finally {
            let next = ArmRunModel { at: (run.at + 1) as usize, ..run };
            assert forall|now: CheckerModel| same_effects(c, now) implies arms_hold(
                c,
                body,
                (#[trigger] arm_begun(now, body, next)).1,
            ) by {
                begun_arms_hold(c, now, body, next);
            }
        }
    }
}

/// A handler whose bodies are all checked has no two arms of one operation, and each of
/// its arms is of an operation of just one of its effects.
pub proof fn arms_are_of_different_operations(
    c: CheckerModel,
    body: HandlerBody,
    mapping: Map<u32, Ty>,
    answer: u32,
    needs: Row,
    turns: ArmTurns,
)
    requires
        are_arm_turns(c, body, mapping, answer, needs, turns),
        turns.last().1.stage is Done,
    ensures
        arms_are_apart(c, body, body.arms@.len() as int),
{
    turns_keep_arms_apart(c, body, mapping, answer, needs, turns, turns.len() - 1);
}

/// In an arm, resuming takes what its operation gives back and gives the answer of the
/// handler.
pub proof fn arms_resume_with_what_is_given_back(
    c: CheckerModel,
    body: HandlerBody,
    run: ArmRunModel,
)
    requires
        run.at < body.arms@.len(),
        !(arm_begun(c, body, run).1.stage is Failed),
    ensures
        ({
            let after = arm_begun(c, body, run);
            let arm = body.arms@[run.at as int];
            let entered = arm_entered(
                c,
                run.mapping,
                run.arm_spans,
                body.effects@,
                arm.op_name@,
                arm.span,
            );
            &&& entered.2 matches Ok(op)
            &&& after.1.op == Some(op)
            &&& after.0.resume_type == Some(op.return_type)
            &&& after.0.resume_return_type == Some(Ty::Var(run.answer))
            &&& after.0.env == c.env
            &&& after.1.env == c.env
            &&& after.1.at == run.at
            &&& after.1.arm_spans == entered.1
        }),
{
    let arm = body.arms@[run.at as int];
    arm_entered_keeps(
        c,
        run.mapping,
        run.arm_spans,
        body.effects@,
        arm.op_name@,
        arm.span,
    );
}

/// Each parameter of an arm is bound to the type of the operation's parameter in its
/// place, and to a fresh variable where the operation has none there. All parameters
/// are bound before the body is checked.
pub proof fn arm_parameters_have_the_operations_types(
    c: CheckerModel,
    body: HandlerBody,
    run: ArmRunModel,
    n: nat,
)
    requires
        run.op is Some,
        n <= usize::MAX,
    ensures
        ({
            let after = after_params(c, body, run, n);
            let op = run.op->0;
            let count = body.arms@[run.at as int].params@.len();
            &&& n < count ==> after.1.stage == ArmStage::Param(n as usize)
            &&& n < count && n < op.params.len() ==> after.1.expected == op.params[n as int].1
                && after.0 == c
            &&& n < count && n >= op.params.len() ==> after.1.expected == Ty::Var(c.next_var)
            &&& n >= count ==> after.1.stage == ArmStage::Body
            &&& after.0.resume_type == c.resume_type
            &&& after.0.collected_diagnostics == c.collected_diagnostics
        }),
{
}

/// A body whose type is not that of the answer is complained about.
pub proof fn arm_mismatches_are_reported(
    c: CheckerModel,
    body: HandlerBody,
    run: ArmRunModel,
    ty: Ty,
    mismatch: Diag,
)
    requires
        run.stage == ArmStage::Body || run.stage == ArmStage::ReturnBody,
    ensures
        ({
            let found = ArmFindingModel::Typed(ty, Some(mismatch));
            let fine = ArmFindingModel::Typed(ty, None);
            let after = arms_advanced(c, body, run, found).0.collected_diagnostics;
            &&& after.len() == c.collected_diagnostics.len() + 1
            &&& after.last().message == mismatch.message
            &&& arms_advanced(c, body, run, fine).0.collected_diagnostics
                == c.collected_diagnostics
        }),
{
    if run.stage == ArmStage::Body && body.arms@[run.at as int].finally_block is None {
        let arm = body.arms@[run.at as int];
        begun_arms_keep_diagnostics(
            CheckerModel {
                env: run.env,
                resume_type: run.resume_type,
                resume_return_type: run.resume_return_type,
                ..with_mismatch(c, Some(mismatch), arm.span)
            },
            body,
            ArmRunModel { at: (run.at + 1) as usize, ..run },
        );
        begun_arms_keep_diagnostics(
            CheckerModel {
                env: run.env,
                resume_type: run.resume_type,
                resume_return_type: run.resume_return_type,
                ..c
            },
            body,
            ArmRunModel { at: (run.at + 1) as usize, ..run },
        );
    }
}

proof fn begun_arms_keep_diagnostics(c: CheckerModel, body: HandlerBody, run: ArmRunModel)
    ensures
        arm_begun(c, body, run).0.collected_diagnostics == c.collected_diagnostics,
{
    if run.at < body.arms@.len() {
        let arm = body.arms@[run.at as int];
        arm_entered_keeps(
            c,
            run.mapping,
            run.arm_spans,
            body.effects@,
            arm.op_name@,
            arm.span,
        );
    }
}

} // verus!
