//! The clauses of a function, one after the other.
//!
//! A run says what is to be inferred next; [`Checker::advance_clauses`] takes what
//! came of it. The bindings of a clause are gone when the next one begins.

use vstd::prelude::*;
use crate::ast::{Decl, Expr, Pat};
use crate::checker::{Checker, CheckerModel};
use crate::diagnostics::{an_error_at, Diag, Diagnostic};
use crate::fun_clauses::{check_clause, clause_checked};
use crate::infos::{HandlerInfo, HandlerModel};
use crate::schemes::{EnvModel, TypeEnv};
use crate::table::Table;
use crate::token::Span;
use crate::values::Dup;

verus! {

/// What is inferred next of the clauses of a function.
#[derive(Debug, Clone, Copy, PartialEq, Eq, Structural)]
pub enum ClauseStage {
    /// A pattern is bound to the type of its parameter.
    Pattern(usize),
    /// The guard, which is a boolean and has no effects.
    Guard,
    /// The body, which has the type of the result.
    Body,
    Done,
    Failed,
}

/// What came of a stage.
pub enum ClauseFinding {
    Fine,
    /// The body is fine, and gives back a handler.
    Handler(HandlerInfo),
    /// The guard has an effect.
    EffectCall(Span),
    Failed(Diagnostic),
}

#[verifier::ext_equal]
pub enum ClauseFindingModel {
    Fine,
    Handler(HandlerModel),
    EffectCall(Span),
    Failed(Diag),
}

impl DeepView for ClauseFinding {
    type V = ClauseFindingModel;

    open spec fn deep_view(&self) -> ClauseFindingModel {
        match self {
            ClauseFinding::Fine => ClauseFindingModel::Fine,
            ClauseFinding::Handler(info) => ClauseFindingModel::Handler(info.deep_view()),
            ClauseFinding::EffectCall(span) => ClauseFindingModel::EffectCall(*span),
            ClauseFinding::Failed(d) => ClauseFindingModel::Failed(d.deep_view()),
        }
    }
}

/// How far the clauses of a function have come.
pub struct ClauseRun {
    pub name: String,
    /// The number of parameters of the first clause.
    pub arity: usize,
    /// Where the clauses of the function end.
    pub end: usize,
    /// The clause that is checked.
    pub at: usize,
    pub stage: ClauseStage,
    /// The environment before the clause.
    pub env: TypeEnv,
    /// The handlers before the clause.
    pub handlers: Table<String, HandlerInfo>,
    /// The first handler that a clause gives back.
    pub returned: Option<HandlerInfo>,
    /// Why the run failed.
    pub error: Option<Diagnostic>,
}

#[verifier::ext_equal]
pub struct ClauseRunModel {
    pub name: Seq<char>,
    pub arity: usize,
    pub end: usize,
    pub at: usize,
    pub stage: ClauseStage,
    pub env: EnvModel,
    pub handlers: Seq<(Seq<char>, HandlerModel)>,
    pub returned: Option<HandlerModel>,
    pub error: Option<Diag>,
}

impl DeepView for ClauseRun {
    type V = ClauseRunModel;

    open spec fn deep_view(&self) -> ClauseRunModel {
        ClauseRunModel {
            name: self.name@,
            arity: self.arity,
            end: self.end,
            at: self.at,
            stage: self.stage,
            env: self.env.deep_view(),
            handlers: self.handlers.order(),
            returned: self.returned.deep_view(),
            error: self.error.deep_view(),
        }
    }
}

/// The patterns of a clause.
pub open spec fn patterns_of(decl: Decl) -> Seq<Pat> {
    decl->FunBinding_params@
}

/// What comes after the first `n` patterns of a clause are bound.
pub open spec fn after_patterns(decl: Decl, n: nat) -> ClauseStage {
    if n < patterns_of(decl).len() {
        ClauseStage::Pattern(n as usize)
    } else if decl->FunBinding_guard is Some {
        ClauseStage::Guard
    } else {
        ClauseStage::Body
    }
}

pub open spec fn run_failed(run: ClauseRunModel, d: Diag) -> ClauseRunModel {
    ClauseRunModel { stage: ClauseStage::Failed, error: Some(d), ..run }
}

/// A run at its next clause: the state before it is kept.
pub open spec fn clause_begun(
    c: CheckerModel,
    program: Seq<Decl>,
    run: ClauseRunModel,
) -> ClauseRunModel {
    if run.at >= run.end {
        ClauseRunModel { stage: ClauseStage::Done, ..run }
    } else {
        let decl = program[run.at as int];
        let count = patterns_of(decl).len();
        match clause_checked(run.name, run.arity as nat, count, decl->FunBinding_span) {
            Err(d) => run_failed(run, d),
            Ok(_) => ClauseRunModel {
                stage: after_patterns(decl, 0),
                env: c.env,
                handlers: c.handlers,
                ..run
            },
        }
    }
}

/// The run of the clauses from `start` up to `end`.
pub open spec fn clauses_begun(
    c: CheckerModel,
    program: Seq<Decl>,
    name: Seq<char>,
    start: usize,
    end: usize,
) -> ClauseRunModel {
    clause_begun(
        c,
        program,
        ClauseRunModel {
            name,
            arity: patterns_of(program[start as int]).len() as usize,
            end,
            at: start,
            stage: ClauseStage::Done,
            env: c.env,
            handlers: c.handlers,
            returned: None,
            error: None,
        },
    )
}

pub open spec fn guard_error(span: Span) -> Diag {
    an_error_at(span, "Effect calls are not allowed in guard expressions"@)
}

/// The state and the run after a body is inferred: what the clause bound is gone, and
/// the next clause begins.
pub open spec fn body_done(
    c: CheckerModel,
    program: Seq<Decl>,
    run: ClauseRunModel,
    handler: Option<HandlerModel>,
) -> (CheckerModel, ClauseRunModel) {
    let c1 = CheckerModel { env: run.env, handlers: run.handlers, ..c };
    (
        c1,
        clause_begun(
            c1,
            program,
            ClauseRunModel {
                at: (run.at + 1) as usize,
                returned: if run.returned is Some {
                    run.returned
                } else {
                    handler
                },
                ..run
            },
        ),
    )
}

/// The state and the run after a stage.
pub open spec fn clauses_advanced(
    c: CheckerModel,
    program: Seq<Decl>,
    run: ClauseRunModel,
    found: ClauseFindingModel,
) -> (CheckerModel, ClauseRunModel) {
    match run.stage {
        ClauseStage::Done | ClauseStage::Failed => (c, run),
        ClauseStage::Pattern(i) => match found {
            ClauseFindingModel::Failed(d) => (c, run_failed(run, d)),
            _ => (
                c,
                ClauseRunModel {
                    stage: after_patterns(program[run.at as int], (i + 1) as nat),
                    ..run
                },
            ),
        },
        ClauseStage::Guard => match found {
            ClauseFindingModel::Failed(d) => (c, run_failed(run, d)),
            ClauseFindingModel::EffectCall(span) => (c, run_failed(run, guard_error(span))),
            _ => (c, ClauseRunModel { stage: ClauseStage::Body, ..run }),
        },
        ClauseStage::Body => match found {
            ClauseFindingModel::Failed(d) => (c, run_failed(run, d)),
            ClauseFindingModel::Handler(info) => body_done(c, program, run, Some(info)),
            _ => body_done(c, program, run, None),
        },
    }
}

/// Whether a run is one of clauses of a program.
pub open spec fn clause_run_fits(program: Seq<Decl>, run: ClauseRunModel) -> bool {
    &&& run.end <= program.len()
    &&& forall|i: int| run.at <= i < run.end ==> (#[trigger] program[i]) is FunBinding
    &&& run.stage is Pattern || run.stage is Guard || run.stage is Body ==> run.at < run.end
    &&& run.stage is Pattern ==> run.stage->Pattern_0 < patterns_of(program[run.at as int]).len()
}

fn stage_after(params: &Vec<Pat>, guard: &Option<Expr>, n: usize) -> (r: ClauseStage)
    ensures
        r == (if n < params@.len() {
            ClauseStage::Pattern(n)
        } else if guard is Some {
            ClauseStage::Guard
        } else {
            ClauseStage::Body
        }),
{
    if n < params.len() {
        ClauseStage::Pattern(n)
    } else if guard.is_some() {
        ClauseStage::Guard
    } else {
        ClauseStage::Body
    }
}

impl Checker {
    fn begin_clause(&self, run: &mut ClauseRun, program: &Vec<Decl>)
        requires
            old(run).end <= program.len(),
            forall|i: int|
                old(run).at <= i < old(run).end ==> (#[trigger] program@[i]) is FunBinding,
        ensures
            final(run).deep_view() == clause_begun(
                self.deep_view(),
                program@,
                old(run).deep_view(),
            ),
            clause_run_fits(program@, final(run).deep_view()),
    {
        if run.at >= run.end {
            run.stage = ClauseStage::Done;
            return;
        }
        if let Decl::FunBinding { params, guard, span, .. } = &program[run.at] {
            match check_clause(run.name.as_str(), run.arity, params, *span) {
                Err(d) => {
                    run.stage = ClauseStage::Failed;
                    run.error = Some(d);
                },
                Ok(_) => {
                    run.stage = stage_after(params, guard, 0);
                    run.env = self.env.dup();
                    run.handlers = self.handlers.dup();
                },
            }
        }
    }

    /// The run of the clauses of a function from `start` up to `end`.
    pub fn begin_clauses(&self, program: &Vec<Decl>, name: &str, start: usize, end: usize) -> (r:
        ClauseRun)
        requires
            start < end <= program.len(),
            forall|i: int| start <= i < end ==> (#[trigger] program@[i]) is FunBinding,
        ensures
            r.deep_view() == clauses_begun(self.deep_view(), program@, name@, start, end),
            clause_run_fits(program@, r.deep_view()),
    {
        let arity: usize = match &program[start] {
            Decl::FunBinding { params, .. } => params.len(),
            _ => 0,
        };
        let mut run = ClauseRun {
            name: name.to_owned(),
            arity,
            end,
            at: start,
            stage: ClauseStage::Done,
            env: self.env.dup(),
            handlers: self.handlers.dup(),
            returned: None,
            error: None,
        };
        self.begin_clause(&mut run, program);
        run
    }

    fn finish_body(
        &mut self,
        run: &mut ClauseRun,
        program: &Vec<Decl>,
        handler: Option<HandlerInfo>,
    )
        requires
            clause_run_fits(program@, old(run).deep_view()),
            old(run).stage is Body,
        ensures
            (final(self).deep_view(), final(run).deep_view()) == body_done(
                old(self).deep_view(),
                program@,
                old(run).deep_view(),
                handler.deep_view(),
            ),
            clause_run_fits(program@, final(run).deep_view()),
    {
        self.env = run.env.dup();
        self.handlers = run.handlers.dup();
        if run.returned.is_none() {
            run.returned = handler;
        }
        run.at = run.at + 1;
        self.begin_clause(run, program);
    }

    /// Takes what came of the stage of a run, and moves it on.
    pub fn advance_clauses(
        &mut self,
        run: &mut ClauseRun,
        program: &Vec<Decl>,
        found: ClauseFinding,
    )
        requires
            clause_run_fits(program@, old(run).deep_view()),
        ensures
            (final(self).deep_view(), final(run).deep_view()) == clauses_advanced(
                old(self).deep_view(),
                program@,
                old(run).deep_view(),
                found.deep_view(),
            ),
            clause_run_fits(program@, final(run).deep_view()),
    {
        match run.stage {
            ClauseStage::Done | ClauseStage::Failed => {},
            ClauseStage::Pattern(i) => match found {
                ClauseFinding::Failed(d) => {
                    run.stage = ClauseStage::Failed;
                    run.error = Some(d);
                },
                _ => {
                    if let Decl::FunBinding { params, guard, .. } = &program[run.at] {
                        assert(i < params.len());
                        run.stage = stage_after(params, guard, i + 1);
                    }
                },
            },
            ClauseStage::Guard => match found {
                ClauseFinding::Failed(d) => {
                    run.stage = ClauseStage::Failed;
                    run.error = Some(d);
                },
                ClauseFinding::EffectCall(span) => {
                    run.stage = ClauseStage::Failed;
                    run.error = Some(
                        Diagnostic::error_at(
                            span,
                            "Effect calls are not allowed in guard expressions".to_owned(),
                        ),
                    );
                },
                _ => {
                    run.stage = ClauseStage::Body;
                },
            },
            ClauseStage::Body => match found {
                ClauseFinding::Failed(d) => {
                    run.stage = ClauseStage::Failed;
                    run.error = Some(d);
                },
                ClauseFinding::Handler(info) => {
                    self.finish_body(run, program, Some(info));
                },
                _ => {
                    self.finish_body(run, program, None);
                },
            },
        }
    }
}

/// Every clause is checked in the environment in which the first one is, and the last
/// one leaves it behind.
pub proof fn clauses_leave_no_bindings(
    c: CheckerModel,
    program: Seq<Decl>,
    run: ClauseRunModel,
    found: ClauseFindingModel,
)
    requires
        !(run.stage is Done),
        !(clauses_advanced(c, program, run, found).1.stage is Failed),
    ensures
        ({
            let after = clauses_advanced(c, program, run, found);
            &&& after.1.env == run.env
            &&& after.1.handlers == run.handlers
            &&& after.1.at != run.at ==> after.0.env == run.env && after.0.handlers == run.handlers
        }),
{
}

/// The handler that a function gives back is that of the first clause that has one.
pub proof fn first_handler_stays(
    c: CheckerModel,
    program: Seq<Decl>,
    run: ClauseRunModel,
    found: ClauseFindingModel,
)
    requires
        run.returned is Some,
    ensures
        clauses_advanced(c, program, run, found).1.returned == run.returned,
{
}

/// The turns of a run: the state before each stage is taken, the run, and what came of
/// the stage. Inference changes the state between two turns.
pub type ClauseTurns = Seq<(CheckerModel, ClauseRunModel, ClauseFindingModel)>;

/// Whether turns are those of the clauses from `start` up to `end`.
pub open spec fn are_clause_turns(
    program: Seq<Decl>,
    name: Seq<char>,
    start: usize,
    end: usize,
    turns: ClauseTurns,
) -> bool {
    &&& turns.len() > 0
    &&& exists|c: CheckerModel| turns[0].1 == #[trigger] clauses_begun(c, program, name, start, end)
    &&& forall|k: int|
        0 <= k < turns.len() - 1 ==> #[trigger] turns[k + 1].1 == clauses_advanced(
            turns[k].0,
            program,
            turns[k].1,
            turns[k].2,
        ).1
}

/// Whether a clause has as many patterns as the first one.
pub open spec fn has_arity_of(program: Seq<Decl>, start: usize, i: int) -> bool {
    patterns_of(program[i]).len() == patterns_of(program[start as int]).len()
}

/// How far the arities of the clauses are known: up to the one that is checked.
spec fn arities_hold(program: Seq<Decl>, start: usize, end: usize, run: ClauseRunModel) -> bool {
    &&& run.end == end
    &&& run.arity == patterns_of(program[start as int]).len()
    &&& start <= run.at <= end
    &&& run.stage is Done ==> run.at == end
    &&& run.stage is Pattern || run.stage is Guard || run.stage is Body ==> run.at < end
        && has_arity_of(program, start, run.at as int)
    &&& run.stage is Failed || forall|i: int|
        start <= i < run.at ==> #[trigger] has_arity_of(program, start, i)
}

proof fn begun_arities_hold(
    c: CheckerModel,
    program: Seq<Decl>,
    start: usize,
    end: usize,
    run: ClauseRunModel,
)
    requires
        run.end == end,
        run.arity == patterns_of(program[start as int]).len(),
        start <= run.at <= end,
        forall|i: int| start <= i < run.at ==> #[trigger] has_arity_of(program, start, i),
    ensures
        arities_hold(program, start, end, clause_begun(c, program, run)),
{
}

proof fn turns_keep_arities(
    program: Seq<Decl>,
    name: Seq<char>,
    start: usize,
    end: usize,
    turns: ClauseTurns,
    k: int,
)
    requires
        start < end <= program.len(),
        are_clause_turns(program, name, start, end, turns),
        0 <= k < turns.len(),
    ensures
        arities_hold(program, start, end, turns[k].1),
    decreases k,
{
    if k == 0 {
        let c = choose|c: CheckerModel| turns[0].1 == #[trigger] clauses_begun(
            c,
            program,
            name,
            start,
            end,
        );
        let first = program[start as int];
        assert(first->FunBinding_params@.len() == first->FunBinding_params.len());
        begun_arities_hold(
            c,
            program,
            start,
            end,
            ClauseRunModel {
                name,
                arity: patterns_of(first).len() as usize,
                end,
                at: start,
                stage: ClauseStage::Done,
                env: c.env,
                handlers: c.handlers,
                returned: None,
                error: None,
            },
        );
    } else {
        turns_keep_arities(program, name, start, end, turns, k - 1);
        let turn = turns[k - 1];
        let run = turn.1;
        assert(turns[(k - 1) + 1].1 == clauses_advanced(turn.0, program, run, turn.2).1);
        if run.stage is Body && !(turn.2 is Failed) {
            let handler = match turn.2 {
                ClauseFindingModel::Handler(info) => Some(info),
                _ => None,
            };
            let next = ClauseRunModel {
                at: (run.at + 1) as usize,
                returned: if run.returned is Some {
                    run.returned
                } else {
                    handler
                },
                ..run
            };
            assert forall|i: int| start <= i < next.at implies #[trigger] has_arity_of(
                program,
                start,
                i,
            ) by {
                assert(i < run.at || i == run.at);
            }
            begun_arities_hold(
                CheckerModel { env: run.env, handlers: run.handlers, ..turn.0 },
                program,
                start,
                end,
                next,
            );
        }
    }
}

/// A run that is done has found as many patterns in every clause as in the first one.
/// So where some clause has more or fewer, a run that has come to its end has failed.
pub proof fn clauses_have_one_arity(
    program: Seq<Decl>,
    name: Seq<char>,
    start: usize,
    end: usize,
    turns: ClauseTurns,
)
    requires
        start < end <= program.len(),
        are_clause_turns(program, name, start, end, turns),
    ensures
        turns.last().1.stage is Done ==> forall|i: int|
            start <= i < end ==> #[trigger] has_arity_of(program, start, i),
        (turns.last().1.stage is Done || turns.last().1.stage is Failed) && (exists|i: int|
            start <= i < end && !#[trigger] has_arity_of(program, start, i))
            ==> turns.last().1.stage is Failed,
{
    turns_keep_arities(program, name, start, end, turns, turns.len() - 1);
}

} // verus!
